//! MKV reader: what the tags of an MKV stream say of its tracks, and the
//! video and audio frames in them.

use crate::ebml;
use crate::ebml::{parse_vint, VintError};
use crate::lists;
use crate::num;
use crate::num::{div_toward_zero, to_low32, to_signed};
use crate::text;
use crate::text::decimal_string;
use vstd::prelude::*;

verus! {

/// Nanoseconds in one tick of a timestamp, where the stream does not say.
pub const DEFAULT_TIMECODE_SCALE: u64 = 1_000_000;

/// The sample rate of an audio track that does not give one.
pub const DEFAULT_SAMPLE_RATE: u32 = 48000;

/// The channel count of an audio track that does not give one.
pub const DEFAULT_CHANNELS: u64 = 2;

/// Track information of an MKV stream
#[derive(Debug, Clone)]
pub struct MkvTrackInfo {
    pub video_width: u32,
    pub video_height: u32,
    pub video_codec_id: String,
    pub audio_sample_rate: u32,
    pub audio_channels: u32,
    pub audio_codec_id: String,
    pub timecode_scale: u64,
}

/// Track information, with text as characters.
pub struct TrackInfoView {
    pub video_width: u32,
    pub video_height: u32,
    pub video_codec_id: Seq<char>,
    pub audio_sample_rate: u32,
    pub audio_channels: u32,
    pub audio_codec_id: Seq<char>,
    pub timecode_scale: u64,
}

impl View for MkvTrackInfo {
    type V = TrackInfoView;

    open spec fn view(&self) -> TrackInfoView {
        TrackInfoView {
            video_width: self.video_width,
            video_height: self.video_height,
            video_codec_id: self.video_codec_id@,
            audio_sample_rate: self.audio_sample_rate,
            audio_channels: self.audio_channels,
            audio_codec_id: self.audio_codec_id@,
            timecode_scale: self.timecode_scale,
        }
    }
}

/// No track yet: zeros and empty text.
pub open spec fn no_tracks() -> TrackInfoView {
    TrackInfoView {
        video_width: 0,
        video_height: 0,
        video_codec_id: Seq::empty(),
        audio_sample_rate: 0,
        audio_channels: 0,
        audio_codec_id: Seq::empty(),
        timecode_scale: 0,
    }
}

impl Default for MkvTrackInfo {
    fn default() -> (r: Self)
        ensures
            r@ == no_tracks(),
    {
        let info = MkvTrackInfo {
            video_width: 0,
            video_height: 0,
            video_codec_id: String::new(),
            audio_sample_rate: 0,
            audio_channels: 0,
            audio_codec_id: String::new(),
            timecode_scale: 0,
        };
        assert(info.video_codec_id@ =~= Seq::<char>::empty());
        assert(info.audio_codec_id@ =~= Seq::<char>::empty());
        info
    }
}

/// A frame of an MKV stream (Video or Audio)
#[derive(Debug, Clone)]
pub enum MkvFrame {
    Video { data: Vec<u8>, timestamp_ms: i64, is_keyframe: bool },
    Audio { data: Vec<u8>, timestamp_ms: i64 },
}

/// A frame, with its data as a sequence.
pub enum FrameView {
    Video { data: Seq<u8>, timestamp_ms: i64, is_keyframe: bool },
    Audio { data: Seq<u8>, timestamp_ms: i64 },
}

impl View for MkvFrame {
    type V = FrameView;

    open spec fn view(&self) -> FrameView {
        match self {
            MkvFrame::Video { data, timestamp_ms, is_keyframe } => FrameView::Video {
                data: data@,
                timestamp_ms: *timestamp_ms,
                is_keyframe: *is_keyframe,
            },
            MkvFrame::Audio { data, timestamp_ms } => FrameView::Audio {
                data: data@,
                timestamp_ms: *timestamp_ms,
            },
        }
    }
}

impl MkvFrame {
    /// The data of the frame.
    pub fn payload(&self) -> (r: &[u8])
        ensures
            r@ == (match self@ {
                FrameView::Video { data, .. } => data,
                FrameView::Audio { data, .. } => data,
            }),
    {
        match self {
            MkvFrame::Video { data, .. } => data.as_slice(),
            MkvFrame::Audio { data, .. } => data.as_slice(),
        }
    }
}

/// A child of a Video element.
#[derive(Debug, Clone, Copy)]
pub enum VideoTag {
    PixelWidth(u64),
    PixelHeight(u64),
    Other,
}

/// A child of an Audio element. A sampling frequency comes as a whole number
/// of hertz.
#[derive(Debug, Clone, Copy)]
pub enum AudioTag {
    SamplingFrequency(u32),
    Channels(u64),
    Other,
}

/// A child of a TrackEntry.
#[derive(Debug)]
pub enum TrackTag {
    TrackNumber(u64),
    TrackType(u64),
    CodecID(String),
    Video(Vec<VideoTag>),
    Audio(Vec<AudioTag>),
    Other,
}

/// A child of a TrackEntry, with text and lists as sequences.
pub enum TrackTagView {
    TrackNumber(u64),
    TrackType(u64),
    CodecID(Seq<char>),
    Video(Seq<VideoTag>),
    Audio(Seq<AudioTag>),
    Other,
}

impl View for TrackTag {
    type V = TrackTagView;

    open spec fn view(&self) -> TrackTagView {
        match self {
            TrackTag::TrackNumber(n) => TrackTagView::TrackNumber(*n),
            TrackTag::TrackType(t) => TrackTagView::TrackType(*t),
            TrackTag::CodecID(id) => TrackTagView::CodecID(id@),
            TrackTag::Video(video) => TrackTagView::Video(video@),
            TrackTag::Audio(audio) => TrackTagView::Audio(audio@),
            TrackTag::Other => TrackTagView::Other,
        }
    }
}

/// The children of a TrackEntry, each with text and lists as sequences.
pub open spec fn track_views(children: Seq<TrackTag>) -> Seq<TrackTagView> {
    children.map_values(|c: TrackTag| c@)
}

/// A tag of an MKV stream.
#[derive(Debug)]
pub enum MkvTag {
    TimestampScale(u64),
    TrackEntry(Vec<TrackTag>),
    ClusterStart,
    Timestamp(u64),
    SimpleBlock(Vec<u8>),
    Other,
}

/// A tag of an MKV stream, with what it holds as sequences.
pub enum TagView {
    TimestampScale(u64),
    TrackEntry(Seq<TrackTagView>),
    ClusterStart,
    Timestamp(u64),
    SimpleBlock(Seq<u8>),
    Other,
}

impl View for MkvTag {
    type V = TagView;

    open spec fn view(&self) -> TagView {
        match self {
            MkvTag::TimestampScale(scale) => TagView::TimestampScale(*scale),
            MkvTag::TrackEntry(children) => TagView::TrackEntry(track_views(children@)),
            MkvTag::ClusterStart => TagView::ClusterStart,
            MkvTag::Timestamp(ticks) => TagView::Timestamp(*ticks),
            MkvTag::SimpleBlock(data) => TagView::SimpleBlock(data@),
            MkvTag::Other => TagView::Other,
        }
    }
}

/// Why a stream cannot be read.
#[derive(Debug, Clone, Copy, PartialEq, Eq, Structural)]
pub enum MkvReadError {
    MissingTrackNumber,
    MissingTrackType,
    NoCluster,
    /// A SimpleBlock of that many bytes.
    BlockTooShort(usize),
    Vint(VintError),
}

/// The message of a read error.
pub open spec fn read_error_text(e: MkvReadError) -> Seq<char> {
    match e {
        MkvReadError::MissingTrackNumber => "TrackEntry missing TrackNumber"@,
        MkvReadError::MissingTrackType => "TrackEntry missing TrackType"@,
        MkvReadError::NoCluster => "Failed to parse MKV header: no Cluster found"@,
        MkvReadError::BlockTooShort(n) => "SimpleBlock too short: "@ + text::decimal(n as nat)
            + " bytes"@,
        MkvReadError::Vint(VintError::Empty) => "Empty VINT"@,
        MkvReadError::Vint(VintError::InvalidLength) => "Invalid VINT length"@,
    }
}

impl MkvReadError {
    /// The error as a message.
    pub fn message(&self) -> (r: String)
        ensures
            r@ == read_error_text(*self),
    {
        match self {
            MkvReadError::MissingTrackNumber => "TrackEntry missing TrackNumber".to_owned(),
            MkvReadError::MissingTrackType => "TrackEntry missing TrackType".to_owned(),
            MkvReadError::NoCluster => "Failed to parse MKV header: no Cluster found".to_owned(),
            MkvReadError::BlockTooShort(n) => {
                let mut text = "SimpleBlock too short: ".to_owned();
                text.append(decimal_string(*n as u64).as_str());
                text.append(" bytes");
                text
            },
            MkvReadError::Vint(e) => e.message().to_owned(),
        }
    }
}

/// The track number that a TrackEntry gives.
pub open spec fn given_number(children: Seq<TrackTagView>) -> Option<u64> {
    lists::last_of(
        children,
        |c: TrackTagView|
            match c {
                TrackTagView::TrackNumber(n) => Some(n),
                _ => None,
            },
    )
}

/// The track type that a TrackEntry gives.
pub open spec fn given_type(children: Seq<TrackTagView>) -> Option<u64> {
    lists::last_of(
        children,
        |c: TrackTagView|
            match c {
                TrackTagView::TrackType(t) => Some(t),
                _ => None,
            },
    )
}

/// The codec that a TrackEntry gives.
pub open spec fn given_codec(children: Seq<TrackTagView>) -> Option<Seq<char>> {
    lists::last_of(
        children,
        |c: TrackTagView|
            match c {
                TrackTagView::CodecID(id) => Some(id),
                _ => None,
            },
    )
}

/// The width that a Video element gives.
pub open spec fn pixel_width(children: Seq<VideoTag>) -> Option<u32> {
    lists::last_of(
        children,
        |c: VideoTag|
            match c {
                VideoTag::PixelWidth(w) => Some(num::low32(w)),
                _ => None,
            },
    )
}

/// The height that a Video element gives.
pub open spec fn pixel_height(children: Seq<VideoTag>) -> Option<u32> {
    lists::last_of(
        children,
        |c: VideoTag|
            match c {
                VideoTag::PixelHeight(h) => Some(num::low32(h)),
                _ => None,
            },
    )
}

/// The sample rate that an Audio element gives.
pub open spec fn sampling_frequency(children: Seq<AudioTag>) -> Option<u32> {
    lists::last_of(
        children,
        |c: AudioTag|
            match c {
                AudioTag::SamplingFrequency(rate) => Some(rate),
                _ => None,
            },
    )
}

/// The number of channels that an Audio element gives.
pub open spec fn channel_count(children: Seq<AudioTag>) -> Option<u64> {
    lists::last_of(
        children,
        |c: AudioTag|
            match c {
                AudioTag::Channels(n) => Some(n),
                _ => None,
            },
    )
}

/// The width that the Video elements of a TrackEntry give.
pub open spec fn given_width(children: Seq<TrackTagView>) -> Option<u32> {
    lists::last_of(
        children,
        |c: TrackTagView|
            match c {
                TrackTagView::Video(video) => pixel_width(video),
                _ => None,
            },
    )
}

/// The height that the Video elements of a TrackEntry give.
pub open spec fn given_height(children: Seq<TrackTagView>) -> Option<u32> {
    lists::last_of(
        children,
        |c: TrackTagView|
            match c {
                TrackTagView::Video(video) => pixel_height(video),
                _ => None,
            },
    )
}

/// The sample rate that the Audio elements of a TrackEntry give.
pub open spec fn given_rate(children: Seq<TrackTagView>) -> Option<u32> {
    lists::last_of(
        children,
        |c: TrackTagView|
            match c {
                TrackTagView::Audio(audio) => sampling_frequency(audio),
                _ => None,
            },
    )
}

/// The number of channels that the Audio elements of a TrackEntry give.
pub open spec fn given_channels(children: Seq<TrackTagView>) -> Option<u64> {
    lists::last_of(
        children,
        |c: TrackTagView|
            match c {
                TrackTagView::Audio(audio) => channel_count(audio),
                _ => None,
            },
    )
}

/// What a reader knows of its stream.
pub struct ReaderView {
    pub info: TrackInfoView,
    pub video_track: Option<u64>,
    pub audio_track: Option<u64>,
    pub cluster_ms: i64,
    pub header_parsed: bool,
}

/// What a reader knows once it has seen a TrackEntry. The last child of a
/// kind counts.
pub open spec fn with_track_entry(r: ReaderView, children: Seq<TrackTagView>) -> Result<
    ReaderView,
    MkvReadError,
> {
    match (given_number(children), given_type(children)) {
        (None, _) => Err(MkvReadError::MissingTrackNumber),
        (_, None) => Err(MkvReadError::MissingTrackType),
        (Some(number), Some(kind)) => Ok(
            if kind == 1 {
                ReaderView {
                    video_track: Some(number),
                    info: TrackInfoView {
                        video_codec_id: lists::or_else(given_codec(children), Seq::empty()),
                        video_width: lists::or_else(given_width(children), 0),
                        video_height: lists::or_else(given_height(children), 0),
                        ..r.info
                    },
                    ..r
                }
            } else if kind == 2 {
                ReaderView {
                    audio_track: Some(number),
                    info: TrackInfoView {
                        audio_codec_id: lists::or_else(given_codec(children), Seq::empty()),
                        audio_sample_rate: lists::or_else(
                            given_rate(children),
                            DEFAULT_SAMPLE_RATE,
                        ),
                        audio_channels: num::low32(
                            lists::or_else(given_channels(children), DEFAULT_CHANNELS),
                        ),
                        ..r.info
                    },
                    ..r
                }
            } else {
                r
            },
        ),
    }
}

/// What a reader knows once it has seen a tag of the header.
pub open spec fn with_header_tag(r: ReaderView, tag: TagView) -> Result<ReaderView, MkvReadError> {
    match tag {
        TagView::TimestampScale(scale) => Ok(
            ReaderView { info: TrackInfoView { timecode_scale: scale, ..r.info }, ..r },
        ),
        TagView::TrackEntry(children) => with_track_entry(r, children),
        TagView::ClusterStart => Ok(ReaderView { header_parsed: true, ..r }),
        _ => Ok(r),
    }
}

/// Whether the header of a stream that has come to its end, or to its first
/// Cluster, is complete: it must have had a Cluster.
pub open spec fn header_end(r: ReaderView) -> Result<(), MkvReadError> {
    if r.header_parsed {
        Ok(())
    } else {
        Err(MkvReadError::NoCluster)
    }
}

/// A Cluster's timestamp in milliseconds, from ticks of `scale` nanoseconds.
pub open spec fn cluster_time(ticks: u64, scale: u64) -> int {
    num::quotient(num::as_signed(ticks) * num::as_signed(scale), 1_000_000)
}

/// Two bytes as a signed number, most significant byte first.
pub open spec fn i16_value(high: u8, low: u8) -> int {
    let v = high * 256 + low;
    if v >= 0x8000 {
        v - 0x1_0000
    } else {
        v
    }
}

/// The absolute timestamp of a block whose header starts with a VINT of
/// `size` bytes.
pub open spec fn block_time(cluster_ms: i64, data: Seq<u8>, size: nat) -> int {
    cluster_ms + i16_value(data[size as int], data[size as int + 1])
}

/// The frame in the SimpleBlock `data`. A block of another track holds none.
pub open spec fn block_frame(r: ReaderView, data: Seq<u8>) -> Result<
    Option<FrameView>,
    MkvReadError,
> {
    if data.len() < 4 {
        Err(MkvReadError::BlockTooShort(data.len() as usize))
    } else {
        match ebml::vint_at(data) {
            Err(e) => Err(MkvReadError::Vint(e)),
            Ok((track, size)) => {
                let frame = data.skip(size as int + 3);
                let time = block_time(r.cluster_ms, data, size) as i64;
                if r.video_track is Some && r.video_track->0 == track {
                    Ok(
                        Some(
                            FrameView::Video {
                                data: frame,
                                timestamp_ms: time,
                                is_keyframe: data[size as int + 2] >= 0x80,
                            },
                        ),
                    )
                } else if r.audio_track is Some && r.audio_track->0 == track {
                    Ok(Some(FrameView::Audio { data: frame, timestamp_ms: time }))
                } else {
                    Ok(None)
                }
            },
        }
    }
}

/// Whether the header of the SimpleBlock `data` is complete and its timestamp
/// fits, where its track number can be read.
pub open spec fn block_readable(r: ReaderView, data: Seq<u8>) -> bool {
    data.len() < 4 || match ebml::vint_at(data) {
        Err(_) => true,
        Ok((_, size)) => size + 3 <= data.len() && num::fits_i64(
            block_time(r.cluster_ms, data, size),
        ),
    }
}

/// Whether the numbers in a tag are small enough to be read.
pub open spec fn tag_readable(r: ReaderView, tag: TagView) -> bool {
    match tag {
        TagView::Timestamp(ticks) => num::fits_i64(
            num::as_signed(ticks) * num::as_signed(r.info.timecode_scale),
        ),
        TagView::SimpleBlock(data) => block_readable(r, data),
        _ => true,
    }
}

/// The frame that a tag behind the header gives. Most give none, and neither
/// does a block of another track.
pub open spec fn tag_frame(r: ReaderView, tag: TagView) -> Result<
    Option<FrameView>,
    MkvReadError,
> {
    match tag {
        TagView::SimpleBlock(data) => block_frame(r, data),
        _ => Ok(None),
    }
}

/// What a reader knows once it has seen a tag behind the header.
pub open spec fn with_tag(r: ReaderView, tag: TagView) -> ReaderView {
    match tag {
        TagView::Timestamp(ticks) => ReaderView {
            cluster_ms: cluster_time(ticks, r.info.timecode_scale) as i64,
            ..r
        },
        _ => r,
    }
}

/// Two bytes as a signed number, most significant byte first.
fn decode_i16(high: u8, low: u8) -> (r: i64)
    ensures
        r == i16_value(high, low),
{
    let v: i64 = high as i64 * 256 + low as i64;
    if v >= 0x8000 {
        v - 0x1_0000
    } else {
        v
    }
}

/// The width and the height that a Video element gives.
fn read_video_tags(children: &[VideoTag]) -> (r: (Option<u32>, Option<u32>))
    ensures
        r.0 == pixel_width(children@),
        r.1 == pixel_height(children@),
{
    let mut width: Option<u32> = None;
    let mut height: Option<u32> = None;
    let mut i: usize = 0;
    while i < children.len()
        invariant
            i <= children@.len(),
            width == pixel_width(children@.take(i as int)),
            height == pixel_height(children@.take(i as int)),
        decreases children@.len() - i,
    {
        assert(children@.take(i + 1).drop_last() =~= children@.take(i as int));
        match &children[i] {
            VideoTag::PixelWidth(w) => {
                width = Some(to_low32(*w));
            },
            VideoTag::PixelHeight(h) => {
                height = Some(to_low32(*h));
            },
            VideoTag::Other => {},
        }
        i += 1;
    }
    assert(children@.take(i as int) =~= children@);
    (width, height)
}

/// The sample rate and the number of channels that an Audio element gives.
fn read_audio_tags(children: &[AudioTag]) -> (r: (Option<u32>, Option<u64>))
    ensures
        r.0 == sampling_frequency(children@),
        r.1 == channel_count(children@),
{
    let mut rate: Option<u32> = None;
    let mut channels: Option<u64> = None;
    let mut i: usize = 0;
    while i < children.len()
        invariant
            i <= children@.len(),
            rate == sampling_frequency(children@.take(i as int)),
            channels == channel_count(children@.take(i as int)),
        decreases children@.len() - i,
    {
        assert(children@.take(i + 1).drop_last() =~= children@.take(i as int));
        match &children[i] {
            AudioTag::SamplingFrequency(hz) => {
                rate = Some(*hz);
            },
            AudioTag::Channels(n) => {
                channels = Some(*n);
            },
            AudioTag::Other => {},
        }
        i += 1;
    }
    assert(children@.take(i as int) =~= children@);
    (rate, channels)
}

/// What a tag behind the header gives.
#[derive(Debug)]
pub enum ReadStep {
    /// No frame: read on.
    Continue,
    /// The frame of a block.
    Frame(MkvFrame),
}

/// MKV stream reader
pub struct MkvReader {
    pub track_info: MkvTrackInfo,
    pub video_track_num: Option<u64>,
    pub audio_track_num: Option<u64>,
    pub current_cluster_timestamp: i64,
    pub header_parsed: bool,
}

impl View for MkvReader {
    type V = ReaderView;

    open spec fn view(&self) -> ReaderView {
        ReaderView {
            info: self.track_info@,
            video_track: self.video_track_num,
            audio_track: self.audio_track_num,
            cluster_ms: self.current_cluster_timestamp,
            header_parsed: self.header_parsed,
        }
    }
}

/// A reader at the start of its stream.
pub open spec fn fresh_reader() -> ReaderView {
    ReaderView {
        info: TrackInfoView { timecode_scale: DEFAULT_TIMECODE_SCALE, ..no_tracks() },
        video_track: None,
        audio_track: None,
        cluster_ms: 0,
        header_parsed: false,
    }
}

impl MkvReader {
    /// A reader at the start of its stream. Ticks are milliseconds until the
    /// stream says otherwise.
    pub fn new() -> (r: Self)
        ensures
            r@ == fresh_reader(),
    {
        let mut track_info = MkvTrackInfo::default();
        track_info.timecode_scale = DEFAULT_TIMECODE_SCALE;
        Self {
            track_info,
            video_track_num: None,
            audio_track_num: None,
            current_cluster_timestamp: 0,
            header_parsed: false,
        }
    }

    /// Track information
    pub fn track_info(&self) -> (r: &MkvTrackInfo)
        ensures
            *r == self.track_info,
    {
        &self.track_info
    }

    /// Take the next tag of the header. `Ok(true)` says that the header is
    /// over: the first Cluster has begun.
    pub fn parse_header(&mut self, tag: &MkvTag) -> (r: Result<bool, MkvReadError>)
        ensures
            match with_header_tag(old(self)@, tag@) {
                Ok(next) => r == Ok::<bool, MkvReadError>(tag is ClusterStart) && final(self)@
                    == next,
                Err(e) => r == Err::<bool, MkvReadError>(e) && final(self)@ == old(self)@,
            },
    {
        match tag {
            MkvTag::TimestampScale(scale) => {
                self.track_info.timecode_scale = *scale;
                Ok(false)
            },
            MkvTag::TrackEntry(children) => {
                self.parse_track_entry(children.as_slice())?;
                Ok(false)
            },
            MkvTag::ClusterStart => {
                self.header_parsed = true;
                Ok(true)
            },
            _ => Ok(false),
        }
    }

    /// The stream is over, or its header is: it must have had a Cluster.
    pub fn finish_header(&self) -> (r: Result<(), MkvReadError>)
        ensures
            r == header_end(self@),
    {
        if !self.header_parsed {
            return Err(MkvReadError::NoCluster);
        }
        Ok(())
    }

    /// Take over the track that a TrackEntry describes.
    pub fn parse_track_entry(&mut self, children: &[TrackTag]) -> (r: Result<(), MkvReadError>)
        ensures
            match with_track_entry(old(self)@, track_views(children@)) {
                Ok(next) => r is Ok && final(self)@ == next,
                Err(e) => r == Err::<(), MkvReadError>(e) && final(self)@ == old(self)@,
            },
    {
        let mut track_number: Option<u64> = None;
        let mut track_type: Option<u64> = None;
        let mut codec_id: Option<String> = None;
        let mut video_width: Option<u32> = None;
        let mut video_height: Option<u32> = None;
        let mut audio_sample_rate: Option<u32> = None;
        let mut audio_channels: Option<u64> = None;

        let ghost views = track_views(children@);
        let mut i: usize = 0;
        while i < children.len()
            invariant
                i <= children@.len(),
                views == track_views(children@),
                track_number == given_number(views.take(i as int)),
                track_type == given_type(views.take(i as int)),
                codec_id is Some == given_codec(views.take(i as int)) is Some,
                codec_id is Some ==> codec_id->0@ == given_codec(views.take(i as int))->0,
                video_width == given_width(views.take(i as int)),
                video_height == given_height(views.take(i as int)),
                audio_sample_rate == given_rate(views.take(i as int)),
                audio_channels == given_channels(views.take(i as int)),
            decreases children@.len() - i,
        {
            assert(views.take(i + 1).drop_last() =~= views.take(i as int));
            assert(views.take(i + 1).last() == children@[i as int]@);
            match &children[i] {
                TrackTag::TrackNumber(number) => {
                    track_number = Some(*number);
                },
                TrackTag::TrackType(kind) => {
                    track_type = Some(*kind);
                },
                TrackTag::CodecID(id) => {
                    codec_id = Some(id.clone());
                },
                TrackTag::Video(video) => {
                    let (width, height) = read_video_tags(video.as_slice());
                    if width.is_some() {
                        video_width = width;
                    }
                    if height.is_some() {
                        video_height = height;
                    }
                },
                TrackTag::Audio(audio) => {
                    let (rate, channels) = read_audio_tags(audio.as_slice());
                    if rate.is_some() {
                        audio_sample_rate = rate;
                    }
                    if channels.is_some() {
                        audio_channels = channels;
                    }
                },
                TrackTag::Other => {},
            }
            i += 1;
        }
        assert(views.take(i as int) =~= views);

        let number = match track_number {
            Some(number) => number,
            None => return Err(MkvReadError::MissingTrackNumber),
        };
        let kind = match track_type {
            Some(kind) => kind,
            None => return Err(MkvReadError::MissingTrackType),
        };
        let codec = match codec_id {
            Some(id) => id,
            None => String::new(),
        };
        assert(codec@ =~= lists::or_else(given_codec(views), Seq::empty()));

        // TrackType: 1 = video, 2 = audio
        if kind == 1 {
            self.video_track_num = Some(number);
            self.track_info.video_codec_id = codec;
            self.track_info.video_width = match video_width {
                Some(width) => width,
                None => 0,
            };
            self.track_info.video_height = match video_height {
                Some(height) => height,
                None => 0,
            };
        } else if kind == 2 {
            self.audio_track_num = Some(number);
            self.track_info.audio_codec_id = codec;
            self.track_info.audio_sample_rate = match audio_sample_rate {
                Some(rate) => rate,
                None => DEFAULT_SAMPLE_RATE,
            };
            let channels = match audio_channels {
                Some(channels) => channels,
                None => DEFAULT_CHANNELS,
            };
            self.track_info.audio_channels = to_low32(channels);
        }
        Ok(())
    }

    /// Take the next tag behind the header. A block of a track that is neither
    /// the video nor the audio track is passed over, as are other tags.
    pub fn read_frame(&mut self, tag: &MkvTag) -> (r: Result<ReadStep, MkvReadError>)
        requires
            tag_readable(old(self)@, tag@),
        ensures
            final(self)@ == with_tag(old(self)@, tag@),
            match tag_frame(old(self)@, tag@) {
                Err(e) => r == Err::<ReadStep, MkvReadError>(e),
                Ok(None) => r == Ok::<ReadStep, MkvReadError>(ReadStep::Continue),
                Ok(Some(frame)) => r matches Ok(ReadStep::Frame(f)) && f@ == frame,
            },
    {
        match tag {
            MkvTag::Timestamp(ticks) => {
                let ticks_signed = to_signed(*ticks);
                let scale_signed = to_signed(self.track_info.timecode_scale);
                let ns: i64 = ticks_signed * scale_signed;
                self.current_cluster_timestamp = div_toward_zero(ns, 1_000_000);
                Ok(ReadStep::Continue)
            },
            MkvTag::SimpleBlock(data) => {
                match self.parse_simple_block(data.as_slice())? {
                    Some(frame) => Ok(ReadStep::Frame(frame)),
                    // Unknown track, skip
                    None => Ok(ReadStep::Continue),
                }
            },
            _ => Ok(ReadStep::Continue),
        }
    }

    /// Whether a tag can be taken by `read_frame`.
    pub fn can_read(&self, tag: &MkvTag) -> (r: bool)
        ensures
            r == tag_readable(self@, tag@),
    {
        match tag {
            MkvTag::Timestamp(ticks) => {
                let ticks_signed = to_signed(*ticks);
                let scale_signed = to_signed(self.track_info.timecode_scale);
                ticks_signed.checked_mul(scale_signed).is_some()
            },
            MkvTag::SimpleBlock(data) => {
                if data.len() < 4 {
                    return true;
                }
                match parse_vint(data.as_slice()) {
                    Err(_) => true,
                    Ok((_, size)) => {
                        if size > data.len() - 3 {
                            false
                        } else {
                            let relative_ts = decode_i16(data[size], data[size + 1]);
                            self.current_cluster_timestamp.checked_add(relative_ts).is_some()
                        }
                    },
                }
            },
            _ => true,
        }
    }

    /// The frame in a SimpleBlock.
    pub fn parse_simple_block(&self, data: &[u8]) -> (r: Result<Option<MkvFrame>, MkvReadError>)
        requires
            block_readable(self@, data@),
        ensures
            match block_frame(self@, data@) {
                Err(e) => r == Err::<Option<MkvFrame>, MkvReadError>(e),
                Ok(None) => r == Ok::<Option<MkvFrame>, MkvReadError>(None),
                Ok(Some(frame)) => r matches Ok(Some(f)) && f@ == frame,
            },
    {
        if data.len() < 4 {
            return Err(MkvReadError::BlockTooShort(data.len()));
        }
        let (track_num, vint_size) = match parse_vint(data) {
            Ok(v) => v,
            Err(e) => return Err(MkvReadError::Vint(e)),
        };
        let relative_ts = decode_i16(data[vint_size], data[vint_size + 1]);
        let flags = data[vint_size + 2];
        let is_keyframe = flags >= 0x80;
        let frame_data = vstd::slice::slice_to_vec(&data[vint_size + 3..data.len()]);
        assert(frame_data@ =~= data@.skip(vint_size as int + 3));
        let timestamp_ms: i64 = self.current_cluster_timestamp + relative_ts;

        if let Some(number) = self.video_track_num {
            if number == track_num {
                return Ok(Some(MkvFrame::Video { data: frame_data, timestamp_ms, is_keyframe }));
            }
        }
        if let Some(number) = self.audio_track_num {
            if number == track_num {
                return Ok(Some(MkvFrame::Audio { data: frame_data, timestamp_ms }));
            }
        }
        Ok(None)
    }
}

/// The last Channels element among the children of an Audio element gives the
/// number of channels, and the last SamplingFrequency the sample rate, whatever
/// else stands before or behind them.
pub proof fn audio_settings_in_any_order(children: Seq<AudioTag>, i: int)
    requires
        0 <= i < children.len(),
    ensures
        children[i] matches AudioTag::Channels(n) ==> (forall|j: int|
            i < j < children.len() ==> #[trigger] children[j] !is Channels) ==> channel_count(
            children,
        ) == Some(n),
        children[i] matches AudioTag::SamplingFrequency(hz) ==> (forall|j: int|
            i < j < children.len() ==> #[trigger] children[j] !is SamplingFrequency)
            ==> sampling_frequency(children) == Some(hz),
{
    if children[i] is Channels && forall|j: int|
        i < j < children.len() ==> #[trigger] children[j] !is Channels {
        lists::last_value_counts(
            children,
            |c: AudioTag|
                match c {
                    AudioTag::Channels(n) => Some(n),
                    _ => None,
                },
            i,
        );
    }
    if children[i] is SamplingFrequency && forall|j: int|
        i < j < children.len() ==> #[trigger] children[j] !is SamplingFrequency {
        lists::last_value_counts(
            children,
            |c: AudioTag|
                match c {
                    AudioTag::SamplingFrequency(rate) => Some(rate),
                    _ => None,
                },
            i,
        );
    }
}

/// An Audio element without a Channels element gives no number of channels, and
/// one without a SamplingFrequency no sample rate.
pub proof fn audio_settings_may_be_missing(children: Seq<AudioTag>)
    ensures
        (forall|j: int| 0 <= j < children.len() ==> #[trigger] children[j] !is Channels)
            ==> channel_count(children) is None,
        (forall|j: int| 0 <= j < children.len() ==> #[trigger] children[j] !is SamplingFrequency)
            ==> sampling_frequency(children) is None,
{
    if forall|j: int| 0 <= j < children.len() ==> #[trigger] children[j] !is Channels {
        lists::no_value_gives_none(
            children,
            |c: AudioTag|
                match c {
                    AudioTag::Channels(n) => Some(n),
                    _ => None,
                },
        );
    }
    if forall|j: int| 0 <= j < children.len() ==> #[trigger] children[j] !is SamplingFrequency {
        lists::no_value_gives_none(
            children,
            |c: AudioTag|
                match c {
                    AudioTag::SamplingFrequency(rate) => Some(rate),
                    _ => None,
                },
        );
    }
}

/// The last PixelWidth and the last PixelHeight among the children of a Video
/// element give its size, modulo 32 bits, whatever else stands before or behind
/// them.
pub proof fn video_settings_in_any_order(children: Seq<VideoTag>, i: int)
    requires
        0 <= i < children.len(),
    ensures
        children[i] matches VideoTag::PixelWidth(w) ==> (forall|j: int|
            i < j < children.len() ==> #[trigger] children[j] !is PixelWidth) ==> pixel_width(
            children,
        ) == Some((w % 0x1_0000_0000) as u32),
        children[i] matches VideoTag::PixelHeight(h) ==> (forall|j: int|
            i < j < children.len() ==> #[trigger] children[j] !is PixelHeight) ==> pixel_height(
            children,
        ) == Some((h % 0x1_0000_0000) as u32),
{
    if children[i] is PixelWidth && forall|j: int|
        i < j < children.len() ==> #[trigger] children[j] !is PixelWidth {
        lists::last_value_counts(
            children,
            |c: VideoTag|
                match c {
                    VideoTag::PixelWidth(w) => Some(num::low32(w)),
                    _ => None,
                },
            i,
        );
    }
    if children[i] is PixelHeight && forall|j: int|
        i < j < children.len() ==> #[trigger] children[j] !is PixelHeight {
        lists::last_value_counts(
            children,
            |c: VideoTag|
                match c {
                    VideoTag::PixelHeight(h) => Some(num::low32(h)),
                    _ => None,
                },
            i,
        );
    }
}

/// A Video element without a PixelWidth gives no width, and one without a
/// PixelHeight no height.
pub proof fn video_settings_may_be_missing(children: Seq<VideoTag>)
    ensures
        (forall|j: int| 0 <= j < children.len() ==> #[trigger] children[j] !is PixelWidth)
            ==> pixel_width(children) is None,
        (forall|j: int| 0 <= j < children.len() ==> #[trigger] children[j] !is PixelHeight)
            ==> pixel_height(children) is None,
{
    if forall|j: int| 0 <= j < children.len() ==> #[trigger] children[j] !is PixelWidth {
        lists::no_value_gives_none(
            children,
            |c: VideoTag|
                match c {
                    VideoTag::PixelWidth(w) => Some(num::low32(w)),
                    _ => None,
                },
        );
    }
    if forall|j: int| 0 <= j < children.len() ==> #[trigger] children[j] !is PixelHeight {
        lists::no_value_gives_none(
            children,
            |c: VideoTag|
                match c {
                    VideoTag::PixelHeight(h) => Some(num::low32(h)),
                    _ => None,
                },
        );
    }
}

/// The last TrackNumber, TrackType and CodecID among the children of a
/// TrackEntry count, whatever else stands before or behind them.
pub proof fn track_settings_in_any_order(children: Seq<TrackTagView>, i: int)
    requires
        0 <= i < children.len(),
    ensures
        children[i] matches TrackTagView::TrackNumber(n) ==> (forall|j: int|
            i < j < children.len() ==> #[trigger] children[j] !is TrackNumber) ==> given_number(
            children,
        ) == Some(n),
        children[i] matches TrackTagView::TrackType(t) ==> (forall|j: int|
            i < j < children.len() ==> #[trigger] children[j] !is TrackType) ==> given_type(
            children,
        ) == Some(t),
        children[i] matches TrackTagView::CodecID(id) ==> (forall|j: int|
            i < j < children.len() ==> #[trigger] children[j] !is CodecID) ==> given_codec(
            children,
        ) == Some(id),
{
    if children[i] is TrackNumber && forall|j: int|
        i < j < children.len() ==> #[trigger] children[j] !is TrackNumber {
        lists::last_value_counts(
            children,
            |c: TrackTagView|
                match c {
                    TrackTagView::TrackNumber(n) => Some(n),
                    _ => None,
                },
            i,
        );
    }
    if children[i] is TrackType && forall|j: int|
        i < j < children.len() ==> #[trigger] children[j] !is TrackType {
        lists::last_value_counts(
            children,
            |c: TrackTagView|
                match c {
                    TrackTagView::TrackType(t) => Some(t),
                    _ => None,
                },
            i,
        );
    }
    if children[i] is CodecID && forall|j: int|
        i < j < children.len() ==> #[trigger] children[j] !is CodecID {
        lists::last_value_counts(
            children,
            |c: TrackTagView|
                match c {
                    TrackTagView::CodecID(id) => Some(id),
                    _ => None,
                },
            i,
        );
    }
}

/// A TrackEntry without a TrackNumber, TrackType or CodecID gives none.
pub proof fn track_settings_may_be_missing(children: Seq<TrackTagView>)
    ensures
        (forall|j: int| 0 <= j < children.len() ==> #[trigger] children[j] !is TrackNumber)
            ==> given_number(children) is None,
        (forall|j: int| 0 <= j < children.len() ==> #[trigger] children[j] !is TrackType)
            ==> given_type(children) is None,
        (forall|j: int| 0 <= j < children.len() ==> #[trigger] children[j] !is CodecID)
            ==> given_codec(children) is None,
{
    if forall|j: int| 0 <= j < children.len() ==> #[trigger] children[j] !is TrackNumber {
        lists::no_value_gives_none(
            children,
            |c: TrackTagView|
                match c {
                    TrackTagView::TrackNumber(n) => Some(n),
                    _ => None,
                },
        );
    }
    if forall|j: int| 0 <= j < children.len() ==> #[trigger] children[j] !is TrackType {
        lists::no_value_gives_none(
            children,
            |c: TrackTagView|
                match c {
                    TrackTagView::TrackType(t) => Some(t),
                    _ => None,
                },
        );
    }
    if forall|j: int| 0 <= j < children.len() ==> #[trigger] children[j] !is CodecID {
        lists::no_value_gives_none(
            children,
            |c: TrackTagView|
                match c {
                    TrackTagView::CodecID(id) => Some(id),
                    _ => None,
                },
        );
    }
}

/// Whether a child of a TrackEntry is an Audio element with a Channels element.
pub open spec fn tells_channels(child: TrackTagView) -> bool {
    child matches TrackTagView::Audio(audio) && exists|k: int|
        0 <= k < audio.len() && (#[trigger] audio[k]) is Channels
}

/// Whether a child of a TrackEntry is an Audio element with a SamplingFrequency.
pub open spec fn tells_rate(child: TrackTagView) -> bool {
    child matches TrackTagView::Audio(audio) && exists|k: int|
        0 <= k < audio.len() && (#[trigger] audio[k]) is SamplingFrequency
}

/// Whether a child of a TrackEntry is a Video element with a PixelWidth.
pub open spec fn tells_width(child: TrackTagView) -> bool {
    child matches TrackTagView::Video(video) && exists|k: int|
        0 <= k < video.len() && (#[trigger] video[k]) is PixelWidth
}

/// Whether a child of a TrackEntry is a Video element with a PixelHeight.
pub open spec fn tells_height(child: TrackTagView) -> bool {
    child matches TrackTagView::Video(video) && exists|k: int|
        0 <= k < video.len() && (#[trigger] video[k]) is PixelHeight
}

/// The last Audio element of a TrackEntry that has Channels gives the number of
/// channels by its last one: a later Audio element without Channels takes
/// nothing back. A TrackEntry with no such element gives none.
pub proof fn last_channels_count(children: Seq<TrackTagView>, i: int, k: int)
    ensures
        0 <= i < children.len() && (forall|j: int|
            i < j < children.len() ==> !tells_channels(#[trigger] children[j])) ==> (
        children[i] matches TrackTagView::Audio(audio) ==> 0 <= k < audio.len() ==> (forall|j: int|
            k < j < audio.len() ==> #[trigger] audio[j] !is Channels) ==> (
        audio[k] matches AudioTag::Channels(n) ==> given_channels(children) == Some(n))),
        (forall|j: int| 0 <= j < children.len() ==> !tells_channels(#[trigger] children[j]))
            ==> given_channels(children) is None,
{
    let value = |c: TrackTagView|
        match c {
            TrackTagView::Audio(audio) => channel_count(audio),
            _ => None,
        };
    assert forall|c: TrackTagView| !tells_channels(c) implies #[trigger] value(c) is None by {
        if let TrackTagView::Audio(audio) = c {
            audio_settings_may_be_missing(audio);
        }
    }
    if forall|j: int| 0 <= j < children.len() ==> !tells_channels(#[trigger] children[j]) {
        lists::no_value_gives_none(children, value);
    }
    if 0 <= i < children.len() && forall|j: int|
        i < j < children.len() ==> !tells_channels(#[trigger] children[j]) {
        if let TrackTagView::Audio(audio) = children[i] {
            if 0 <= k < audio.len() && audio[k] is Channels && forall|j: int|
                k < j < audio.len() ==> #[trigger] audio[j] !is Channels {
                audio_settings_in_any_order(audio, k);
                lists::last_value_counts(children, value, i);
            }
        }
    }
}

/// The last Audio element of a TrackEntry that has a SamplingFrequency gives the
/// sample rate by its last one: a later Audio element without takes nothing
/// back. A TrackEntry with no such element gives none.
pub proof fn last_rate_counts(children: Seq<TrackTagView>, i: int, k: int)
    ensures
        0 <= i < children.len() && (forall|j: int|
            i < j < children.len() ==> !tells_rate(#[trigger] children[j])) ==> (
        children[i] matches TrackTagView::Audio(audio) ==> 0 <= k < audio.len() ==> (forall|j: int|
            k < j < audio.len() ==> #[trigger] audio[j] !is SamplingFrequency) ==> (
        audio[k] matches AudioTag::SamplingFrequency(hz) ==> given_rate(children) == Some(hz))),
        (forall|j: int| 0 <= j < children.len() ==> !tells_rate(#[trigger] children[j]))
            ==> given_rate(children) is None,
{
    let value = |c: TrackTagView|
        match c {
            TrackTagView::Audio(audio) => sampling_frequency(audio),
            _ => None,
        };
    assert forall|c: TrackTagView| !tells_rate(c) implies #[trigger] value(c) is None by {
        if let TrackTagView::Audio(audio) = c {
            audio_settings_may_be_missing(audio);
        }
    }
    if forall|j: int| 0 <= j < children.len() ==> !tells_rate(#[trigger] children[j]) {
        lists::no_value_gives_none(children, value);
    }
    if 0 <= i < children.len() && forall|j: int|
        i < j < children.len() ==> !tells_rate(#[trigger] children[j]) {
        if let TrackTagView::Audio(audio) = children[i] {
            if 0 <= k < audio.len() && audio[k] is SamplingFrequency && forall|j: int|
                k < j < audio.len() ==> #[trigger] audio[j] !is SamplingFrequency {
                audio_settings_in_any_order(audio, k);
                lists::last_value_counts(children, value, i);
            }
        }
    }
}

/// The last Video element of a TrackEntry that has a PixelWidth gives the width
/// by its last one: a later Video element without takes nothing back. A
/// TrackEntry with no such element gives none.
pub proof fn last_width_counts(children: Seq<TrackTagView>, i: int, k: int)
    ensures
        0 <= i < children.len() && (forall|j: int|
            i < j < children.len() ==> !tells_width(#[trigger] children[j])) ==> (
        children[i] matches TrackTagView::Video(video) ==> 0 <= k < video.len() ==> (forall|j: int|
            k < j < video.len() ==> #[trigger] video[j] !is PixelWidth) ==> (
        video[k] matches VideoTag::PixelWidth(w) ==> given_width(children) == Some(
            (w % 0x1_0000_0000) as u32,
        ))),
        (forall|j: int| 0 <= j < children.len() ==> !tells_width(#[trigger] children[j]))
            ==> given_width(children) is None,
{
    let value = |c: TrackTagView|
        match c {
            TrackTagView::Video(video) => pixel_width(video),
            _ => None,
        };
    assert forall|c: TrackTagView| !tells_width(c) implies #[trigger] value(c) is None by {
        if let TrackTagView::Video(video) = c {
            video_settings_may_be_missing(video);
        }
    }
    if forall|j: int| 0 <= j < children.len() ==> !tells_width(#[trigger] children[j]) {
        lists::no_value_gives_none(children, value);
    }
    if 0 <= i < children.len() && forall|j: int|
        i < j < children.len() ==> !tells_width(#[trigger] children[j]) {
        if let TrackTagView::Video(video) = children[i] {
            if 0 <= k < video.len() && video[k] is PixelWidth && forall|j: int|
                k < j < video.len() ==> #[trigger] video[j] !is PixelWidth {
                video_settings_in_any_order(video, k);
                lists::last_value_counts(children, value, i);
            }
        }
    }
}

/// The last Video element of a TrackEntry that has a PixelHeight gives the
/// height by its last one: a later Video element without takes nothing back. A
/// TrackEntry with no such element gives none.
pub proof fn last_height_counts(children: Seq<TrackTagView>, i: int, k: int)
    ensures
        0 <= i < children.len() && (forall|j: int|
            i < j < children.len() ==> !tells_height(#[trigger] children[j])) ==> (
        children[i] matches TrackTagView::Video(video) ==> 0 <= k < video.len() ==> (forall|j: int|
            k < j < video.len() ==> #[trigger] video[j] !is PixelHeight) ==> (
        video[k] matches VideoTag::PixelHeight(h) ==> given_height(children) == Some(
            (h % 0x1_0000_0000) as u32,
        ))),
        (forall|j: int| 0 <= j < children.len() ==> !tells_height(#[trigger] children[j]))
            ==> given_height(children) is None,
{
    let value = |c: TrackTagView|
        match c {
            TrackTagView::Video(video) => pixel_height(video),
            _ => None,
        };
    assert forall|c: TrackTagView| !tells_height(c) implies #[trigger] value(c) is None by {
        if let TrackTagView::Video(video) = c {
            video_settings_may_be_missing(video);
        }
    }
    if forall|j: int| 0 <= j < children.len() ==> !tells_height(#[trigger] children[j]) {
        lists::no_value_gives_none(children, value);
    }
    if 0 <= i < children.len() && forall|j: int|
        i < j < children.len() ==> !tells_height(#[trigger] children[j]) {
        if let TrackTagView::Video(video) = children[i] {
            if 0 <= k < video.len() && video[k] is PixelHeight && forall|j: int|
                k < j < video.len() ==> #[trigger] video[j] !is PixelHeight {
                video_settings_in_any_order(video, k);
                lists::last_value_counts(children, value, i);
            }
        }
    }
}

/// A TrackEntry needs a number and a type, and is refused for the number first.
pub proof fn track_entry_needs_number_and_type(r: ReaderView, children: Seq<TrackTagView>)
    ensures
        (forall|j: int| 0 <= j < children.len() ==> #[trigger] children[j] !is TrackNumber)
            ==> with_track_entry(r, children) == Err::<ReaderView, MkvReadError>(
            MkvReadError::MissingTrackNumber,
        ),
        (exists|i: int| 0 <= i < children.len() && (#[trigger] children[i]) is TrackNumber) && (
        forall|j: int| 0 <= j < children.len() ==> #[trigger] children[j] !is TrackType)
            ==> with_track_entry(r, children) == Err::<ReaderView, MkvReadError>(
            MkvReadError::MissingTrackType,
        ),
        (exists|i: int| 0 <= i < children.len() && (#[trigger] children[i]) is TrackNumber) && (
        exists|i: int| 0 <= i < children.len() && (#[trigger] children[i]) is TrackType)
            ==> with_track_entry(r, children) is Ok,
{
    track_settings_may_be_missing(children);
    if exists|i: int| 0 <= i < children.len() && (#[trigger] children[i]) is TrackNumber {
        let i = lemma_last_number(children, children.len() as int);
        track_settings_in_any_order(children, i);
    }
    if exists|i: int| 0 <= i < children.len() && (#[trigger] children[i]) is TrackType {
        let i = lemma_last_type(children, children.len() as int);
        track_settings_in_any_order(children, i);
    }
}

proof fn lemma_last_number(children: Seq<TrackTagView>, end: int) -> (i: int)
    requires
        0 <= end <= children.len(),
        exists|i: int| 0 <= i < end && (#[trigger] children[i]) is TrackNumber,
    ensures
        0 <= i < end,
        children[i] is TrackNumber,
        forall|j: int| i < j < end ==> #[trigger] children[j] !is TrackNumber,
    decreases end,
{
    if children[end - 1] is TrackNumber {
        end - 1
    } else {
        lemma_last_number(children, end - 1)
    }
}

proof fn lemma_last_type(children: Seq<TrackTagView>, end: int) -> (i: int)
    requires
        0 <= end <= children.len(),
        exists|i: int| 0 <= i < end && (#[trigger] children[i]) is TrackType,
    ensures
        0 <= i < end,
        children[i] is TrackType,
        forall|j: int| i < j < end ==> #[trigger] children[j] !is TrackType,
    decreases end,
{
    if children[end - 1] is TrackType {
        end - 1
    } else {
        lemma_last_type(children, end - 1)
    }
}

/// What a TrackEntry of a video track (type 1) says is taken over, with nothing
/// in place of what it does not say; what is known of the audio track, and the
/// rest, stays.
pub proof fn video_entry_is_taken_over(
    r: ReaderView,
    children: Seq<TrackTagView>,
    number: u64,
    next: ReaderView,
)
    requires
        given_number(children) == Some(number),
        given_type(children) == Some(1u64),
        with_track_entry(r, children) == Ok::<ReaderView, MkvReadError>(next),
    ensures
        next.video_track == Some(number),
        given_codec(children) matches Some(id) ==> next.info.video_codec_id == id,
        given_codec(children) is None ==> next.info.video_codec_id.len() == 0,
        given_width(children) matches Some(width) ==> next.info.video_width == width,
        given_width(children) is None ==> next.info.video_width == 0,
        given_height(children) matches Some(height) ==> next.info.video_height == height,
        given_height(children) is None ==> next.info.video_height == 0,
        next.audio_track == r.audio_track,
        next.info.audio_codec_id == r.info.audio_codec_id,
        next.info.audio_sample_rate == r.info.audio_sample_rate,
        next.info.audio_channels == r.info.audio_channels,
        next.info.timecode_scale == r.info.timecode_scale,
        next.cluster_ms == r.cluster_ms,
        next.header_parsed == r.header_parsed,
{
}

/// What a TrackEntry of an audio track (type 2) says is taken over, with 48 kHz
/// and stereo in place of what it does not say; what is known of the video
/// track, and the rest, stays.
pub proof fn audio_entry_is_taken_over(
    r: ReaderView,
    children: Seq<TrackTagView>,
    number: u64,
    next: ReaderView,
)
    requires
        given_number(children) == Some(number),
        given_type(children) == Some(2u64),
        with_track_entry(r, children) == Ok::<ReaderView, MkvReadError>(next),
    ensures
        next.audio_track == Some(number),
        given_codec(children) matches Some(id) ==> next.info.audio_codec_id == id,
        given_codec(children) is None ==> next.info.audio_codec_id.len() == 0,
        given_rate(children) matches Some(hz) ==> next.info.audio_sample_rate == hz,
        given_rate(children) is None ==> next.info.audio_sample_rate == 48000,
        given_channels(children) matches Some(n) ==> next.info.audio_channels == n % 0x1_0000_0000,
        given_channels(children) is None ==> next.info.audio_channels == 2,
        next.video_track == r.video_track,
        next.info.video_codec_id == r.info.video_codec_id,
        next.info.video_width == r.info.video_width,
        next.info.video_height == r.info.video_height,
        next.info.timecode_scale == r.info.timecode_scale,
        next.cluster_ms == r.cluster_ms,
        next.header_parsed == r.header_parsed,
{
}

/// A track that is neither video nor audio changes nothing.
pub proof fn other_tracks_change_nothing(
    r: ReaderView,
    children: Seq<TrackTagView>,
    number: u64,
    kind: u64,
)
    requires
        given_number(children) == Some(number),
        given_type(children) == Some(kind),
        kind != 1,
        kind != 2,
    ensures
        with_track_entry(r, children) == Ok::<ReaderView, MkvReadError>(r),
{
}

/// A tag of the header changes what it speaks of and nothing else, and only a
/// TrackEntry is ever refused.
pub proof fn header_tags_change_what_they_speak_of(r: ReaderView, tag: TagView)
    ensures
        tag !is TrackEntry ==> (with_header_tag(r, tag) matches Ok(next) && {
            &&& next.header_parsed <==> r.header_parsed || tag is ClusterStart
            &&& tag matches TagView::TimestampScale(scale) ==> next.info.timecode_scale == scale
            &&& tag !is TimestampScale ==> next.info.timecode_scale == r.info.timecode_scale
            &&& next.video_track == r.video_track
            &&& next.audio_track == r.audio_track
            &&& next.cluster_ms == r.cluster_ms
            &&& next.info.video_width == r.info.video_width
            &&& next.info.video_height == r.info.video_height
            &&& next.info.video_codec_id == r.info.video_codec_id
            &&& next.info.audio_sample_rate == r.info.audio_sample_rate
            &&& next.info.audio_channels == r.info.audio_channels
            &&& next.info.audio_codec_id == r.info.audio_codec_id
        }),
        with_header_tag(r, tag) matches Ok(next) ==> next.header_parsed == (r.header_parsed || tag
            is ClusterStart),
        tag matches TagView::TrackEntry(children) ==> with_header_tag(r, tag) == with_track_entry(
            r,
            children,
        ),
        header_end(r) is Ok <==> r.header_parsed,
        header_end(r) matches Err(e) ==> e == MkvReadError::NoCluster,
{
}

/// A fresh reader knows no track, counts in milliseconds and is at zero.
pub proof fn fresh_reader_counts_milliseconds(ticks: u64)
    requires
        ticks <= i64::MAX,
    ensures
        fresh_reader().video_track is None,
        fresh_reader().audio_track is None,
        fresh_reader().cluster_ms == 0,
        !fresh_reader().header_parsed,
        fresh_reader().info.video_width == 0,
        fresh_reader().info.video_height == 0,
        fresh_reader().info.video_codec_id.len() == 0,
        fresh_reader().info.audio_sample_rate == 0,
        fresh_reader().info.audio_channels == 0,
        fresh_reader().info.audio_codec_id.len() == 0,
        cluster_time(ticks, fresh_reader().info.timecode_scale) == ticks,
{
    num::quotient_counts_divisors(0, ticks as int, 1_000_000);
    num::quotient_is_cut_toward_zero(0, 1_000_000);
}

/// The time of a Cluster is its ticks times the scale, in nanoseconds, cut to
/// whole milliseconds.
pub proof fn cluster_time_follows_the_scale(ticks: u64, scale: u64)
    requires
        ticks <= i64::MAX,
        scale <= i64::MAX,
    ensures
        cluster_time(ticks, scale) * 1_000_000 <= ticks * scale < (cluster_time(ticks, scale) + 1)
            * 1_000_000,
{
    assert(ticks * scale >= 0) by (nonlinear_arith);
    num::quotient_is_cut_toward_zero(ticks * scale, 1_000_000);
}

/// Times of Clusters do not go back while the ticks go on.
pub proof fn cluster_time_keeps_order(a: u64, b: u64, scale: u64)
    requires
        a <= b <= i64::MAX,
        scale <= i64::MAX,
    ensures
        cluster_time(a, scale) <= cluster_time(b, scale),
{
    assert(0 <= a * scale <= b * scale) by (nonlinear_arith)
        requires
            a <= b,
    ;
    num::quotient_keeps_order(a * scale, b * scale, 1_000_000);
}

/// A Timestamp moves the reader to its Cluster's time; no other tag behind the
/// header changes anything, and none changes what is known of the tracks.
pub proof fn only_timestamps_move_the_reader(r: ReaderView, tag: TagView)
    requires
        tag_readable(r, tag),
    ensures
        tag !is Timestamp ==> with_tag(r, tag) == r,
        tag matches TagView::Timestamp(ticks) ==> with_tag(r, tag).cluster_ms == cluster_time(
            ticks,
            r.info.timecode_scale,
        ),
        with_tag(r, tag).info == r.info,
        with_tag(r, tag).video_track == r.video_track,
        with_tag(r, tag).audio_track == r.audio_track,
        with_tag(r, tag).header_parsed == r.header_parsed,
        tag !is SimpleBlock ==> tag_frame(r, tag) == Ok::<Option<FrameView>, MkvReadError>(None),
        tag matches TagView::SimpleBlock(data) ==> tag_frame(r, tag) == block_frame(r, data),
{
    if let TagView::Timestamp(ticks) = tag {
        let ns = num::as_signed(ticks) * num::as_signed(r.info.timecode_scale);
        num::quotient_is_cut_toward_zero(ns, 1_000_000);
    }
}

/// Two bytes stand for the signed number that they are the two's complement of.
pub proof fn two_bytes_are_signed(high: u8, low: u8)
    ensures
        -0x8000 <= i16_value(high, low) <= 0x7FFF,
        i16_value(high, low) == 256 * high + low || i16_value(high, low) + 0x1_0000 == 256 * high
            + low,
{
}

/// A block holds the number of its track as a VINT, its time relative to the
/// Cluster in two bytes, a byte of flags whose top bit marks a keyframe, and the
/// frame. It is a frame of the track with that number, and of none where the
/// reader knows no such track.
pub proof fn block_holds_its_frame(
    r: ReaderView,
    track: u64,
    relative_ms: i16,
    flags: u8,
    frame: Seq<u8>,
    high: u8,
    low: u8,
)
    requires
        track < 0x100_0000_0000_0000,
        256 * high + low == relative_ms || 256 * high + low == relative_ms + 0x1_0000,
        num::fits_i64(r.cluster_ms + relative_ms),
    ensures
        ({
            let data = ebml::vint_bytes(track as nat) + seq![high, low, flags] + frame;
            &&& block_readable(r, data)
            &&& r.video_track == Some(track) ==> block_frame(r, data) == Ok::<
                Option<FrameView>,
                MkvReadError,
            >(
                Some(
                    FrameView::Video {
                        data: frame,
                        timestamp_ms: (r.cluster_ms + relative_ms) as i64,
                        is_keyframe: flags / 128 == 1,
                    },
                ),
            )
            &&& r.video_track != Some(track) && r.audio_track == Some(track) ==> block_frame(
                r,
                data,
            ) == Ok::<Option<FrameView>, MkvReadError>(
                Some(
                    FrameView::Audio {
                        data: frame,
                        timestamp_ms: (r.cluster_ms + relative_ms) as i64,
                    },
                ),
            )
            &&& r.video_track != Some(track) && r.audio_track != Some(track) ==> block_frame(
                r,
                data,
            ) == Ok::<Option<FrameView>, MkvReadError>(None)
        }),
{
    let head = ebml::vint_bytes(track as nat);
    let data = head + seq![high, low, flags] + frame;
    let rest = seq![high, low, flags] + frame;
    assert(data =~= head + rest);
    ebml::vint_read_back(track as nat, rest);
    ebml::lemma_vint_bytes_len(track as nat);
    let size = head.len();
    assert(data[size as int] == high);
    assert(data[size as int + 1] == low);
    assert(data[size as int + 2] == flags);
    assert(data.skip(size as int + 3) =~= frame);
}

/// A block of fewer than four bytes is refused with its length.
pub proof fn short_blocks_are_refused(r: ReaderView, data: Seq<u8>)
    requires
        data.len() <= usize::MAX,
    ensures
        data.len() < 4 <==> block_frame(r, data) is Err && block_frame(r, data)->Err_0
            is BlockTooShort,
        block_frame(r, data) matches Err(MkvReadError::BlockTooShort(n)) ==> n == data.len(),
        data.len() < 4 ==> block_readable(r, data),
{
}

/// Every tag can be read but a Timestamp whose nanoseconds take more than 63 bits
/// and a block that ends inside its header or whose time takes more.
pub proof fn ordinary_tags_are_readable(r: ReaderView, tag: TagView)
    ensures
        tag !is Timestamp && tag !is SimpleBlock ==> tag_readable(r, tag),
        tag matches TagView::Timestamp(ticks) ==> ticks <= i64::MAX && r.info.timecode_scale
            <= i64::MAX && ticks * r.info.timecode_scale <= i64::MAX ==> tag_readable(r, tag),
        tag matches TagView::SimpleBlock(data) ==> data.len() >= 11 && 0 <= r.cluster_ms
            <= 0x1000_0000_0000_0000 ==> tag_readable(r, tag),
{
    if let TagView::Timestamp(ticks) = tag {
        assert(ticks * r.info.timecode_scale >= 0) by (nonlinear_arith);
    }
}

} // verus!
