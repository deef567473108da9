//! MKV (Matroska) writer for streaming video and audio.
//!
//! Supports:
//! - V_UNCOMPRESSED (I420 YUV) video
//! - A_PCM/INT/LIT (PCM S16LE) audio
//!
//! Segment and Cluster have an unknown size, so that output can be streamed.

use crate::ebml;
use crate::ebml::{encode_be, encode_float64, encode_uint, encode_vint_size, encode_vint_sum, encode_vint_value};
use crate::ebml_ids;
use crate::i420;
use crate::i420::{packed_len_of, required_plane_size};
use crate::num;
use crate::num::to_unsigned;
use crate::sink;
use crate::sink::ByteSink;
use vstd::prelude::*;

verus! {

/// Track types
pub const TRACK_TYPE_VIDEO: u8 = 1;

pub const TRACK_TYPE_AUDIO: u8 = 2;

/// Track numbers
pub const VIDEO_TRACK_NUMBER: u8 = 1;

pub const AUDIO_TRACK_NUMBER: u8 = 2;

/// Cluster duration threshold in milliseconds (5 seconds)
pub const CLUSTER_DURATION_MS: i64 = 5000;

/// Nanoseconds in one tick of a timestamp (1 ms)
pub const TIMESTAMP_SCALE_NS: u64 = 1_000_000;

/// MKV configuration
#[derive(Clone, Copy, Debug, PartialEq, Eq, Structural)]
pub struct MkvConfig {
    pub video_width: u32,
    pub video_height: u32,
    pub audio_sample_rate: u32,
    pub audio_channels: u32,
}

/// What is wrong with the planes of an I420 frame.
#[derive(Clone, Copy, Debug, PartialEq, Eq, Structural)]
pub enum PlaneError {
    /// The extent of the Y plane does not fit in memory.
    YOverflow,
    /// The extent of the U plane does not fit in memory.
    UOverflow,
    /// The extent of the V plane does not fit in memory.
    VOverflow,
    /// A plane holds fewer bytes than its extent.
    TooSmall,
    /// The packed frame does not fit in memory.
    LengthOverflow,
}

impl PlaneError {
    /// The error as a message.
    pub fn message(&self) -> (r: &'static str)
        ensures
            r@ == (match *self {
                PlaneError::YOverflow => "Y plane size overflow"@,
                PlaneError::UOverflow => "U plane size overflow"@,
                PlaneError::VOverflow => "V plane size overflow"@,
                PlaneError::TooSmall => "I420 plane data is smaller than expected"@,
                PlaneError::LengthOverflow => "I420 data length overflow"@,
            }),
    {
        match self {
            PlaneError::YOverflow => "Y plane size overflow",
            PlaneError::UOverflow => "U plane size overflow",
            PlaneError::VOverflow => "V plane size overflow",
            PlaneError::TooSmall => "I420 plane data is smaller than expected",
            PlaneError::LengthOverflow => "I420 data length overflow",
        }
    }
}

/// Why a frame was not written.
#[derive(Debug, PartialEq, Eq)]
pub enum MkvError<E> {
    /// The sink failed.
    Sink(E),
    /// The frame's planes cannot be written.
    InvalidData(PlaneError),
}

/// The EBML header.
pub open spec fn ebml_header_bytes() -> Seq<u8> {
    ebml::element_bytes(
        ebml_ids::EBML@,
        ebml::element_bytes(ebml_ids::EBML_VERSION@, ebml::uint_bytes(1))
            + ebml::element_bytes(ebml_ids::EBML_READ_VERSION@, ebml::uint_bytes(1))
            + ebml::element_bytes(ebml_ids::EBML_MAX_ID_LENGTH@, ebml::uint_bytes(4))
            + ebml::element_bytes(ebml_ids::EBML_MAX_SIZE_LENGTH@, ebml::uint_bytes(8))
            + ebml::element_bytes(ebml_ids::DOC_TYPE@, ebml_ids::DOC_TYPE_MATROSKA@)
            + ebml::element_bytes(ebml_ids::DOC_TYPE_VERSION@, ebml::uint_bytes(4))
            + ebml::element_bytes(ebml_ids::DOC_TYPE_READ_VERSION@, ebml::uint_bytes(2)),
    )
}

/// The start of the Segment, whose size is unknown.
pub open spec fn segment_start_bytes() -> Seq<u8> {
    ebml_ids::SEGMENT@ + ebml_ids::UNKNOWN_SIZE@
}

/// The Info element.
pub open spec fn info_bytes() -> Seq<u8> {
    ebml::element_bytes(
        ebml_ids::INFO@,
        ebml::element_bytes(ebml_ids::TIMESTAMP_SCALE@, ebml::uint_bytes(TIMESTAMP_SCALE_NS as nat))
            + ebml::element_bytes(ebml_ids::MUXING_APP@, ebml_ids::APP_NAME@)
            + ebml::element_bytes(ebml_ids::WRITING_APP@, ebml_ids::APP_NAME@),
    )
}

/// The content of the Video element.
pub open spec fn video_settings_bytes(config: MkvConfig) -> Seq<u8> {
    ebml::element_bytes(ebml_ids::PIXEL_WIDTH@, ebml::uint_bytes(config.video_width as nat))
        + ebml::element_bytes(ebml_ids::PIXEL_HEIGHT@, ebml::uint_bytes(config.video_height as nat))
        + ebml::element_bytes(ebml_ids::COLOUR_SPACE@, ebml_ids::FOURCC_I420@)
}

/// The content of the video track's entry.
pub open spec fn video_track_bytes(config: MkvConfig) -> Seq<u8> {
    ebml::element_bytes(ebml_ids::TRACK_NUMBER@, ebml::uint_bytes(VIDEO_TRACK_NUMBER as nat))
        + ebml::element_bytes(ebml_ids::TRACK_UID@, ebml::uint_bytes(1))
        + ebml::element_bytes(ebml_ids::TRACK_TYPE@, ebml::uint_bytes(TRACK_TYPE_VIDEO as nat))
        + ebml::element_bytes(ebml_ids::CODEC_ID@, ebml_ids::CODEC_UNCOMPRESSED@)
        + ebml::element_bytes(ebml_ids::CODEC_PRIVATE@, ebml_ids::FOURCC_I420@)
        + ebml::element_bytes(ebml_ids::VIDEO@, video_settings_bytes(config))
}

/// The content of the Audio element.
pub open spec fn audio_settings_bytes(config: MkvConfig) -> Seq<u8> {
    let rate = ebml::float64_bytes(config.audio_sample_rate as nat);
    ebml::element_bytes(ebml_ids::SAMPLING_FREQUENCY@, rate)
        + ebml::element_bytes(ebml_ids::CHANNELS@, ebml::uint_bytes(config.audio_channels as nat))
        + ebml::element_bytes(ebml_ids::BIT_DEPTH@, ebml::uint_bytes(16))
}

/// The content of the audio track's entry.
pub open spec fn audio_track_bytes(config: MkvConfig) -> Seq<u8> {
    ebml::element_bytes(ebml_ids::TRACK_NUMBER@, ebml::uint_bytes(AUDIO_TRACK_NUMBER as nat))
        + ebml::element_bytes(ebml_ids::TRACK_UID@, ebml::uint_bytes(2))
        + ebml::element_bytes(ebml_ids::TRACK_TYPE@, ebml::uint_bytes(TRACK_TYPE_AUDIO as nat))
        + ebml::element_bytes(ebml_ids::CODEC_ID@, ebml_ids::CODEC_PCM@)
        + ebml::element_bytes(ebml_ids::AUDIO@, audio_settings_bytes(config))
}

/// The Tracks element: the video track, then the audio track.
pub open spec fn tracks_bytes(config: MkvConfig) -> Seq<u8> {
    ebml::element_bytes(
        ebml_ids::TRACKS@,
        ebml::element_bytes(ebml_ids::TRACK_ENTRY@, video_track_bytes(config))
            + ebml::element_bytes(ebml_ids::TRACK_ENTRY@, audio_track_bytes(config)),
    )
}

/// All that stands before the first Cluster.
pub open spec fn header_bytes(config: MkvConfig) -> Seq<u8> {
    ebml_header_bytes() + segment_start_bytes() + info_bytes() + tracks_bytes(config)
}

/// The start of a Cluster: its ID, an unknown size, its Timestamp.
pub open spec fn cluster_start_bytes(timestamp_ms: i64) -> Seq<u8> {
    ebml_ids::CLUSTER@ + ebml_ids::UNKNOWN_SIZE@ + ebml::element_bytes(
        ebml_ids::TIMESTAMP@,
        ebml::uint_bytes(num::as_unsigned(timestamp_ms)),
    )
}

/// Whether a frame at `timestamp_ms` opens a Cluster: the first one does, and
/// one that comes five seconds after the current Cluster's start or too far
/// before it for a 16-bit offset.
pub open spec fn needs_cluster(start: Option<i64>, timestamp_ms: i64) -> bool {
    match start {
        None => true,
        Some(s) => timestamp_ms - s >= CLUSTER_DURATION_MS || timestamp_ms - s < i16::MIN,
    }
}

/// The start of the Cluster that a frame at `timestamp_ms` goes into.
pub open spec fn cluster_of(start: Option<i64>, timestamp_ms: i64) -> i64 {
    if needs_cluster(start, timestamp_ms) {
        timestamp_ms
    } else {
        start->0
    }
}

/// `timestamp_ms` counted from the start of the Cluster, or from zero where
/// there is none.
pub open spec fn cluster_offset(start: Option<i64>, timestamp_ms: i64) -> int {
    match start {
        None => timestamp_ms as int,
        Some(s) => timestamp_ms - s,
    }
}

/// The number of 16 bits that is closest to `v`.
pub open spec fn clamp_i16(v: int) -> int {
    if v < i16::MIN {
        i16::MIN as int
    } else if v > i16::MAX {
        i16::MAX as int
    } else {
        v
    }
}

/// A signed number in two bytes, most significant byte first.
pub open spec fn i16_bytes(v: i16) -> Seq<u8> {
    ebml::be_bytes(
        if v < 0 {
            (v + 0x1_0000) as nat
        } else {
            v as nat
        },
        2,
    )
}

/// The flags of a SimpleBlock.
pub open spec fn block_flags(is_keyframe: bool) -> u8 {
    if is_keyframe {
        0x80
    } else {
        0x00
    }
}

/// The content of a SimpleBlock: track number, relative timestamp, flags and
/// frame.
pub open spec fn block_bytes(
    track_number: u8,
    relative_ts: i16,
    is_keyframe: bool,
    frame: Seq<u8>,
) -> Seq<u8> {
    ebml::vint_bytes(track_number as nat) + i16_bytes(relative_ts) + seq![block_flags(is_keyframe)]
        + frame
}

/// The number of bytes in front of a SimpleBlock's frame.
pub open spec fn block_header_len(track_number: u8) -> nat {
    ebml::vint_len(track_number as nat) + 3
}

/// What stands in front of the frame in a SimpleBlock whose frame has
/// `frame_len` bytes: ID, size, track number, relative timestamp and flags.
pub open spec fn block_head_bytes(
    track_number: u8,
    relative_ts: i16,
    is_keyframe: bool,
    frame_len: nat,
) -> Seq<u8> {
    ebml_ids::SIMPLE_BLOCK@ + ebml::vint_bytes(block_header_len(track_number) + frame_len)
        + ebml::vint_bytes(track_number as nat) + i16_bytes(relative_ts) + seq![
        block_flags(is_keyframe),
    ]
}

/// A SimpleBlock.
pub open spec fn simple_block_bytes(
    track_number: u8,
    relative_ts: i16,
    is_keyframe: bool,
    frame: Seq<u8>,
) -> Seq<u8> {
    ebml::element_bytes(
        ebml_ids::SIMPLE_BLOCK@,
        block_bytes(track_number, relative_ts, is_keyframe, frame),
    )
}

/// The start of a Cluster, where a frame at `timestamp_ms` opens one.
pub open spec fn cluster_prefix(start: Option<i64>, timestamp_ms: i64) -> Seq<u8> {
    if needs_cluster(start, timestamp_ms) {
        cluster_start_bytes(timestamp_ms)
    } else {
        Seq::empty()
    }
}

/// What a frame adds to the output of a writer whose Cluster began at `start`.
pub open spec fn frame_bytes(
    start: Option<i64>,
    track_number: u8,
    timestamp_ms: i64,
    is_keyframe: bool,
    frame: Seq<u8>,
) -> Seq<u8> {
    cluster_prefix(start, timestamp_ms) + simple_block_bytes(
        track_number,
        (timestamp_ms - cluster_of(start, timestamp_ms)) as i16,
        is_keyframe,
        frame,
    )
}

/// What a writer that held `before`, in a Cluster that began at `start`, may
/// hold where writing a frame broke off, and the start of its Cluster then:
/// part of the frame's Cluster start and no new Cluster, or all of that and
/// part of the frame's block.
pub open spec fn broke_off(
    before: Seq<u8>,
    start: Option<i64>,
    track_number: u8,
    timestamp_ms: i64,
    is_keyframe: bool,
    frame: Seq<u8>,
    after: Seq<u8>,
    new_start: Option<i64>,
) -> bool {
    let prefix = cluster_prefix(start, timestamp_ms);
    &&& sink::took_part(
        before,
        frame_bytes(start, track_number, timestamp_ms, is_keyframe, frame),
        after,
    )
    &&& {
        ||| new_start == start && sink::took_part(before, prefix, after)
        ||| new_start == Some(cluster_of(start, timestamp_ms)) && sink::took_part(
            before + prefix,
            simple_block_bytes(
                track_number,
                (timestamp_ms - cluster_of(start, timestamp_ms)) as i16,
                is_keyframe,
                frame,
            ),
            after,
        )
    }
}

/// Whether `timestamp_ms` can be counted from the start of the Cluster in 64
/// bits.
pub open spec fn offset_fits(start: Option<i64>, timestamp_ms: i64) -> bool {
    i64::MIN <= cluster_offset(start, timestamp_ms) <= i64::MAX
}

/// The first fault in the planes of an I420 frame, if there is one.
pub open spec fn plane_fault(
    width: u32,
    height: u32,
    y_stride: u32,
    u_stride: u32,
    v_stride: u32,
    y_len: nat,
    u_len: nat,
    v_len: nat,
) -> Option<PlaneError> {
    let y_extent = i420::plane_extent(y_stride as nat, width as nat, height as nat);
    let u_extent = i420::plane_extent(u_stride as nat, i420::chroma(width), i420::chroma(height));
    let v_extent = i420::plane_extent(v_stride as nat, i420::chroma(width), i420::chroma(height));
    if y_extent > usize::MAX {
        Some(PlaneError::YOverflow)
    } else if u_extent > usize::MAX {
        Some(PlaneError::UOverflow)
    } else if v_extent > usize::MAX {
        Some(PlaneError::VOverflow)
    } else if y_extent > y_len || u_extent > u_len || v_extent > v_len {
        Some(PlaneError::TooSmall)
    } else if i420::packed_len(width, height) > usize::MAX {
        Some(PlaneError::LengthOverflow)
    } else {
        None
    }
}

/// Write an EBML element (ID + Size + Data). The first write that fails is the
/// last one made, and its error is returned.
pub fn write_ebml_element<W: ByteSink>(writer: &mut W, id: &[u8], data: &[u8]) -> (r: Result<
    (),
    W::Error,
>)
    ensures
        r is Ok ==> final(writer).written() == old(writer).written() + ebml::element_bytes(
            id@,
            data@,
        ),
        r is Err ==> sink::took_part(
            old(writer).written(),
            ebml::element_bytes(id@, data@),
            final(writer).written(),
        ),
        old(writer).reliable() ==> r is Ok && final(writer).reliable(),
{
    let size = encode_vint_size(data.len() as u64);
    proof {
        sink::lemma_parts(old(writer).written(), id@, size@);
        sink::lemma_parts(old(writer).written(), id@ + size@, data@);
    }
    writer.write_all(id)?;
    writer.write_all(size.as_slice())?;
    writer.write_all(data)?;
    assert(final(writer).written() =~= old(writer).written() + ebml::element_bytes(id@, data@));
    Ok(())
}

/// An element at the end of `buffer`.
fn append_element(buffer: &mut Vec<u8>, id: &[u8], data: &[u8])
    ensures
        final(buffer)@ == old(buffer)@ + ebml::element_bytes(id@, data@),
{
    let _written = write_ebml_element(buffer, id, data);
}

/// A signed number in two bytes, most significant byte first.
fn encode_i16(v: i16) -> (r: Vec<u8>)
    ensures
        r@ == i16_bytes(v),
{
    let unsigned: u64 = if v < 0 {
        (v as i64 + 0x1_0000) as u64
    } else {
        v as u64
    };
    encode_be(unsigned, 2)
}

/// MKV Writer for streaming output
pub struct MkvWriter<W: ByteSink> {
    pub writer: W,
    pub config: MkvConfig,
    pub cluster_start_time: Option<i64>,
    pub header_written: bool,
}

impl<W: ByteSink> MkvWriter<W> {
    /// Whether `self` differs from `other` in what its sink holds alone.
    pub open spec fn same_but_output(&self, other: &Self) -> bool {
        &&& self.config == other.config
        &&& self.cluster_start_time == other.cluster_start_time
        &&& self.header_written == other.header_written
    }

    /// Whether `self` differs from `other` in its output and its Cluster
    /// alone.
    pub open spec fn same_setup(&self, other: &Self) -> bool {
        &&& self.config == other.config
        &&& self.header_written == other.header_written
    }

    /// Whether `self` is `before` once a frame has been written to it and
    /// passed on.
    pub open spec fn wrote_frame(
        &self,
        before: &Self,
        track_number: u8,
        timestamp_ms: i64,
        is_keyframe: bool,
        frame: Seq<u8>,
    ) -> bool {
        &&& self.writer.written() == before.writer.written() + frame_bytes(
            before.cluster_start_time,
            track_number,
            timestamp_ms,
            is_keyframe,
            frame,
        )
        &&& self.in_cluster_of(before, timestamp_ms)
        &&& self.writer.flushed()
    }

    /// Whether `self` is `before` once a video frame has been written to it.
    pub open spec fn wrote_video(
        &self,
        before: &Self,
        frame: Seq<u8>,
        timestamp_ms: i64,
        is_keyframe: bool,
    ) -> bool {
        self.wrote_frame(before, VIDEO_TRACK_NUMBER, timestamp_ms, is_keyframe, frame)
    }

    /// Whether `self` is `before` once an audio frame has been written to it.
    pub open spec fn wrote_audio(&self, before: &Self, frame: Seq<u8>, timestamp_ms: i64) -> bool {
        self.wrote_frame(before, AUDIO_TRACK_NUMBER, timestamp_ms, true, frame)
    }

    /// Whether `self` is `before` once writing a frame to it broke off.
    pub open spec fn broke_off_frame(
        &self,
        before: &Self,
        track_number: u8,
        timestamp_ms: i64,
        is_keyframe: bool,
        frame: Seq<u8>,
    ) -> bool {
        broke_off(
            before.writer.written(),
            before.cluster_start_time,
            track_number,
            timestamp_ms,
            is_keyframe,
            frame,
            self.writer.written(),
            self.cluster_start_time,
        )
    }

    /// Whether `self` is in the Cluster that a frame written to `before` goes
    /// into.
    pub open spec fn in_cluster_of(&self, before: &Self, timestamp_ms: i64) -> bool {
        self.cluster_start_time == Some(cluster_of(before.cluster_start_time, timestamp_ms))
    }

    /// Create a new MKV writer. The header goes out at once.
    pub fn new(writer: W, config: MkvConfig) -> (r: Result<Self, W::Error>)
        ensures
            r matches Ok(mkv) ==> {
                &&& mkv.writer.written() == writer.written() + header_bytes(config)
                &&& mkv.config == config
                &&& mkv.cluster_start_time is None
                &&& mkv.header_written
                &&& mkv.writer.flushed()
            },
            writer.reliable() ==> r is Ok && r->Ok_0.writer.reliable(),
    {
        let mut mkv = Self { writer, config, cluster_start_time: None, header_written: false };
        mkv.write_header()?;
        Ok(mkv)
    }

    /// Write the MKV header (EBML header, Segment, Info, Tracks).
    pub fn write_header(&mut self) -> (r: Result<(), W::Error>)
        ensures
            r is Ok ==> final(self).writer.written() == old(self).writer.written() + header_bytes(
                old(self).config,
            ) && final(self).header_written && final(self).writer.flushed(),
            r is Err ==> sink::took_part(
                old(self).writer.written(),
                header_bytes(old(self).config),
                final(self).writer.written(),
            ) && {
                ||| final(self).header_written == old(self).header_written
                ||| final(self).header_written && final(self).writer.written() == old(
                    self).writer.written() + header_bytes(old(self).config)
            },
            old(self).writer.reliable() ==> r is Ok && final(self).writer.reliable(),
            final(self).config == old(self).config,
            final(self).cluster_start_time == old(self).cluster_start_time,
    {
        proof {
            let before = self.writer.written();
            let (ebml, segment) = (ebml_header_bytes(), segment_start_bytes());
            sink::lemma_parts(before, ebml, segment);
            sink::lemma_parts(before, ebml + segment, info_bytes());
            sink::lemma_parts(before, ebml + segment + info_bytes(), tracks_bytes(self.config));
        }
        self.write_ebml_header()?;
        self.write_segment_start()?;
        self.write_info()?;
        self.write_tracks()?;
        self.header_written = true;
        self.writer.flush()?;
        assert(self.writer.written() =~= old(self).writer.written() + header_bytes(self.config));
        Ok(())
    }

    /// Write the EBML header.
    pub fn write_ebml_header(&mut self) -> (r: Result<(), W::Error>)
        ensures
            r is Ok ==> final(self).writer.written() == old(self).writer.written()
                + ebml_header_bytes(),
            r is Err ==> sink::took_part(
                old(self).writer.written(),
                ebml_header_bytes(),
                final(self).writer.written(),
            ),
            old(self).writer.reliable() ==> r is Ok && final(self).writer.reliable(),
            final(self).same_but_output(old(self)),
    {
        let mut data: Vec<u8> = Vec::new();
        append_element(&mut data, &ebml_ids::EBML_VERSION, encode_uint(1).as_slice());
        append_element(&mut data, &ebml_ids::EBML_READ_VERSION, encode_uint(1).as_slice());
        append_element(&mut data, &ebml_ids::EBML_MAX_ID_LENGTH, encode_uint(4).as_slice());
        append_element(&mut data, &ebml_ids::EBML_MAX_SIZE_LENGTH, encode_uint(8).as_slice());
        append_element(&mut data, &ebml_ids::DOC_TYPE, &ebml_ids::DOC_TYPE_MATROSKA);
        append_element(&mut data, &ebml_ids::DOC_TYPE_VERSION, encode_uint(4).as_slice());
        append_element(&mut data, &ebml_ids::DOC_TYPE_READ_VERSION, encode_uint(2).as_slice());
        proof {
            lemma_empty_front(ebml::element_bytes(ebml_ids::EBML_VERSION@, ebml::uint_bytes(1)));
        }
        write_ebml_element(&mut self.writer, &ebml_ids::EBML, data.as_slice())
    }

    /// Write the start of the Segment, with unknown size.
    pub fn write_segment_start(&mut self) -> (r: Result<(), W::Error>)
        ensures
            r is Ok ==> final(self).writer.written() == old(self).writer.written()
                + segment_start_bytes(),
            r is Err ==> sink::took_part(
                old(self).writer.written(),
                segment_start_bytes(),
                final(self).writer.written(),
            ),
            old(self).writer.reliable() ==> r is Ok && final(self).writer.reliable(),
            final(self).same_but_output(old(self)),
    {
        proof {
            sink::lemma_parts(
                old(self).writer.written(),
                ebml_ids::SEGMENT@,
                ebml_ids::UNKNOWN_SIZE@,
            );
        }
        self.writer.write_all(&ebml_ids::SEGMENT)?;
        self.writer.write_all(&ebml_ids::UNKNOWN_SIZE)?;
        assert(self.writer.written() =~= old(self).writer.written() + segment_start_bytes());
        Ok(())
    }

    /// Write the Info element.
    pub fn write_info(&mut self) -> (r: Result<(), W::Error>)
        ensures
            r is Ok ==> final(self).writer.written() == old(self).writer.written() + info_bytes(),
            r is Err ==> sink::took_part(
                old(self).writer.written(),
                info_bytes(),
                final(self).writer.written(),
            ),
            old(self).writer.reliable() ==> r is Ok && final(self).writer.reliable(),
            final(self).same_but_output(old(self)),
    {
        let mut data: Vec<u8> = Vec::new();
        let scale = encode_uint(TIMESTAMP_SCALE_NS);
        append_element(&mut data, &ebml_ids::TIMESTAMP_SCALE, scale.as_slice());
        append_element(&mut data, &ebml_ids::MUXING_APP, &ebml_ids::APP_NAME);
        append_element(&mut data, &ebml_ids::WRITING_APP, &ebml_ids::APP_NAME);
        proof {
            lemma_empty_front(ebml::element_bytes(ebml_ids::TIMESTAMP_SCALE@, scale@));
        }
        write_ebml_element(&mut self.writer, &ebml_ids::INFO, data.as_slice())
    }

    /// Write the Tracks element (Video + Audio).
    pub fn write_tracks(&mut self) -> (r: Result<(), W::Error>)
        ensures
            r is Ok ==> final(self).writer.written() == old(self).writer.written() + tracks_bytes(
                old(self).config,
            ),
            r is Err ==> sink::took_part(
                old(self).writer.written(),
                tracks_bytes(old(self).config),
                final(self).writer.written(),
            ),
            old(self).writer.reliable() ==> r is Ok && final(self).writer.reliable(),
            final(self).same_but_output(old(self)),
    {
        let mut data: Vec<u8> = Vec::new();
        let video_track = self.build_video_track()?;
        append_element(&mut data, &ebml_ids::TRACK_ENTRY, video_track.as_slice());
        let audio_track = self.build_audio_track()?;
        append_element(&mut data, &ebml_ids::TRACK_ENTRY, audio_track.as_slice());
        proof {
            lemma_empty_front(ebml::element_bytes(ebml_ids::TRACK_ENTRY@, video_track@));
        }
        write_ebml_element(&mut self.writer, &ebml_ids::TRACKS, data.as_slice())
    }

    /// The content of the video track's entry.
    pub fn build_video_track(&self) -> (r: Result<Vec<u8>, W::Error>)
        ensures
            r is Ok,
            r->Ok_0@ == video_track_bytes(self.config),
    {
        let mut video: Vec<u8> = Vec::new();
        let width = encode_uint(self.config.video_width as u64);
        append_element(&mut video, &ebml_ids::PIXEL_WIDTH, width.as_slice());
        let height = encode_uint(self.config.video_height as u64);
        append_element(&mut video, &ebml_ids::PIXEL_HEIGHT, height.as_slice());
        append_element(&mut video, &ebml_ids::COLOUR_SPACE, &ebml_ids::FOURCC_I420);
        proof {
            lemma_empty_front(ebml::element_bytes(ebml_ids::PIXEL_WIDTH@, width@));
        }

        let mut track: Vec<u8> = Vec::new();
        let number = encode_uint(VIDEO_TRACK_NUMBER as u64);
        append_element(&mut track, &ebml_ids::TRACK_NUMBER, number.as_slice());
        append_element(&mut track, &ebml_ids::TRACK_UID, encode_uint(1).as_slice());
        let kind = encode_uint(TRACK_TYPE_VIDEO as u64);
        append_element(&mut track, &ebml_ids::TRACK_TYPE, kind.as_slice());
        append_element(&mut track, &ebml_ids::CODEC_ID, &ebml_ids::CODEC_UNCOMPRESSED);
        append_element(&mut track, &ebml_ids::CODEC_PRIVATE, &ebml_ids::FOURCC_I420);
        append_element(&mut track, &ebml_ids::VIDEO, video.as_slice());
        proof {
            lemma_empty_front(ebml::element_bytes(ebml_ids::TRACK_NUMBER@, number@));
        }
        Ok(track)
    }

    /// The content of the audio track's entry.
    pub fn build_audio_track(&self) -> (r: Result<Vec<u8>, W::Error>)
        ensures
            r is Ok,
            r->Ok_0@ == audio_track_bytes(self.config),
    {
        let mut audio: Vec<u8> = Vec::new();
        let rate = encode_float64(self.config.audio_sample_rate);
        append_element(&mut audio, &ebml_ids::SAMPLING_FREQUENCY, rate.as_slice());
        let channels = encode_uint(self.config.audio_channels as u64);
        append_element(&mut audio, &ebml_ids::CHANNELS, channels.as_slice());
        append_element(&mut audio, &ebml_ids::BIT_DEPTH, encode_uint(16).as_slice());
        proof {
            lemma_empty_front(ebml::element_bytes(ebml_ids::SAMPLING_FREQUENCY@, rate@));
        }

        let mut track: Vec<u8> = Vec::new();
        let number = encode_uint(AUDIO_TRACK_NUMBER as u64);
        append_element(&mut track, &ebml_ids::TRACK_NUMBER, number.as_slice());
        append_element(&mut track, &ebml_ids::TRACK_UID, encode_uint(2).as_slice());
        let kind = encode_uint(TRACK_TYPE_AUDIO as u64);
        append_element(&mut track, &ebml_ids::TRACK_TYPE, kind.as_slice());
        append_element(&mut track, &ebml_ids::CODEC_ID, &ebml_ids::CODEC_PCM);
        append_element(&mut track, &ebml_ids::AUDIO, audio.as_slice());
        proof {
            lemma_empty_front(ebml::element_bytes(ebml_ids::TRACK_NUMBER@, number@));
        }
        Ok(track)
    }

    /// Start a new cluster.
    pub fn start_cluster(&mut self, timestamp_ms: i64) -> (r: Result<(), W::Error>)
        ensures
            r is Ok ==> final(self).writer.written() == old(self).writer.written()
                + cluster_start_bytes(timestamp_ms) && final(self).cluster_start_time == Some(
                timestamp_ms,
            ),
            r is Err ==> final(self).cluster_start_time == old(self).cluster_start_time
                && sink::took_part(
                old(self).writer.written(),
                cluster_start_bytes(timestamp_ms),
                final(self).writer.written(),
            ),
            old(self).writer.reliable() ==> r is Ok && final(self).writer.reliable(),
            final(self).same_setup(old(self)),
    {
        let timestamp = encode_uint(to_unsigned(timestamp_ms));
        proof {
            let before = self.writer.written();
            let (id, size) = (ebml_ids::CLUSTER@, ebml_ids::UNKNOWN_SIZE@);
            sink::lemma_parts(before, id, size);
            sink::lemma_parts(
                before,
                id + size,
                ebml::element_bytes(ebml_ids::TIMESTAMP@, timestamp@),
            );
        }
        self.writer.write_all(&ebml_ids::CLUSTER)?;
        self.writer.write_all(&ebml_ids::UNKNOWN_SIZE)?;
        write_ebml_element(&mut self.writer, &ebml_ids::TIMESTAMP, timestamp.as_slice())?;
        self.cluster_start_time = Some(timestamp_ms);
        assert(self.writer.written() =~= old(self).writer.written() + cluster_start_bytes(
            timestamp_ms,
        ));
        Ok(())
    }

    /// Start a new cluster where a frame at `timestamp_ms` needs one. That a
    /// frame is a keyframe is no reason for one.
    pub fn maybe_start_new_cluster(&mut self, timestamp_ms: i64, _is_keyframe: bool) -> (r: Result<
        (),
        W::Error,
    >)
        requires
            offset_fits(old(self).cluster_start_time, timestamp_ms),
        ensures
            r is Ok ==> final(self).writer.written() == old(self).writer.written() + cluster_prefix(
                old(self).cluster_start_time,
                timestamp_ms,
            ) && final(self).cluster_start_time == Some(
                cluster_of(old(self).cluster_start_time, timestamp_ms),
            ),
            r is Err ==> final(self).cluster_start_time == old(self).cluster_start_time
                && sink::took_part(
                old(self).writer.written(),
                cluster_prefix(old(self).cluster_start_time, timestamp_ms),
                final(self).writer.written(),
            ),
            old(self).writer.reliable() ==> r is Ok && final(self).writer.reliable(),
            final(self).same_setup(old(self)),
    {
        let need_new_cluster = match self.cluster_start_time {
            None => true,  // First frame
            Some(start) => {
                let elapsed: i64 = timestamp_ms - start;
                // SimpleBlock timestamp is signed int16 relative to Cluster Timestamp.
                // Start a new cluster before it overflows.
                elapsed >= CLUSTER_DURATION_MS || elapsed < i16::MIN as i64 || elapsed
                    > i16::MAX as i64
            },
        };
        if need_new_cluster {
            self.start_cluster(timestamp_ms)?;
        }
        proof {
            if !need_new_cluster {
                assert(self.writer.written() =~= old(self).writer.written() + Seq::<u8>::empty());
            }
        }
        Ok(())
    }

    /// `timestamp_ms` relative to the current cluster, clamped to 16 bits.
    pub fn relative_timestamp(&self, timestamp_ms: i64) -> (r: i16)
        requires
            offset_fits(self.cluster_start_time, timestamp_ms),
        ensures
            r == clamp_i16(cluster_offset(self.cluster_start_time, timestamp_ms)),
    {
        let cluster_start: i64 = match self.cluster_start_time {
            Some(start) => start,
            None => 0,
        };
        let relative: i64 = timestamp_ms - cluster_start;
        if relative < i16::MIN as i64 {
            i16::MIN
        } else if relative > i16::MAX as i64 {
            i16::MAX
        } else {
            relative as i16
        }
    }
}

impl<W: ByteSink> MkvWriter<W> {
    /// Write the header of a SimpleBlock whose frame has `frame_len` bytes.
    fn write_block_header(
        &mut self,
        track_number: u8,
        relative_ts: i16,
        is_keyframe: bool,
        frame_len: usize,
    ) -> (r: Result<(), W::Error>)
        ensures
            r is Ok ==> final(self).writer.written() == old(self).writer.written()
                + block_head_bytes(track_number, relative_ts, is_keyframe, frame_len as nat),
            r is Err ==> sink::took_part(
                old(self).writer.written(),
                block_head_bytes(track_number, relative_ts, is_keyframe, frame_len as nat),
                final(self).writer.written(),
            ),
            old(self).writer.reliable() ==> r is Ok && final(self).writer.reliable(),
            final(self).same_but_output(old(self)),
    {
        // [Track Number (VINT)] [Relative Timestamp (int16 BE)] [Flags] [Data]
        let track_vint = encode_vint_value(track_number as u64);
        let flags: u8 = if is_keyframe {
            0x80
        } else {
            0x00
        };
        proof {
            ebml::lemma_vint_bytes_len(track_number as nat);
        }
        let header_len: usize = track_vint.len() + 2 + 1;
        let size = encode_vint_sum(header_len as u64, frame_len as u64);
        let timestamp = encode_i16(relative_ts);
        proof {
            let before = self.writer.written();
            let id = ebml_ids::SIMPLE_BLOCK@;
            sink::lemma_parts(before, id, size@);
            sink::lemma_parts(before, id + size@, track_vint@);
            sink::lemma_parts(before, id + size@ + track_vint@, timestamp@);
            sink::lemma_parts(before, id + size@ + track_vint@ + timestamp@, seq![flags]);
        }
        self.writer.write_all(&ebml_ids::SIMPLE_BLOCK)?;
        self.writer.write_all(size.as_slice())?;
        self.writer.write_all(track_vint.as_slice())?;
        self.writer.write_all(timestamp.as_slice())?;
        let flag_bytes = [flags];
        assert(flag_bytes@ =~= seq![flags]);
        self.writer.write_all(&flag_bytes)?;
        Ok(())
    }

    /// Write a SimpleBlock.
    pub fn write_simple_block(
        &mut self,
        track_number: u8,
        relative_ts: i16,
        is_keyframe: bool,
        data: &[u8],
    ) -> (r: Result<(), W::Error>)
        ensures
            r is Ok ==> final(self).writer.written() == old(self).writer.written()
                + simple_block_bytes(track_number, relative_ts, is_keyframe, data@),
            r is Err ==> sink::took_part(
                old(self).writer.written(),
                simple_block_bytes(track_number, relative_ts, is_keyframe, data@),
                final(self).writer.written(),
            ),
            old(self).writer.reliable() ==> r is Ok && final(self).writer.reliable(),
            final(self).same_but_output(old(self)),
    {
        proof {
            lemma_block_parts(track_number, relative_ts, is_keyframe, data@);
            sink::lemma_parts(
                self.writer.written(),
                block_head_bytes(track_number, relative_ts, is_keyframe, data@.len()),
                data@,
            );
        }
        self.write_block_header(track_number, relative_ts, is_keyframe, data.len())?;
        self.writer.write_all(data)
    }

    /// Write the first `width` bytes of each of `rows` rows.
    fn write_rows(&mut self, data: &[u8], stride: usize, width: usize, rows: usize) -> (r: Result<
        (),
        W::Error,
    >)
        requires
            i420::plane_extent(stride as nat, width as nat, rows as nat) <= data@.len(),
        ensures
            r is Ok ==> final(self).writer.written() == old(self).writer.written()
                + i420::packed_rows(data@, stride as nat, width as nat, rows as nat),
            r is Err ==> sink::took_part(
                old(self).writer.written(),
                i420::packed_rows(data@, stride as nat, width as nat, rows as nat),
                final(self).writer.written(),
            ),
            old(self).writer.reliable() ==> r is Ok && final(self).writer.reliable(),
            final(self).same_but_output(old(self)),
    {
        let mut row: usize = 0;
        let data_len: usize = data.len();
        assert(self.writer.written() =~= old(self).writer.written() + i420::packed_rows(
            data@,
            stride as nat,
            width as nat,
            0,
        ));
        while row < rows
            invariant
                row <= rows,
                data_len == data@.len(),
                i420::plane_extent(stride as nat, width as nat, rows as nat) <= data_len,
                self.writer.written() == old(self).writer.written() + i420::packed_rows(
                    data@,
                    stride as nat,
                    width as nat,
                    row as nat,
                ),
                old(self).writer.reliable() ==> self.writer.reliable(),
                self.same_but_output(old(self)),
            decreases rows - row,
        {
            proof {
                i420::lemma_row_in_plane(stride as nat, width as nat, rows as nat, row as nat);
            }
            let start: usize = row * stride;
            let end: usize = start + width;
            proof {
                lemma_rows_broke_off(
                    old(self).writer.written(),
                    data@,
                    stride as nat,
                    width as nat,
                    row as nat,
                    rows as nat,
                );
            }
            self.writer.write_all(&data[start..end])?;
            row += 1;
            assert(self.writer.written() =~= old(self).writer.written() + i420::packed_rows(
                data@,
                stride as nat,
                width as nat,
                row as nat,
            ));
        }
        Ok(())
    }

    /// Write a SimpleBlock of I420 planes, which are not repacked first.
    /// Planes that cannot be written leave the output as it is.
    #[verifier::spinoff_prover]
    #[verifier::rlimit(30)]
    pub fn write_simple_block_i420(
        &mut self,
        track_number: u8,
        relative_ts: i16,
        is_keyframe: bool,
        width: u32,
        height: u32,
        y_stride: u32,
        u_stride: u32,
        v_stride: u32,
        y_data: &[u8],
        u_data: &[u8],
        v_data: &[u8],
    ) -> (r: Result<(), MkvError<W::Error>>)
        ensures
            match plane_fault(
                width,
                height,
                y_stride,
                u_stride,
                v_stride,
                y_data@.len(),
                u_data@.len(),
                v_data@.len(),
            ) {
                Some(fault) => r == Err::<(), MkvError<W::Error>>(MkvError::InvalidData(fault))
                    && *final(self) == *old(self),
                None => {
                    &&& r is Ok ==> final(self).writer.written() == old(self).writer.written()
                        + simple_block_bytes(
                        track_number,
                        relative_ts,
                        is_keyframe,
                        i420::packed_i420(
                            width,
                            height,
                            y_stride,
                            u_stride,
                            v_stride,
                            y_data@,
                            u_data@,
                            v_data@,
                        ),
                    )
                    &&& r is Err ==> r->Err_0 is Sink && sink::took_part(
                        old(self).writer.written(),
                        simple_block_bytes(
                            track_number,
                            relative_ts,
                            is_keyframe,
                            i420::packed_i420(
                                width,
                                height,
                                y_stride,
                                u_stride,
                                v_stride,
                                y_data@,
                                u_data@,
                                v_data@,
                            ),
                        ),
                        final(self).writer.written(),
                    )
                    &&& old(self).writer.reliable() ==> r is Ok
                },
            },
            old(self).writer.reliable() ==> final(self).writer.reliable(),
            final(self).same_but_output(old(self)),
    {
        let w = width as usize;
        let h = height as usize;
        let y_stride_bytes = y_stride as usize;
        let u_stride_bytes = u_stride as usize;
        let v_stride_bytes = v_stride as usize;
        let uv_w: usize = w / 2 + w % 2;
        let uv_h: usize = h / 2 + h % 2;

        let y_required = match required_plane_size(y_stride_bytes, w, h) {
            Some(n) => n,
            None => return Err(MkvError::InvalidData(PlaneError::YOverflow)),
        };
        let u_required = match required_plane_size(u_stride_bytes, uv_w, uv_h) {
            Some(n) => n,
            None => return Err(MkvError::InvalidData(PlaneError::UOverflow)),
        };
        let v_required = match required_plane_size(v_stride_bytes, uv_w, uv_h) {
            Some(n) => n,
            None => return Err(MkvError::InvalidData(PlaneError::VOverflow)),
        };
        if y_required > y_data.len() || u_required > u_data.len() || v_required > v_data.len() {
            return Err(MkvError::InvalidData(PlaneError::TooSmall));
        }
        let data_len = match packed_len_of(width, height) {
            Some(n) => n,
            None => return Err(MkvError::InvalidData(PlaneError::LengthOverflow)),
        };
        let ghost y = i420::packed_rows(y_data@, y_stride as nat, width as nat, height as nat);
        let ghost cw = i420::chroma(width);
        let ghost ch = i420::chroma(height);
        let ghost u = i420::packed_rows(u_data@, u_stride as nat, cw, ch);
        let ghost v = i420::packed_rows(v_data@, v_stride as nat, cw, ch);
        proof {
            i420::lemma_packed_rows_len(y_data@, y_stride as nat, width as nat, height as nat);
            i420::lemma_packed_rows_len(u_data@, u_stride as nat, cw, ch);
            i420::lemma_packed_rows_len(v_data@, v_stride as nat, cw, ch);
            lemma_block_parts(track_number, relative_ts, is_keyframe, y + u + v);
            let before = self.writer.written();
            let head = block_head_bytes(track_number, relative_ts, is_keyframe, data_len as nat);
            sink::lemma_parts(before, head, y);
            sink::lemma_parts(before, head + y, u);
            sink::lemma_parts(before, head + y + u, v);
            assert(head + y + u + v =~= head + (y + u + v));
        }

        match self.write_block_header(track_number, relative_ts, is_keyframe, data_len) {
            Ok(()) => {},
            Err(e) => return Err(MkvError::Sink(e)),
        }
        match self.write_rows(y_data, y_stride_bytes, w, h) {
            Ok(()) => {},
            Err(e) => return Err(MkvError::Sink(e)),
        }
        match self.write_rows(u_data, u_stride_bytes, uv_w, uv_h) {
            Ok(()) => {},
            Err(e) => return Err(MkvError::Sink(e)),
        }
        match self.write_rows(v_data, v_stride_bytes, uv_w, uv_h) {
            Ok(()) => {},
            Err(e) => return Err(MkvError::Sink(e)),
        }
        Ok(())
    }

    /// Write a video frame.
    pub fn write_video_frame(&mut self, frame: &[u8], timestamp_ms: i64, is_keyframe: bool) -> (r:
        Result<(), W::Error>)
        requires
            offset_fits(old(self).cluster_start_time, timestamp_ms),
        ensures
            r is Ok ==> final(self).wrote_frame(
                old(self),
                VIDEO_TRACK_NUMBER,
                timestamp_ms,
                is_keyframe,
                frame@,
            ),
            r is Ok ==> final(self).wrote_video(old(self), frame@, timestamp_ms, is_keyframe),
            r is Err ==> final(self).broke_off_frame(
                old(self),
                VIDEO_TRACK_NUMBER,
                timestamp_ms,
                is_keyframe,
                frame@,
            ),
            old(self).writer.reliable() ==> r is Ok && final(self).writer.reliable(),
            final(self).same_setup(old(self)),
    {
        proof {
            lemma_frame_parts(
                self.writer.written(),
                self.cluster_start_time,
                VIDEO_TRACK_NUMBER,
                timestamp_ms,
                is_keyframe,
                frame@,
            );
        }
        self.maybe_start_new_cluster(timestamp_ms, is_keyframe)?;
        let relative_ts = self.relative_timestamp(timestamp_ms);
        self.write_simple_block(VIDEO_TRACK_NUMBER, relative_ts, is_keyframe, frame)?;
        self.writer.flush()?;
        assert(self.writer.written() =~= old(self).writer.written() + frame_bytes(
            old(self).cluster_start_time,
            VIDEO_TRACK_NUMBER,
            timestamp_ms,
            is_keyframe,
            frame@,
        ));
        Ok(())
    }

    /// Write a video frame from I420 planes without repacking into a
    /// contiguous buffer. The cluster that the frame needs is started before
    /// the planes are looked at.
    pub fn write_video_frame_i420(
        &mut self,
        width: u32,
        height: u32,
        y_stride: u32,
        u_stride: u32,
        v_stride: u32,
        y_data: &[u8],
        u_data: &[u8],
        v_data: &[u8],
        timestamp_ms: i64,
        is_keyframe: bool,
    ) -> (r: Result<(), MkvError<W::Error>>)
        requires
            offset_fits(old(self).cluster_start_time, timestamp_ms),
        ensures
            match plane_fault(
                width,
                height,
                y_stride,
                u_stride,
                v_stride,
                y_data@.len(),
                u_data@.len(),
                v_data@.len(),
            ) {
                Some(fault) => {
                    &&& r is Err
                    &&& r->Err_0 matches MkvError::InvalidData(e) ==> {
                        &&& e == fault
                        &&& final(self).writer.written() == old(self).writer.written()
                            + cluster_prefix(old(self).cluster_start_time, timestamp_ms)
                        &&& final(self).in_cluster_of(old(self), timestamp_ms)
                    }
                    &&& r->Err_0 is Sink ==> {
                        &&& sink::took_part(
                            old(self).writer.written(),
                            cluster_prefix(old(self).cluster_start_time, timestamp_ms),
                            final(self).writer.written(),
                        )
                        &&& final(self).cluster_start_time == old(self).cluster_start_time
                    }
                    &&& old(self).writer.reliable() ==> r->Err_0 is InvalidData
                },
                None => {
                    &&& r is Ok ==> final(self).wrote_frame(
                        old(self),
                        VIDEO_TRACK_NUMBER,
                        timestamp_ms,
                        is_keyframe,
                        i420::packed_i420(
                            width,
                            height,
                            y_stride,
                            u_stride,
                            v_stride,
                            y_data@,
                            u_data@,
                            v_data@,
                        ),
                    )
                    &&& r is Err ==> r->Err_0 is Sink && final(self).broke_off_frame(
                        old(self),
                        VIDEO_TRACK_NUMBER,
                        timestamp_ms,
                        is_keyframe,
                        i420::packed_i420(
                            width,
                            height,
                            y_stride,
                            u_stride,
                            v_stride,
                            y_data@,
                            u_data@,
                            v_data@,
                        ),
                    )
                    &&& old(self).writer.reliable() ==> r is Ok
                },
            },
            old(self).writer.reliable() ==> final(self).writer.reliable(),
            final(self).same_setup(old(self)),
    {
        proof {
            lemma_frame_parts(
                self.writer.written(),
                self.cluster_start_time,
                VIDEO_TRACK_NUMBER,
                timestamp_ms,
                is_keyframe,
                i420::packed_i420(
                    width,
                    height,
                    y_stride,
                    u_stride,
                    v_stride,
                    y_data@,
                    u_data@,
                    v_data@,
                ),
            );
        }
        match self.maybe_start_new_cluster(timestamp_ms, is_keyframe) {
            Ok(()) => {},
            Err(e) => return Err(MkvError::Sink(e)),
        }
        let relative_ts = self.relative_timestamp(timestamp_ms);
        self.write_simple_block_i420(
            VIDEO_TRACK_NUMBER,
            relative_ts,
            is_keyframe,
            width,
            height,
            y_stride,
            u_stride,
            v_stride,
            y_data,
            u_data,
            v_data,
        )?;
        match self.writer.flush() {
            Ok(()) => {},
            Err(e) => return Err(MkvError::Sink(e)),
        }
        assert(self.writer.written() =~= old(self).writer.written() + frame_bytes(
            old(self).cluster_start_time,
            VIDEO_TRACK_NUMBER,
            timestamp_ms,
            is_keyframe,
            i420::packed_i420(
                width,
                height,
                y_stride,
                u_stride,
                v_stride,
                y_data@,
                u_data@,
                v_data@,
            ),
        ));
        Ok(())
    }

    /// Write an audio frame. Every block of PCM stands alone, so each is
    /// marked as a keyframe.
    pub fn write_audio_frame(&mut self, frame: &[u8], timestamp_ms: i64) -> (r: Result<
        (),
        W::Error,
    >)
        requires
            offset_fits(old(self).cluster_start_time, timestamp_ms),
        ensures
            r is Ok ==> final(self).wrote_frame(
                old(self),
                AUDIO_TRACK_NUMBER,
                timestamp_ms,
                true,
                frame@,
            ),
            r is Ok ==> final(self).wrote_audio(old(self), frame@, timestamp_ms),
            r is Err ==> final(self).broke_off_frame(
                old(self),
                AUDIO_TRACK_NUMBER,
                timestamp_ms,
                true,
                frame@,
            ),
            old(self).writer.reliable() ==> r is Ok && final(self).writer.reliable(),
            final(self).same_setup(old(self)),
    {
        proof {
            lemma_frame_parts(
                self.writer.written(),
                self.cluster_start_time,
                AUDIO_TRACK_NUMBER,
                timestamp_ms,
                true,
                frame@,
            );
        }
        self.maybe_start_new_cluster(timestamp_ms, false)?;
        let relative_ts = self.relative_timestamp(timestamp_ms);
        self.write_simple_block(AUDIO_TRACK_NUMBER, relative_ts, true, frame)?;
        self.writer.flush()?;
        assert(self.writer.written() =~= old(self).writer.written() + frame_bytes(
            old(self).cluster_start_time,
            AUDIO_TRACK_NUMBER,
            timestamp_ms,
            true,
            frame@,
        ));
        Ok(())
    }

    /// Flush the writer.
    pub fn flush(&mut self) -> (r: Result<(), W::Error>)
        ensures
            final(self).writer.written() == old(self).writer.written(),
            r is Ok ==> final(self).writer.flushed(),
            old(self).writer.reliable() ==> r is Ok && final(self).writer.reliable(),
            final(self).same_but_output(old(self)),
    {
        self.writer.flush()
    }
}

/// A SimpleBlock is its head and its frame.
proof fn lemma_block_parts(track_number: u8, relative_ts: i16, is_keyframe: bool, frame: Seq<u8>)
    ensures
        block_head_bytes(track_number, relative_ts, is_keyframe, frame.len()) + frame
            == simple_block_bytes(track_number, relative_ts, is_keyframe, frame),
{
    ebml::lemma_vint_bytes_len(track_number as nat);
    ebml::lemma_be_bytes_len(
        if relative_ts < 0 {
            (relative_ts + 0x1_0000) as nat
        } else {
            relative_ts as nat
        },
        2,
    );
    assert(block_bytes(track_number, relative_ts, is_keyframe, frame).len() == block_header_len(
        track_number,
    ) + frame.len());
    assert(block_head_bytes(track_number, relative_ts, is_keyframe, frame.len()) + frame
        =~= simple_block_bytes(track_number, relative_ts, is_keyframe, frame));
}

/// Rows of which the first `row` were taken whole and the next one in part were
/// taken in part.
proof fn lemma_rows_broke_off(
    before: Seq<u8>,
    data: Seq<u8>,
    stride: nat,
    width: nat,
    row: nat,
    rows: nat,
)
    requires
        row < rows,
    ensures
        forall|after: Seq<u8>| #[trigger]
            sink::took_part(
                before + i420::packed_rows(data, stride, width, row),
                data.subrange((row * stride) as int, (row * stride + width) as int),
                after,
            ) ==> sink::took_part(before, i420::packed_rows(data, stride, width, rows), after),
{
    let done = i420::packed_rows(data, stride, width, row);
    let next = i420::packed_rows(data, stride, width, row + 1);
    let all = i420::packed_rows(data, stride, width, rows);
    let piece = data.subrange((row * stride) as int, (row * stride + width) as int);
    assert(next == done + piece);
    i420::lemma_packed_rows_grow(data, stride, width, row + 1, rows);
    let tail = all.skip(next.len() as int);
    assert(all =~= next + tail);
    sink::lemma_parts(before, done, piece);
    sink::lemma_parts(before, next, tail);
}

/// A frame is the start of its Cluster, where it opens one, and its block.
proof fn lemma_frame_parts(
    before: Seq<u8>,
    start: Option<i64>,
    track_number: u8,
    timestamp_ms: i64,
    is_keyframe: bool,
    frame: Seq<u8>,
)
    ensures
        ({
            let all = frame_bytes(start, track_number, timestamp_ms, is_keyframe, frame);
            let prefix = cluster_prefix(start, timestamp_ms);
            let block = simple_block_bytes(
                track_number,
                (timestamp_ms - cluster_of(start, timestamp_ms)) as i16,
                is_keyframe,
                frame,
            );
            &&& before + prefix + block == before + all
            &&& sink::took_part(before, all, before + prefix + block)
            &&& sink::took_part(before + prefix, block, before + prefix + block)
            &&& forall|after: Seq<u8>| #[trigger]
                sink::took_part(before, prefix, after) ==> sink::took_part(before, all, after)
            &&& forall|after: Seq<u8>| #[trigger]
                sink::took_part(before + prefix, block, after) ==> sink::took_part(
                    before,
                    all,
                    after,
                )
        }),
{
    let prefix = cluster_prefix(start, timestamp_ms);
    let block = simple_block_bytes(
        track_number,
        (timestamp_ms - cluster_of(start, timestamp_ms)) as i16,
        is_keyframe,
        frame,
    );
    sink::lemma_parts(before, prefix, block);
    sink::lemma_parts(before + prefix, block, Seq::empty());
    assert(block + Seq::<u8>::empty() =~= block);
    assert(before + prefix + block + Seq::<u8>::empty() =~= before + prefix + block);
}

/// Writing the planes of a frame and writing the packed frame come to the same:
/// from the same state, both leave the same output and the same Cluster.
pub proof fn planes_are_written_packed<W: ByteSink>(
    before: MkvWriter<W>,
    from_planes: MkvWriter<W>,
    from_packed: MkvWriter<W>,
    width: u32,
    height: u32,
    strides: (u32, u32, u32),
    planes: (Seq<u8>, Seq<u8>, Seq<u8>),
    packed: Seq<u8>,
    timestamp_ms: i64,
    is_keyframe: bool,
)
    requires
        packed == i420::packed_i420(
            width,
            height,
            strides.0,
            strides.1,
            strides.2,
            planes.0,
            planes.1,
            planes.2,
        ),
        from_planes.wrote_frame(
            &before,
            VIDEO_TRACK_NUMBER,
            timestamp_ms,
            is_keyframe,
            i420::packed_i420(
                width,
                height,
                strides.0,
                strides.1,
                strides.2,
                planes.0,
                planes.1,
                planes.2,
            ),
        ),
        from_packed.wrote_frame(&before, VIDEO_TRACK_NUMBER, timestamp_ms, is_keyframe, packed),
    ensures
        from_planes.writer.written() == from_packed.writer.written(),
        from_planes.cluster_start_time == from_packed.cluster_start_time,
        from_planes.writer.flushed() && from_packed.writer.flushed(),
{
}

proof fn lemma_empty_front(s: Seq<u8>)
    ensures
        Seq::<u8>::empty() + s == s,
{
    assert(Seq::<u8>::empty() + s =~= s);
}

/// A frame opens a Cluster where there is none, and where it comes five seconds
/// or more behind the Cluster's start or more than 32768 ms before it. In any
/// case its time from the start of its Cluster is under five seconds and fits in
/// 16 bits.
pub proof fn clusters_span_five_seconds(start: Option<i64>, timestamp_ms: i64)
    ensures
        start is None ==> cluster_of(start, timestamp_ms) == timestamp_ms,
        start matches Some(s) ==> {
            &&& timestamp_ms >= s + 5000 || timestamp_ms < s - 32768 ==> needs_cluster(
                start,
                timestamp_ms,
            ) && cluster_of(start, timestamp_ms) == timestamp_ms
            &&& s - 32768 <= timestamp_ms < s + 5000 ==> !needs_cluster(start, timestamp_ms)
                && cluster_of(start, timestamp_ms) == s
        },
        needs_cluster(None, timestamp_ms),
        -32768 <= timestamp_ms - cluster_of(start, timestamp_ms) < 5000,
{
}

/// A Cluster starts with its ID (0x1F43B675) and a size that is left open. Its
/// first element (0xE7) gives its time, modulo 64 bits.
pub proof fn cluster_start_gives_its_time(timestamp_ms: i64)
    ensures
        ({
            let time = ebml::uint_bytes(num::as_unsigned(timestamp_ms));
            &&& cluster_start_bytes(timestamp_ms) == seq![
                0x1Fu8,
                0x43u8,
                0xB6u8,
                0x75u8,
                0x01u8,
                0xFFu8,
                0xFFu8,
                0xFFu8,
                0xFFu8,
                0xFFu8,
                0xFFu8,
                0xFFu8,
            ] + ebml::element_bytes(seq![0xE7u8], time)
            &&& timestamp_ms >= 0 ==> ebml::be_value(time) == timestamp_ms
            &&& timestamp_ms < 0 ==> ebml::be_value(time) == timestamp_ms + 0x1_0000_0000_0000_0000
        }),
{
    ebml::uint_read_back(num::as_unsigned(timestamp_ms));
    assert(ebml_ids::TIMESTAMP@ =~= seq![0xE7u8]);
    assert(ebml_ids::CLUSTER@ + ebml_ids::UNKNOWN_SIZE@ =~= seq![
        0x1Fu8,
        0x43u8,
        0xB6u8,
        0x75u8,
        0x01u8,
        0xFFu8,
        0xFFu8,
        0xFFu8,
        0xFFu8,
        0xFFu8,
        0xFFu8,
        0xFFu8,
    ]);
}

/// An element is its ID, the number of bytes of its data and its data.
pub proof fn element_has_three_parts(id: Seq<u8>, data: Seq<u8>)
    requires
        data.len() < 0x100_0000_0000_0000,
    ensures
        ({
            let bytes = ebml::element_bytes(id, data);
            let n = bytes.len() - id.len() - data.len();
            &&& 1 <= n <= 8
            &&& bytes.take(id.len() as int) == id
            &&& bytes.skip(id.len() + n) == data
            &&& ebml::vint_at(bytes.skip(id.len() as int)) == Ok::<(nat, nat), ebml::VintError>(
                (data.len(), n as nat),
            )
        }),
{
    let bytes = ebml::element_bytes(id, data);
    let size = ebml::vint_bytes(data.len());
    ebml::vint_read_back(data.len(), data);
    ebml::vint_is_shortest(data.len());
    assert(bytes.take(id.len() as int) =~= id);
    assert(bytes.skip(id.len() as int) =~= size + data);
    assert(bytes.skip((id.len() + size.len()) as int) =~= data);
}

/// A SimpleBlock (0xA3) has four bytes in front of its frame: the track, with the
/// top bit set, the time from the Cluster's start in two bytes, most significant
/// first, and the flags, of which only the top bit, for a keyframe, is ever set.
pub proof fn block_has_four_bytes_of_header(
    track_number: u8,
    relative_ts: i16,
    is_keyframe: bool,
    frame: Seq<u8>,
)
    requires
        track_number < 0x80,
    ensures
        ({
            let block = block_bytes(track_number, relative_ts, is_keyframe, frame);
            &&& simple_block_bytes(track_number, relative_ts, is_keyframe, frame)
                == ebml::element_bytes(seq![0xA3u8], block)
            &&& block.len() == 4 + frame.len()
            &&& block[0] == 0x80 + track_number
            &&& relative_ts >= 0 ==> 256 * block[1] + block[2] == relative_ts
            &&& relative_ts < 0 ==> 256 * block[1] + block[2] == relative_ts + 0x1_0000
            &&& is_keyframe ==> block[3] == 0x80
            &&& !is_keyframe ==> block[3] == 0
            &&& block.skip(4) == frame
        }),
{
    let block = block_bytes(track_number, relative_ts, is_keyframe, frame);
    let head = ebml::vint_bytes(track_number as nat);
    let unsigned = if relative_ts < 0 {
        (relative_ts + 0x1_0000) as nat
    } else {
        relative_ts as nat
    };
    let time = i16_bytes(relative_ts);
    ebml::vint_has_seven_bits_a_byte(track_number as nat);
    ebml::lemma_vint_bytes_len(track_number as nat);
    vstd::arithmetic::power2::lemma2_to64();
    assert(head.len() == 1);
    assert(head =~= seq![head[0]] + Seq::empty());
    ebml::leading_byte_counts_most(head[0], Seq::empty());
    vstd::arithmetic::power::lemma_pow0(256);
    assert(head[0] == 0x80 + track_number);
    reveal_with_fuel(ebml::pow256, 3);
    ebml::be_bytes_read_back(unsigned, 2);
    ebml::lemma_be_bytes_len(unsigned, 2);
    assert(time =~= seq![time[0]] + seq![time[1]]);
    ebml::leading_byte_counts_most(time[0], seq![time[1]]);
    ebml::leading_byte_counts_most(time[1], Seq::empty());
    assert(seq![time[1]] =~= seq![time[1]] + Seq::empty());
    vstd::arithmetic::power::lemma_pow1(256);
    assert(block.skip(4) =~= frame);
    assert(ebml_ids::SIMPLE_BLOCK@ =~= seq![0xA3u8]);
}

/// The head of a SimpleBlock and its frame make the SimpleBlock.
pub proof fn block_is_its_head_and_its_frame(
    track_number: u8,
    relative_ts: i16,
    is_keyframe: bool,
    frame: Seq<u8>,
)
    ensures
        simple_block_bytes(track_number, relative_ts, is_keyframe, frame) == block_head_bytes(
            track_number,
            relative_ts,
            is_keyframe,
            frame.len(),
        ) + frame,
{
    lemma_block_parts(track_number, relative_ts, is_keyframe, frame);
}

/// A frame adds its block to the output, behind the start of a Cluster where it
/// opens one and alone where it does not.
pub proof fn frame_adds_its_block(
    start: Option<i64>,
    track_number: u8,
    timestamp_ms: i64,
    is_keyframe: bool,
    frame: Seq<u8>,
)
    ensures
        start is None ==> frame_bytes(start, track_number, timestamp_ms, is_keyframe, frame)
            == cluster_start_bytes(timestamp_ms) + simple_block_bytes(
            track_number,
            0,
            is_keyframe,
            frame,
        ),
        start matches Some(s) ==> {
            &&& timestamp_ms >= s + 5000 || timestamp_ms < s - 32768 ==> frame_bytes(
                start,
                track_number,
                timestamp_ms,
                is_keyframe,
                frame,
            ) == cluster_start_bytes(timestamp_ms) + simple_block_bytes(
                track_number,
                0,
                is_keyframe,
                frame,
            )
            &&& s - 32768 <= timestamp_ms < s + 5000 ==> frame_bytes(
                start,
                track_number,
                timestamp_ms,
                is_keyframe,
                frame,
            ) == simple_block_bytes(
                track_number,
                (timestamp_ms - s) as i16,
                is_keyframe,
                frame,
            )
        },
{
    if !needs_cluster(start, timestamp_ms) {
        let block = simple_block_bytes(
            track_number,
            (timestamp_ms - start->0) as i16,
            is_keyframe,
            frame,
        );
        assert(Seq::<u8>::empty() + block =~= block);
    }
}

/// A clamped number is the nearest of 16 bits.
pub proof fn clamped_number_is_nearest(v: int, other: i16)
    ensures
        -32768 <= clamp_i16(v) <= 32767,
        -32768 <= v <= 32767 ==> clamp_i16(v) == v,
        v <= other ==> v <= clamp_i16(v) <= other || clamp_i16(v) == -32768,
        v >= other ==> other <= clamp_i16(v) <= v || clamp_i16(v) == 32767,
{
}

/// The planes of a frame can be written exactly where none is shorter than its
/// last pixel asks, of those whose extent can be counted, and the whole can be
/// counted too. A plane that cannot be counted is named before one that is too
/// short, and the first of them first.
pub proof fn faults_are_named_in_order(
    width: u32,
    height: u32,
    y_stride: u32,
    u_stride: u32,
    v_stride: u32,
    y_len: usize,
    u_len: usize,
    v_len: usize,
)
    requires
        width > 0,
        height > 0,
    ensures
        ({
            let (cw, ch) = ((width + 1) / 2, (height + 1) / 2);
            let y_end = (height - 1) * y_stride + width;
            let u_end = (ch - 1) * u_stride + cw;
            let v_end = (ch - 1) * v_stride + cw;
            let whole = width * height + 2 * (cw * ch);
            let fault = plane_fault(
                width,
                height,
                y_stride,
                u_stride,
                v_stride,
                y_len as nat,
                u_len as nat,
                v_len as nat,
            );
            &&& fault is None <==> y_end <= y_len && u_end <= u_len && v_end <= v_len && whole
                <= usize::MAX
            &&& fault == Some(PlaneError::YOverflow) <==> y_end > usize::MAX
            &&& fault == Some(PlaneError::UOverflow) <==> y_end <= usize::MAX && u_end > usize::MAX
            &&& fault == Some(PlaneError::VOverflow) <==> y_end <= usize::MAX && u_end <= usize::MAX
                && v_end > usize::MAX
            &&& fault == Some(PlaneError::TooSmall) <==> y_end <= usize::MAX && u_end <= usize::MAX
                && v_end <= usize::MAX && (y_end > y_len || u_end > u_len || v_end > v_len)
        }),
{
}

/// A time is that of its Cluster's start and its own from there; without a
/// Cluster it counts from zero.
pub proof fn offsets_add_up(start: i64, timestamp_ms: i64)
    ensures
        start + cluster_offset(Some(start), timestamp_ms) == timestamp_ms,
        cluster_offset(None, timestamp_ms) == timestamp_ms,
        offset_fits(None, timestamp_ms),
        start >= 0 && timestamp_ms >= 0 ==> offset_fits(Some(start), timestamp_ms),
{
}

} // verus!
