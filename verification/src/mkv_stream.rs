//! What a reader makes of the frames that a writer wrote.

use crate::ebml;
use crate::ebml_ids;
use crate::mkv_elements;
use crate::mkv_elements::Element;
use crate::mkv_reader;
use crate::mkv_reader::{FrameView, MkvReadError, ReaderView, TagView};
use crate::mkv_tags;
use crate::mkv_writer;
use crate::num;
use vstd::prelude::*;

verus! {

/// A frame handed to a writer.
pub struct WrittenFrame {
    pub is_video: bool,
    pub timestamp_ms: i64,
    pub is_keyframe: bool,
    pub data: Seq<u8>,
}

/// The number of the track that a frame goes to.
pub open spec fn track_of(frame: WrittenFrame) -> u8 {
    if frame.is_video {
        mkv_writer::VIDEO_TRACK_NUMBER
    } else {
        mkv_writer::AUDIO_TRACK_NUMBER
    }
}

/// Whether the block of a frame is marked as a keyframe: every audio block is.
pub open spec fn marked_keyframe(frame: WrittenFrame) -> bool {
    frame.is_video ==> frame.is_keyframe
}

/// The frame as a reader hands it out.
pub open spec fn as_read(frame: WrittenFrame) -> FrameView {
    if frame.is_video {
        FrameView::Video {
            data: frame.data,
            timestamp_ms: frame.timestamp_ms,
            is_keyframe: frame.is_keyframe,
        }
    } else {
        FrameView::Audio { data: frame.data, timestamp_ms: frame.timestamp_ms }
    }
}

/// What a writer whose Cluster began at `start` writes for `frames`.
pub open spec fn stream_bytes(start: Option<i64>, frames: Seq<WrittenFrame>) -> Seq<u8>
    decreases frames.len(),
{
    if frames.len() == 0 {
        Seq::empty()
    } else {
        let f = frames[0];
        mkv_writer::frame_bytes(start, track_of(f), f.timestamp_ms, marked_keyframe(f), f.data)
            + stream_bytes(
            Some(mkv_writer::cluster_of(start, f.timestamp_ms)),
            frames.skip(1),
        )
    }
}

/// The start of the Cluster that a writer is in once it has written
/// `frames`.
pub open spec fn cluster_after(start: Option<i64>, frames: Seq<WrittenFrame>) -> Option<i64>
    decreases frames.len(),
{
    if frames.len() == 0 {
        start
    } else {
        Some(
            mkv_writer::cluster_of(
                cluster_after(start, frames.drop_last()),
                frames.last().timestamp_ms,
            ),
        )
    }
}

/// The tags that stand for one frame.
pub open spec fn frame_tags(start: Option<i64>, f: WrittenFrame) -> Seq<TagView> {
    let block = TagView::SimpleBlock(
        mkv_writer::block_bytes(
            track_of(f),
            (f.timestamp_ms - mkv_writer::cluster_of(start, f.timestamp_ms)) as i16,
            marked_keyframe(f),
            f.data,
        ),
    );
    if mkv_writer::needs_cluster(start, f.timestamp_ms) {
        seq![
            TagView::ClusterStart,
            TagView::Timestamp(num::as_unsigned(f.timestamp_ms) as u64),
            block,
        ]
    } else {
        seq![block]
    }
}

/// The tags that stand for `frames`.
pub open spec fn stream_tags(start: Option<i64>, frames: Seq<WrittenFrame>) -> Seq<TagView>
    decreases frames.len(),
{
    if frames.len() == 0 {
        Seq::empty()
    } else {
        frame_tags(start, frames[0]) + stream_tags(
            Some(mkv_writer::cluster_of(start, frames[0].timestamp_ms)),
            frames.skip(1),
        )
    }
}

/// Whether a reader has taken the header of a writer's stream: ticks of a
/// millisecond, and the two tracks.
pub open spec fn reads_writer(r: ReaderView) -> bool {
    &&& r.info.timecode_scale == mkv_writer::TIMESTAMP_SCALE_NS
    &&& r.video_track == Some(mkv_writer::VIDEO_TRACK_NUMBER as u64)
    &&& r.audio_track == Some(mkv_writer::AUDIO_TRACK_NUMBER as u64)
}

/// Whether a timestamp in milliseconds can be counted in nanoseconds.
pub open spec fn time_fits(timestamp_ms: i64) -> bool {
    i64::MIN <= timestamp_ms * 1_000_000 <= i64::MAX
}

/// A frame lies less than five seconds behind the start of the Cluster that
/// it goes into, and its offset from that start fits in 16 bits: no timestamp
/// is ever clamped.
pub proof fn offset_is_never_clamped(start: Option<i64>, timestamp_ms: i64)
    ensures
        i16::MIN <= timestamp_ms - mkv_writer::cluster_of(start, timestamp_ms)
            < mkv_writer::CLUSTER_DURATION_MS,
        mkv_writer::clamp_i16(timestamp_ms - mkv_writer::cluster_of(start, timestamp_ms))
            == timestamp_ms - mkv_writer::cluster_of(start, timestamp_ms),
{
}

/// A Cluster's Timestamp element gives back the time that the Cluster was
/// started at.
pub proof fn cluster_timestamp_read_back(timestamp_ms: i64)
    requires
        time_fits(timestamp_ms),
    ensures
        num::as_unsigned(timestamp_ms) <= u64::MAX,
        ebml::be_value(ebml::uint_bytes(num::as_unsigned(timestamp_ms)))
            == num::as_unsigned(timestamp_ms),
        mkv_reader::cluster_time(
            num::as_unsigned(timestamp_ms) as u64,
            mkv_writer::TIMESTAMP_SCALE_NS,
        ) == timestamp_ms,
{
    ebml::uint_read_back(num::as_unsigned(timestamp_ms));
}

/// A block gives back its frame, its track's kind, its keyframe mark and,
/// from the Cluster's time, its timestamp.
pub proof fn block_read_back(
    r: ReaderView,
    track_number: u8,
    relative_ts: i16,
    is_keyframe: bool,
    frame: Seq<u8>,
)
    requires
        i64::MIN <= r.cluster_ms + relative_ts <= i64::MAX,
    ensures
        mkv_reader::block_readable(
            r,
            mkv_writer::block_bytes(track_number, relative_ts, is_keyframe, frame),
        ),
        mkv_reader::block_frame(
            r,
            mkv_writer::block_bytes(track_number, relative_ts, is_keyframe, frame),
        ) == Ok::<Option<FrameView>, MkvReadError>(
            if r.video_track == Some(track_number as u64) {
                Some(
                    FrameView::Video {
                        data: frame,
                        timestamp_ms: (r.cluster_ms + relative_ts) as i64,
                        is_keyframe,
                    },
                )
            } else if r.audio_track == Some(track_number as u64) {
                Some(
                    FrameView::Audio {
                        data: frame,
                        timestamp_ms: (r.cluster_ms + relative_ts) as i64,
                    },
                )
            } else {
                None
            },
        ),
{
    let data = mkv_writer::block_bytes(track_number, relative_ts, is_keyframe, frame);
    let vint = ebml::vint_bytes(track_number as nat);
    let unsigned: nat = if relative_ts < 0 {
        (relative_ts + 0x1_0000) as nat
    } else {
        relative_ts as nat
    };
    let time = ebml::be_bytes(unsigned, 2);
    let rest = time + seq![mkv_writer::block_flags(is_keyframe)] + frame;
    ebml::vint_read_back(track_number as nat, rest);
    ebml::lemma_vint_bytes_len(track_number as nat);
    ebml::lemma_be_bytes_len(unsigned, 2);
    reveal_with_fuel(ebml::be_bytes, 3);
    assert(time =~= seq![(unsigned / 256) as u8, (unsigned % 256) as u8]);
    assert(data =~= vint + rest);
    let size = vint.len() as int;
    assert(data[size] == time[0]);
    assert(data[size + 1] == time[1]);
    assert(data[size + 2] == mkv_writer::block_flags(is_keyframe));
    assert(data.skip(size + 3) =~= frame);
    assert(mkv_reader::i16_value(time[0], time[1]) == relative_ts);
}

/// Whether the block of a frame is an element whose size is read back. It is
/// not where the block has 127 bytes, say: that size reads as unknown.
pub open spec fn frame_fits(f: WrittenFrame) -> bool {
    mkv_elements::size_is_read(mkv_writer::block_header_len(track_of(f)) + f.data.len())
}

/// The start of a Cluster gives the Cluster and its time.
proof fn lemma_cluster_told(timestamp_ms: i64, rest: Seq<u8>)
    requires
        time_fits(timestamp_ms),
    ensures
        mkv_elements::told_tags(mkv_writer::cluster_start_bytes(timestamp_ms) + rest) == seq![
            TagView::ClusterStart,
            TagView::Timestamp(num::as_unsigned(timestamp_ms) as u64),
        ] + mkv_elements::told_tags(rest),
{
    let ticks = num::as_unsigned(timestamp_ms) as u64;
    let e = Element { id: ebml_ids::TIMESTAMP@, data: ebml::uint_bytes(ticks as nat) };
    let element = ebml::element_bytes(e.id, e.data);
    let (id, size) = (ebml_ids::CLUSTER@, ebml_ids::UNKNOWN_SIZE@);
    cluster_timestamp_read_back(timestamp_ms);
    ebml::lemma_uint_len_u64(ticks);
    ebml::uint_read_back(ticks as nat);
    mkv_elements::lemma_short_element(e.id, e.data);
    assert(mkv_writer::cluster_start_bytes(timestamp_ms) + rest =~= id + size + (element + rest));
    mkv_elements::lemma_unknown_size_read(element + rest);
    mkv_elements::opening_is_told(id, size, element + rest);
    mkv_elements::element_is_told(e, rest);
    assert(seq![TagView::ClusterStart] + (seq![TagView::Timestamp(ticks)]
        + mkv_elements::told_tags(rest)) =~= seq![
        TagView::ClusterStart,
        TagView::Timestamp(ticks),
    ] + mkv_elements::told_tags(rest));
}

/// What a writer writes for a frame gives the frame's tags.
proof fn lemma_frame_told(start: Option<i64>, f: WrittenFrame, rest: Seq<u8>)
    requires
        time_fits(f.timestamp_ms),
        frame_fits(f),
    ensures
        mkv_elements::told_tags(
            mkv_writer::frame_bytes(
                start,
                track_of(f),
                f.timestamp_ms,
                marked_keyframe(f),
                f.data,
            ) + rest,
        ) == frame_tags(start, f) + mkv_elements::told_tags(rest),
{
    let relative_ts = (f.timestamp_ms - mkv_writer::cluster_of(start, f.timestamp_ms)) as i16;
    let data = mkv_writer::block_bytes(track_of(f), relative_ts, marked_keyframe(f), f.data);
    let e = Element { id: ebml_ids::SIMPLE_BLOCK@, data };
    let block = ebml::element_bytes(e.id, e.data);
    let prefix = mkv_writer::cluster_prefix(start, f.timestamp_ms);
    lemma_block_len(track_of(f), relative_ts, marked_keyframe(f), f.data);
    mkv_elements::element_is_told(e, rest);
    assert(prefix + block + rest =~= prefix + (block + rest));
    if mkv_writer::needs_cluster(start, f.timestamp_ms) {
        lemma_cluster_told(f.timestamp_ms, block + rest);
        assert(frame_tags(start, f) =~= seq![
            TagView::ClusterStart,
            TagView::Timestamp(num::as_unsigned(f.timestamp_ms) as u64),
        ] + seq![TagView::SimpleBlock(data)]);
    } else {
        assert(prefix + (block + rest) =~= block + rest);
    }
    assert(frame_tags(start, f) + mkv_elements::told_tags(rest) =~= mkv_elements::told_tags(
        prefix + (block + rest),
    ));
}

proof fn lemma_block_len(track_number: u8, relative_ts: i16, is_keyframe: bool, frame: Seq<u8>)
    ensures
        mkv_writer::block_bytes(track_number, relative_ts, is_keyframe, frame).len()
            == mkv_writer::block_header_len(track_number) + frame.len(),
{
    ebml::lemma_vint_bytes_len(track_number as nat);
    ebml::lemma_be_bytes_len(
        if relative_ts < 0 {
            (relative_ts + 0x1_0000) as nat
        } else {
            relative_ts as nat
        },
        2,
    );
}

/// What a writer writes gives the tags of its frames, one after the other.
pub proof fn stream_tags_read_back(start: Option<i64>, frames: Seq<WrittenFrame>)
    requires
        forall|i: int| 0 <= i < frames.len() ==> time_fits((#[trigger] frames[i]).timestamp_ms),
        forall|i: int| 0 <= i < frames.len() ==> frame_fits(#[trigger] frames[i]),
    ensures
        mkv_elements::told_tags(stream_bytes(start, frames)) == stream_tags(start, frames),
    decreases frames.len(),
{
    if frames.len() > 0 {
        let next = Some(mkv_writer::cluster_of(start, frames[0].timestamp_ms));
        let rest = frames.skip(1);
        stream_tags_read_back(next, rest);
        lemma_frame_told(start, frames[0], stream_bytes(next, rest));
    } else {
        mkv_elements::lemma_no_tags();
    }
}

/// The frames as a reader hands them out.
pub open spec fn all_as_read(frames: Seq<WrittenFrame>) -> Seq<FrameView> {
    frames.map_values(|f: WrittenFrame| as_read(f))
}

proof fn lemma_frame_read(r: ReaderView, f: WrittenFrame, start: Option<i64>, b: Seq<TagView>)
    requires
        reads_writer(r),
        time_fits(f.timestamp_ms),
        start matches Some(s) ==> r.cluster_ms == s,
    ensures
        ({
            let cluster = mkv_writer::cluster_of(start, f.timestamp_ms);
            let at = ReaderView { cluster_ms: cluster, ..r };
            let rest = mkv_tags::all_frames(at, b);
            &&& mkv_tags::all_frames(r, frame_tags(start, f) + b) == (
                seq![as_read(f)] + rest.0,
                rest.1,
            )
            &&& mkv_tags::all_readable(r, frame_tags(start, f) + b) == mkv_tags::all_readable(
                at,
                b,
            )
        }),
{
    let cluster = mkv_writer::cluster_of(start, f.timestamp_ms);
    let at = ReaderView { cluster_ms: cluster, ..r };
    let tags = frame_tags(start, f) + b;
    offset_is_never_clamped(start, f.timestamp_ms);
    block_read_back(
        at,
        track_of(f),
        (f.timestamp_ms - cluster) as i16,
        marked_keyframe(f),
        f.data,
    );
    reveal_with_fuel(mkv_tags::all_frames, 4);
    reveal_with_fuel(mkv_tags::all_readable, 4);
    if mkv_writer::needs_cluster(start, f.timestamp_ms) {
        cluster_timestamp_read_back(f.timestamp_ms);
        assert(tags.skip(1)[0] == tags[1]);
        assert(tags.skip(1).skip(1)[0] == tags[2]);
        assert(tags.skip(1).skip(1).skip(1) =~= b);
    } else {
        assert(at == r);
        assert(tags.skip(1) =~= b);
    }
}

proof fn lemma_stream_tags_read(r: ReaderView, start: Option<i64>, frames: Seq<WrittenFrame>)
    requires
        reads_writer(r),
        start matches Some(s) ==> r.cluster_ms == s,
        forall|i: int| 0 <= i < frames.len() ==> time_fits((#[trigger] frames[i]).timestamp_ms),
    ensures
        mkv_tags::all_frames(r, stream_tags(start, frames)) == (
            all_as_read(frames),
            None::<MkvReadError>,
        ),
        mkv_tags::all_readable(r, stream_tags(start, frames)),
    decreases frames.len(),
{
    if frames.len() > 0 {
        let cluster = mkv_writer::cluster_of(start, frames[0].timestamp_ms);
        let rest = frames.skip(1);
        lemma_frame_read(r, frames[0], start, stream_tags(Some(cluster), rest));
        lemma_stream_tags_read(ReaderView { cluster_ms: cluster, ..r }, Some(cluster), rest);
        assert(all_as_read(frames) =~= seq![as_read(frames[0])] + all_as_read(rest));
    } else {
        assert(all_as_read(frames) =~= Seq::empty());
    }
}

/// Frames are read back as they were written: in order, with their data,
/// timestamps and keyframe marks, and then no more. It holds from any point of
/// the stream on, if the reader has taken the header and is in the writer's
/// Cluster. A frame must be one whose size is read, at a time that can be
/// counted in nanoseconds.
pub proof fn stream_read_back(r: ReaderView, start: Option<i64>, frames: Seq<WrittenFrame>)
    requires
        reads_writer(r),
        start matches Some(s) ==> r.cluster_ms == s,
        forall|i: int| 0 <= i < frames.len() ==> time_fits((#[trigger] frames[i]).timestamp_ms),
        forall|i: int| 0 <= i < frames.len() ==> frame_fits(#[trigger] frames[i]),
    ensures
        ({
            let tags = mkv_elements::told_tags(stream_bytes(start, frames));
            &&& mkv_tags::all_readable(r, tags)
            &&& mkv_tags::all_frames(r, tags) == (all_as_read(frames), None::<MkvReadError>)
        }),
{
    stream_tags_read_back(start, frames);
    lemma_stream_tags_read(r, start, frames);
}

proof fn lemma_cluster_after_first(start: Option<i64>, frames: Seq<WrittenFrame>)
    requires
        frames.len() > 0,
    ensures
        cluster_after(start, frames) == cluster_after(
            Some(mkv_writer::cluster_of(start, frames[0].timestamp_ms)),
            frames.skip(1),
        ),
    decreases frames.len(),
{
    let rest = frames.skip(1);
    if rest.len() > 0 {
        lemma_cluster_after_first(start, frames.drop_last());
        assert(rest.drop_last() =~= frames.drop_last().skip(1));
    } else {
        reveal_with_fuel(cluster_after, 2);
        assert(frames.drop_last().len() == 0);
    }
}

/// A frame that is written behind others adds its own bytes to theirs, and
/// those depend only on the Cluster that the others left off in.
pub proof fn stream_grows_by_frames(
    start: Option<i64>,
    frames: Seq<WrittenFrame>,
    f: WrittenFrame,
)
    ensures
        stream_bytes(start, frames.push(f)) == stream_bytes(start, frames)
            + mkv_writer::frame_bytes(
            cluster_after(start, frames),
            track_of(f),
            f.timestamp_ms,
            marked_keyframe(f),
            f.data,
        ),
        cluster_after(start, frames.push(f)) == Some(
            mkv_writer::cluster_of(cluster_after(start, frames), f.timestamp_ms),
        ),
    decreases frames.len(),
{
    let all = frames.push(f);
    assert(all.drop_last() =~= frames);
    let added = mkv_writer::frame_bytes(
        cluster_after(start, frames),
        track_of(f),
        f.timestamp_ms,
        marked_keyframe(f),
        f.data,
    );
    if frames.len() == 0 {
        reveal_with_fuel(stream_bytes, 2);
        assert(all.skip(1).len() == 0);
        assert(stream_bytes(start, all) =~= stream_bytes(start, frames) + added);
    } else {
        let next = Some(mkv_writer::cluster_of(start, frames[0].timestamp_ms));
        lemma_cluster_after_first(start, frames);
        stream_grows_by_frames(next, frames.skip(1), f);
        assert(all.skip(1) =~= frames.skip(1).push(f));
        assert(all[0] == frames[0]);
        assert(stream_bytes(start, all) =~= stream_bytes(start, frames) + added);
    }
}

/// After any frames, the last one lies in the Cluster that the writer is in,
/// less than five seconds behind its start, and the block that was just written
/// gives exactly the time since that start.
pub proof fn last_frame_lies_in_its_cluster(
    start: Option<i64>,
    frames: Seq<WrittenFrame>,
    f: WrittenFrame,
)
    ensures
        cluster_after(start, frames.push(f)) matches Some(s) && {
            &&& i16::MIN <= f.timestamp_ms - s < mkv_writer::CLUSTER_DURATION_MS
            &&& stream_bytes(start, frames.push(f)) == stream_bytes(start, frames)
                + mkv_writer::cluster_prefix(cluster_after(start, frames), f.timestamp_ms)
                + mkv_writer::simple_block_bytes(
                track_of(f),
                (f.timestamp_ms - s) as i16,
                marked_keyframe(f),
                f.data,
            )
            &&& ((f.timestamp_ms - s) as i16) as int == f.timestamp_ms - s
        },
{
    stream_grows_by_frames(start, frames, f);
    let cluster = cluster_after(start, frames);
    offset_is_never_clamped(cluster, f.timestamp_ms);
    let prefix = mkv_writer::cluster_prefix(cluster, f.timestamp_ms);
    let block = mkv_writer::simple_block_bytes(
        track_of(f),
        (f.timestamp_ms - mkv_writer::cluster_of(cluster, f.timestamp_ms)) as i16,
        marked_keyframe(f),
        f.data,
    );
    assert(stream_bytes(start, frames) + (prefix + block) =~= stream_bytes(start, frames) + prefix
        + block);
}

} // verus!
