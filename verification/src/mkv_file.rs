//! What a reader makes of all that a writer wrote.

use crate::mkv_elements;
use crate::mkv_header;
use crate::mkv_reader::{FrameView, MkvReadError, ReaderView, TagView};
use crate::mkv_stream;
use crate::mkv_stream::WrittenFrame;
use crate::mkv_tags;
use crate::mkv_writer;
use crate::mkv_writer::{MkvConfig, MkvWriter};
use crate::sink::ByteSink;
use vstd::prelude::*;

verus! {

/// All that a writer writes for `frames`.
pub open spec fn file_bytes(config: MkvConfig, frames: Seq<WrittenFrame>) -> Seq<u8> {
    mkv_writer::header_bytes(config) + mkv_stream::stream_bytes(None, frames)
}

/// Whether a writer has written `frames`, and nothing else, behind `before`.
pub open spec fn has_written<W: ByteSink>(
    writer: MkvWriter<W>,
    before: Seq<u8>,
    frames: Seq<WrittenFrame>,
) -> bool {
    &&& writer.writer.written() == before + file_bytes(writer.config, frames)
    &&& writer.cluster_start_time == mkv_stream::cluster_after(None, frames)
}

/// A new writer has written no frame.
pub proof fn new_writer_has_written_nothing<W: ByteSink>(writer: MkvWriter<W>, before: Seq<u8>)
    requires
        writer.writer.written() == before + mkv_writer::header_bytes(writer.config),
        writer.cluster_start_time is None,
    ensures
        has_written(writer, before, Seq::empty()),
{
    assert(file_bytes(writer.config, Seq::empty()) =~= mkv_writer::header_bytes(writer.config));
}

/// A frame that is written is behind those written before it.
pub proof fn written_frames_add_up<W: ByteSink>(
    writer: MkvWriter<W>,
    after: MkvWriter<W>,
    before: Seq<u8>,
    frames: Seq<WrittenFrame>,
    f: WrittenFrame,
)
    requires
        has_written(writer, before, frames),
        after.same_setup(&writer),
        after.wrote_frame(
            &writer,
            mkv_stream::track_of(f),
            f.timestamp_ms,
            mkv_stream::marked_keyframe(f),
            f.data,
        ),
    ensures
        has_written(after, before, frames.push(f)),
{
    mkv_stream::stream_grows_by_frames(None, frames, f);
    let header = mkv_writer::header_bytes(writer.config);
    let stream = mkv_stream::stream_bytes(None, frames);
    let added = mkv_writer::frame_bytes(
        mkv_stream::cluster_after(None, frames),
        mkv_stream::track_of(f),
        f.timestamp_ms,
        mkv_stream::marked_keyframe(f),
        f.data,
    );
    assert(before + (header + stream) + added =~= before + (header + (stream + added)));
}

/// The first of all frames opens a Cluster.
proof fn lemma_first_tag_opens_cluster(frames: Seq<WrittenFrame>)
    requires
        frames.len() > 0,
    ensures
        ({
            let tags = mkv_stream::stream_tags(None, frames);
            &&& tags.len() > 0
            &&& tags[0] == TagView::ClusterStart
            &&& tags == seq![TagView::ClusterStart] + tags.skip(1)
        }),
{
    let tags = mkv_stream::stream_tags(None, frames);
    assert(mkv_stream::frame_tags(None, frames[0])[0] == TagView::ClusterStart);
    assert(tags[0] == TagView::ClusterStart);
    assert(tags =~= seq![TagView::ClusterStart] + tags.skip(1));
}

/// What a writer wrote is read back whole. A fresh reader that takes the tags
/// of a writer's output, with any others among them that tell nothing, knows
/// the writer's configuration behind the header, and then hands out each frame
/// in order, with its kind, data, timestamp and keyframe mark, and no more. A
/// frame must be one whose size is read, at a time that can be counted in
/// nanoseconds.
pub proof fn file_read_back(config: MkvConfig, frames: Seq<WrittenFrame>, tags: Seq<TagView>)
    requires
        frames.len() > 0,
        forall|i: int|
            0 <= i < frames.len() ==> mkv_stream::time_fits((#[trigger] frames[i]).timestamp_ms),
        forall|i: int| 0 <= i < frames.len() ==> mkv_stream::frame_fits(#[trigger] frames[i]),
        mkv_tags::telling(tags) == mkv_elements::told_tags(file_bytes(config, frames)),
    ensures
        mkv_tags::read_stream(tags) == Ok::<
            (ReaderView, (Seq<FrameView>, Option<MkvReadError>)),
            MkvReadError,
        >(
            (
                mkv_header::reader_behind_header(config),
                (mkv_stream::all_as_read(frames), None),
            ),
        ),
        mkv_tags::stream_readable(tags),
{
    let stream = mkv_stream::stream_bytes(None, frames);
    let blocks = mkv_stream::stream_tags(None, frames);
    let r = mkv_header::reader_behind_header(config);
    let told = mkv_header::header_tags(config) + blocks;
    mkv_header::header_tags_read_back(config, stream);
    mkv_stream::stream_tags_read_back(None, frames);
    lemma_first_tag_opens_cluster(frames);
    lemma_nothing_to_drop(told, frames, config);
    mkv_tags::other_tags_change_nothing(tags, told);
    mkv_header::header_read_back(config, blocks.skip(1));
    mkv_stream::stream_read_back(r, None, frames);
    assert(mkv_tags::all_frames(r, blocks) == mkv_tags::all_frames(r, blocks.skip(1)));
    assert(mkv_tags::all_readable(r, blocks) == mkv_tags::all_readable(r, blocks.skip(1)));
}

proof fn lemma_telling_keeps(tags: Seq<TagView>)
    requires
        forall|i: int| 0 <= i < tags.len() ==> !(#[trigger] tags[i] is Other),
    ensures
        mkv_tags::telling(tags) == tags,
    decreases tags.len(),
{
    if tags.len() > 0 {
        let rest = tags.skip(1);
        assert forall|i: int| 0 <= i < rest.len() implies !(#[trigger] rest[i] is Other) by {
            assert(rest[i] == tags[i + 1]);
        }
        lemma_telling_keeps(rest);
        assert(seq![tags[0]] + rest =~= tags);
    }
}

proof fn lemma_stream_tags_tell(start: Option<i64>, frames: Seq<WrittenFrame>)
    ensures
        forall|i: int|
            0 <= i < mkv_stream::stream_tags(start, frames).len() ==> !(
            #[trigger] mkv_stream::stream_tags(start, frames)[i] is Other),
    decreases frames.len(),
{
    if frames.len() > 0 {
        let next = Some(mkv_writer::cluster_of(start, frames[0].timestamp_ms));
        let front = mkv_stream::frame_tags(start, frames[0]);
        let back = mkv_stream::stream_tags(next, frames.skip(1));
        let all = mkv_stream::stream_tags(start, frames);
        lemma_stream_tags_tell(next, frames.skip(1));
        assert forall|i: int| 0 <= i < all.len() implies !(#[trigger] all[i] is Other) by {
            if i < front.len() {
                assert(all[i] == front[i]);
            } else {
                assert(all[i] == back[i - front.len()]);
            }
        }
    }
}

proof fn lemma_nothing_to_drop(
    told: Seq<TagView>,
    frames: Seq<WrittenFrame>,
    config: MkvConfig,
)
    requires
        told == mkv_header::header_tags(config) + mkv_stream::stream_tags(None, frames),
    ensures
        mkv_tags::telling(told) == told,
{
    let front = mkv_header::header_tags(config);
    let back = mkv_stream::stream_tags(None, frames);
    lemma_stream_tags_tell(None, frames);
    assert forall|i: int| 0 <= i < told.len() implies !(#[trigger] told[i] is Other) by {
        if i < front.len() {
            assert(told[i] == front[i]);
        } else {
            assert(told[i] == back[i - front.len()]);
        }
    }
    lemma_telling_keeps(told);
}

proof fn lemma_nothing_behind(bytes: Seq<u8>)
    ensures
        bytes + Seq::<u8>::empty() == bytes,
{
    assert(bytes + Seq::<u8>::empty() =~= bytes);
}

proof fn lemma_header_tells(config: MkvConfig)
    ensures
        mkv_tags::telling(mkv_header::header_tags(config)) == mkv_header::header_tags(config),
{
    lemma_telling_keeps(mkv_header::header_tags(config));
}

/// A writer's output without a frame has no Cluster, and a reader says so.
pub proof fn file_without_frames_is_refused(config: MkvConfig, tags: Seq<TagView>)
    requires
        mkv_tags::telling(tags) == mkv_elements::told_tags(mkv_writer::header_bytes(config)),
    ensures
        mkv_tags::read_stream(tags) == Err::<
            (ReaderView, (Seq<FrameView>, Option<MkvReadError>)),
            MkvReadError,
        >(MkvReadError::NoCluster),
{
    let told = mkv_header::header_tags(config);
    lemma_nothing_behind(mkv_writer::header_bytes(config));
    mkv_header::header_tags_read_back(config, Seq::empty());
    mkv_elements::lemma_no_tags();
    assert(told + Seq::<TagView>::empty() =~= told);
    lemma_header_tells(config);
    mkv_tags::other_tags_change_nothing(tags, told);
    mkv_header::header_alone_has_no_cluster(config);
}

/// A video frame that is written is behind the frames written before it, with its
/// data, its time and its mark of a keyframe.
pub proof fn written_video_adds_up<W: ByteSink>(
    writer: MkvWriter<W>,
    after: MkvWriter<W>,
    before: Seq<u8>,
    frames: Seq<WrittenFrame>,
    data: Seq<u8>,
    timestamp_ms: i64,
    is_keyframe: bool,
)
    requires
        has_written(writer, before, frames),
        after.same_setup(&writer),
        after.wrote_video(&writer, data, timestamp_ms, is_keyframe),
    ensures
        has_written(
            after,
            before,
            frames.push(WrittenFrame { is_video: true, timestamp_ms, is_keyframe, data }),
        ),
{
    let f = WrittenFrame { is_video: true, timestamp_ms, is_keyframe, data };
    written_frames_add_up(writer, after, before, frames, f);
}

/// An audio frame that is written is behind the frames written before it, with
/// its data and its time.
pub proof fn written_audio_adds_up<W: ByteSink>(
    writer: MkvWriter<W>,
    after: MkvWriter<W>,
    before: Seq<u8>,
    frames: Seq<WrittenFrame>,
    data: Seq<u8>,
    timestamp_ms: i64,
    is_keyframe: bool,
)
    requires
        has_written(writer, before, frames),
        after.same_setup(&writer),
        after.wrote_audio(&writer, data, timestamp_ms),
    ensures
        has_written(
            after,
            before,
            frames.push(WrittenFrame { is_video: false, timestamp_ms, is_keyframe, data }),
        ),
{
    let f = WrittenFrame { is_video: false, timestamp_ms, is_keyframe, data };
    written_frames_add_up(writer, after, before, frames, f);
}

} // verus!
