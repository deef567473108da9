//! What a reader makes of the tags of a stream, taken one after the other.

use crate::mkv_reader;
use crate::mkv_reader::{FrameView, MkvReadError, ReaderView, TagView};
use vstd::prelude::*;

verus! {

/// The header of a stream: what a reader in state `r` knows behind it, and the
/// tags that are left. Tags are taken in order up to the first Cluster. A tag
/// that cannot be taken ends it, and so does the end of the stream.
pub open spec fn read_header(r: ReaderView, tags: Seq<TagView>) -> Result<
    (ReaderView, Seq<TagView>),
    MkvReadError,
>
    decreases tags.len(),
{
    if tags.len() == 0 {
        match mkv_reader::header_end(r) {
            Ok(_) => Ok((r, tags)),
            Err(e) => Err(e),
        }
    } else {
        match mkv_reader::with_header_tag(r, tags[0]) {
            Err(e) => Err(e),
            Ok(next) => if tags[0] is ClusterStart {
                Ok((next, tags.skip(1)))
            } else {
                read_header(next, tags.skip(1))
            },
        }
    }
}

/// The next frame: what it is, what the reader knows behind it, and the tags
/// that are left. Tags are taken in order up to the first that gives a frame;
/// there is none where no tag is left.
pub open spec fn next_frame(r: ReaderView, tags: Seq<TagView>) -> (
    Result<Option<FrameView>, MkvReadError>,
    ReaderView,
    Seq<TagView>,
)
    decreases tags.len(),
{
    if tags.len() == 0 {
        (Ok(None), r, tags)
    } else {
        let after = mkv_reader::with_tag(r, tags[0]);
        match mkv_reader::tag_frame(r, tags[0]) {
            Err(e) => (Err(e), after, tags.skip(1)),
            Ok(Some(frame)) => (Ok(Some(frame)), after, tags.skip(1)),
            Ok(None) => next_frame(after, tags.skip(1)),
        }
    }
}

/// All frames that are left, in order, and the error that ends them, if one
/// does.
pub open spec fn all_frames(r: ReaderView, tags: Seq<TagView>) -> (
    Seq<FrameView>,
    Option<MkvReadError>,
)
    decreases tags.len(),
{
    if tags.len() == 0 {
        (Seq::empty(), None)
    } else {
        let rest = all_frames(mkv_reader::with_tag(r, tags[0]), tags.skip(1));
        match mkv_reader::tag_frame(r, tags[0]) {
            Err(e) => (Seq::empty(), Some(e)),
            Ok(Some(frame)) => (seq![frame] + rest.0, rest.1),
            Ok(None) => rest,
        }
    }
}

/// Whether each of `tags` can be taken when its turn comes.
pub open spec fn all_readable(r: ReaderView, tags: Seq<TagView>) -> bool
    decreases tags.len(),
{
    tags.len() > 0 ==> mkv_reader::tag_readable(r, tags[0]) && all_readable(
        mkv_reader::with_tag(r, tags[0]),
        tags.skip(1),
    )
}

/// What a reader makes of a whole stream: what it knows behind the header, and
/// then the frames.
pub open spec fn read_stream(tags: Seq<TagView>) -> Result<
    (ReaderView, (Seq<FrameView>, Option<MkvReadError>)),
    MkvReadError,
> {
    match read_header(mkv_reader::fresh_reader(), tags) {
        Err(e) => Err(e),
        Ok((r, rest)) => Ok((r, all_frames(r, rest))),
    }
}

/// Whether each tag of a stream that is behind the header can be taken when its
/// turn comes.
pub open spec fn stream_readable(tags: Seq<TagView>) -> bool {
    match read_header(mkv_reader::fresh_reader(), tags) {
        Err(_) => true,
        Ok((r, rest)) => all_readable(r, rest),
    }
}

/// The tags that a reader does not pass over whatever their place.
pub open spec fn telling(tags: Seq<TagView>) -> Seq<TagView>
    decreases tags.len(),
{
    if tags.len() == 0 {
        tags
    } else if tags[0] is Other {
        telling(tags.skip(1))
    } else {
        seq![tags[0]] + telling(tags.skip(1))
    }
}

/// A header ends at the first Cluster: where no earlier tag fails, the reader
/// knows that it is over, and exactly the tags behind that Cluster are left.
pub proof fn header_ends_at_first_cluster(r: ReaderView, tags: Seq<TagView>, cluster: int)
    requires
        0 <= cluster < tags.len(),
        tags[cluster] is ClusterStart,
        forall|i: int| 0 <= i < cluster ==> !(#[trigger] tags[i] is ClusterStart),
    ensures
        match read_header(r, tags) {
            Ok((next, rest)) => next.header_parsed && rest == tags.skip(cluster + 1),
            Err(e) => exists|i: int|
                0 <= i < cluster && (#[trigger] tags[i] is TrackEntry) && (e
                    is MissingTrackNumber || e is MissingTrackType),
        },
    decreases tags.len(),
{
    if cluster > 0 {
        let rest = tags.skip(1);
        match mkv_reader::with_header_tag(r, tags[0]) {
            Err(_) => {
                assert(tags[0] is TrackEntry);
            },
            Ok(next) => {
                assert forall|i: int| 0 <= i < cluster - 1 implies !(#[trigger] rest[i]
                    is ClusterStart) by {
                    assert(rest[i] == tags[i + 1]);
                }
                header_ends_at_first_cluster(next, rest, cluster - 1);
                assert(rest.skip(cluster) =~= tags.skip(cluster + 1));
                if read_header(next, rest) is Err {
                    let i = choose|i: int|
                        0 <= i < cluster - 1 && (#[trigger] rest[i] is TrackEntry);
                    assert(tags[i + 1] == rest[i]);
                }
            },
        }
    }
}

/// What stands behind the first Cluster has no part in the header.
pub proof fn header_is_read_from_its_tags(
    r: ReaderView,
    tags: Seq<TagView>,
    more: Seq<TagView>,
)
    requires
        exists|i: int| 0 <= i < tags.len() && (#[trigger] tags[i] is ClusterStart),
    ensures
        read_header(r, tags + more) == (match read_header(r, tags) {
            Ok((next, rest)) => Ok::<(ReaderView, Seq<TagView>), MkvReadError>((next, rest + more)),
            Err(e) => Err(e),
        }),
    decreases tags.len(),
{
    let k = choose|i: int| 0 <= i < tags.len() && (#[trigger] tags[i] is ClusterStart);
    assert((tags + more)[0] == tags[0]);
    assert((tags + more).skip(1) =~= tags.skip(1) + more);
    if !(tags[0] is ClusterStart) {
        assert(tags.skip(1)[k - 1] == tags[k]);
        if let Ok(next) = mkv_reader::with_header_tag(r, tags[0]) {
            header_is_read_from_its_tags(next, tags.skip(1), more);
        }
    }
}

/// A stream without a Cluster is an error: that of the first TrackEntry that
/// fails, and else that there is no Cluster.
pub proof fn header_needs_a_cluster(r: ReaderView, tags: Seq<TagView>)
    requires
        !r.header_parsed,
        forall|i: int| 0 <= i < tags.len() ==> !(#[trigger] tags[i] is ClusterStart),
    ensures
        read_header(r, tags) matches Err(e) && (e is NoCluster || e is MissingTrackNumber || e
            is MissingTrackType),
        (forall|i: int| 0 <= i < tags.len() ==> !(#[trigger] tags[i] is TrackEntry))
            ==> read_header(r, tags) == Err::<(ReaderView, Seq<TagView>), MkvReadError>(
            MkvReadError::NoCluster,
        ),
    decreases tags.len(),
{
    if tags.len() > 0 {
        let rest = tags.skip(1);
        if let Ok(next) = mkv_reader::with_header_tag(r, tags[0]) {
            assert forall|i: int| 0 <= i < rest.len() implies !(#[trigger] rest[i]
                is ClusterStart) by {
                assert(rest[i] == tags[i + 1]);
            }
            header_needs_a_cluster(next, rest);
            if forall|i: int| 0 <= i < tags.len() ==> !(#[trigger] tags[i] is TrackEntry) {
                assert forall|i: int| 0 <= i < rest.len() implies !(#[trigger] rest[i]
                    is TrackEntry) by {
                    assert(rest[i] == tags[i + 1]);
                }
            }
        } else {
            assert(tags[0] is TrackEntry);
        }
    }
}

/// A block of a track that is neither the video nor the audio track is passed
/// over: the next frame is that of the tags behind it.
pub proof fn unknown_tracks_are_passed_over(r: ReaderView, tags: Seq<TagView>)
    requires
        tags.len() > 0,
        tags[0] matches TagView::SimpleBlock(data) && mkv_reader::block_frame(r, data) == Ok::<
            Option<FrameView>,
            MkvReadError,
        >(None),
    ensures
        next_frame(r, tags) == next_frame(r, tags.skip(1)),
        all_frames(r, tags) == all_frames(r, tags.skip(1)),
{
}

/// Frames end only with the tags: where there is no next frame, no tag is left,
/// and none of those taken gave a frame.
pub proof fn frames_end_with_the_tags(r: ReaderView, tags: Seq<TagView>)
    ensures
        next_frame(r, tags).0 == Ok::<Option<FrameView>, MkvReadError>(None) <==> all_frames(
            r,
            tags,
        ) == (Seq::<FrameView>::empty(), None::<MkvReadError>),
        next_frame(r, tags).0 == Ok::<Option<FrameView>, MkvReadError>(None) ==> next_frame(
            r,
            tags,
        ).2.len() == 0,
    decreases tags.len(),
{
    if tags.len() > 0 {
        let after = mkv_reader::with_tag(r, tags[0]);
        frames_end_with_the_tags(after, tags.skip(1));
        if let Ok(Some(frame)) = mkv_reader::tag_frame(r, tags[0]) {
            assert(all_frames(r, tags).0.len() > 0);
        }
    }
}

/// Asking for the next frame again and again gives all frames, one by one.
pub proof fn frames_come_one_by_one(r: ReaderView, tags: Seq<TagView>)
    ensures
        ({
            let (outcome, after, rest) = next_frame(r, tags);
            all_frames(r, tags) == (match outcome {
                Err(e) => (Seq::<FrameView>::empty(), Some(e)),
                Ok(None) => (Seq::<FrameView>::empty(), None::<MkvReadError>),
                Ok(Some(frame)) => (
                    seq![frame] + all_frames(after, rest).0,
                    all_frames(after, rest).1,
                ),
            })
        }),
    decreases tags.len(),
{
    if tags.len() > 0 {
        frames_come_one_by_one(mkv_reader::with_tag(r, tags[0]), tags.skip(1));
    }
}

proof fn lemma_other_in_frames(r: ReaderView, tags: Seq<TagView>)
    ensures
        all_frames(r, telling(tags)) == all_frames(r, tags),
        all_readable(r, telling(tags)) == all_readable(r, tags),
    decreases tags.len(),
{
    if tags.len() > 0 {
        let rest = tags.skip(1);
        lemma_other_in_frames(mkv_reader::with_tag(r, tags[0]), rest);
        if !(tags[0] is Other) {
            assert(telling(tags).skip(1) =~= telling(rest));
        }
    }
}

proof fn lemma_other_in_header(r: ReaderView, tags: Seq<TagView>)
    ensures
        read_header(r, telling(tags)) == (match read_header(r, tags) {
            Ok((next, rest)) => Ok::<(ReaderView, Seq<TagView>), MkvReadError>(
                (next, telling(rest)),
            ),
            Err(e) => Err(e),
        }),
    decreases tags.len(),
{
    if tags.len() > 0 {
        let rest = tags.skip(1);
        if !(tags[0] is Other) {
            assert(telling(tags).skip(1) =~= telling(rest));
        }
        if let Ok(next) = mkv_reader::with_header_tag(r, tags[0]) {
            lemma_other_in_header(next, rest);
        }
    }
}

/// Tags that tell nothing, such as where an element ends, change nothing,
/// wherever they stand.
pub proof fn other_tags_change_nothing(a: Seq<TagView>, b: Seq<TagView>)
    requires
        telling(a) == telling(b),
    ensures
        read_stream(a) == read_stream(b),
        stream_readable(a) == stream_readable(b),
{
    let r = mkv_reader::fresh_reader();
    lemma_other_in_header(r, a);
    lemma_other_in_header(r, b);
    match read_header(r, a) {
        Ok((next, rest_a)) => {
            let rest_b = read_header(r, b)->Ok_0.1;
            lemma_other_in_frames(next, rest_a);
            lemma_other_in_frames(next, rest_b);
        },
        Err(_) => {},
    }
}

} // verus!
