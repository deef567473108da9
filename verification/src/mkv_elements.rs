//! How the bytes of a stream divide into elements, and what tags those stand
//! for. The laws on what is read of a stream speak of these tags.

use crate::ebml;
use crate::ebml_ids;
use crate::mkv_reader::{AudioTag, TagView, TrackTagView, VideoTag};
use crate::mkv_tags;
use vstd::prelude::*;

verus! {

/// The largest element that is read: 4 GB.
pub const MAX_ELEMENT_SIZE: u64 = 4_000_000_000;

/// An EBML element: its ID and its data.
pub struct Element {
    pub id: Seq<u8>,
    pub data: Seq<u8>,
}

/// Whether an element whose size reads as `len`, from a VINT of `size` bytes,
/// is read with its data: the size is known, and not too large.
pub open spec fn has_data(len: nat, size: nat) -> bool {
    &&& !ebml::is_unknown_size(len, size)
    &&& len <= MAX_ELEMENT_SIZE
}

/// Whether the data of an element of `len` bytes is read back.
pub open spec fn size_is_read(len: nat) -> bool {
    has_data(len, ebml::vint_len(len))
}

/// Whether an ID tells its own length, as a VINT does.
pub open spec fn is_id(id: Seq<u8>) -> bool {
    &&& 0 < id.len() <= 8
    &&& ebml::vint_width(id[0]) == id.len()
}

/// Whether an element can be told from what follows it.
pub open spec fn is_element(e: Element) -> bool {
    &&& is_id(e.id)
    &&& size_is_read(e.data.len())
}

/// Elements as bytes, one behind the other.
pub open spec fn elements_bytes(elements: Seq<Element>) -> Seq<u8>
    decreases elements.len(),
{
    if elements.len() == 0 {
        Seq::empty()
    } else {
        ebml::element_bytes(elements[0].id, elements[0].data) + elements_bytes(elements.skip(1))
    }
}

/// The head of the element at the front of `bytes`: the number of bytes of its
/// ID, the size that it gives, and the number of bytes of that size.
pub open spec fn element_head(bytes: Seq<u8>) -> Option<(nat, nat, nat)> {
    if bytes.len() == 0 {
        None
    } else {
        let id_len = ebml::vint_width(bytes[0]);
        if id_len > 8 || id_len > bytes.len() {
            None
        } else {
            match ebml::vint_at(bytes.skip(id_len as int)) {
                Err(_) => None,
                Ok((len, size)) => Some((id_len, len, size)),
            }
        }
    }
}

/// The element at the front of `bytes`, and the number of its bytes.
pub open spec fn first_element(bytes: Seq<u8>) -> Option<(Element, nat)> {
    match element_head(bytes) {
        None => None,
        Some((id_len, len, size)) => {
            let start = (id_len + size) as int;
            if !has_data(len, size) || start + len > bytes.len() {
                None
            } else {
                Some(
                    (
                        Element {
                            id: bytes.take(id_len as int),
                            data: bytes.subrange(start, start + len),
                        },
                        (start + len) as nat,
                    ),
                )
            }
        },
    }
}

/// The elements that `bytes` consists of, up to the first that is none.
pub open spec fn parsed_elements(bytes: Seq<u8>) -> Seq<Element>
    decreases bytes.len(),
{
    match first_element(bytes) {
        Some((e, n)) => if 0 < n <= bytes.len() {
            seq![e] + parsed_elements(bytes.skip(n as int))
        } else {
            Seq::empty()
        },
        None => Seq::empty(),
    }
}

/// The head of an element can be told from what follows it.
proof fn lemma_head(id: Seq<u8>, size: Seq<u8>, rest: Seq<u8>)
    requires
        is_id(id),
        ebml::vint_at(size + rest) is Ok,
    ensures
        element_head(id + size + rest) == Some(
            (
                id.len(),
                ebml::vint_at(size + rest)->Ok_0.0,
                ebml::vint_at(size + rest)->Ok_0.1,
            ),
        ),
        (id + size + rest).take(id.len() as int) == id,
{
    let bytes = id + size + rest;
    assert(bytes[0] == id[0]);
    assert(bytes.skip(id.len() as int) =~= size + rest);
    assert(bytes.take(id.len() as int) =~= id);
}

/// An element can be told from whatever follows it.
pub proof fn first_element_read_back(e: Element, rest: Seq<u8>)
    requires
        is_element(e),
    ensures
        first_element(ebml::element_bytes(e.id, e.data) + rest) == Some(
            (e, ebml::element_bytes(e.id, e.data).len()),
        ),
        element_head(ebml::element_bytes(e.id, e.data) + rest) == Some(
            (e.id.len(), e.data.len(), ebml::vint_len(e.data.len())),
        ),
        (ebml::element_bytes(e.id, e.data) + rest).take(e.id.len() as int) == e.id,
{
    let size = ebml::vint_bytes(e.data.len());
    let bytes = ebml::element_bytes(e.id, e.data) + rest;
    ebml::vint_read_back(e.data.len(), e.data + rest);
    lemma_head(e.id, size, e.data + rest);
    assert(bytes =~= e.id + size + (e.data + rest));
    let start = (e.id.len() + size.len()) as int;
    assert(bytes.subrange(start, start + e.data.len()) =~= e.data);
}

/// Elements that are written one behind the other are read back.
pub proof fn elements_read_back(elements: Seq<Element>)
    requires
        forall|i: int| 0 <= i < elements.len() ==> is_element(#[trigger] elements[i]),
    ensures
        parsed_elements(elements_bytes(elements)) == elements,
    decreases elements.len(),
{
    if elements.len() > 0 {
        let e = elements[0];
        let rest = elements.skip(1);
        let bytes = elements_bytes(elements);
        elements_read_back(rest);
        first_element_read_back(e, elements_bytes(rest));
        let n = ebml::element_bytes(e.id, e.data).len();
        assert(bytes.skip(n as int) =~= elements_bytes(rest));
        assert(seq![e] + rest =~= elements);
    } else {
        assert(elements =~= Seq::empty());
    }
}

/// What an element of a Video element says.
pub open spec fn video_tag(e: Element) -> VideoTag {
    if e.id == ebml_ids::PIXEL_WIDTH@ {
        VideoTag::PixelWidth(ebml::be_value(e.data) as u64)
    } else if e.id == ebml_ids::PIXEL_HEIGHT@ {
        VideoTag::PixelHeight(ebml::be_value(e.data) as u64)
    } else {
        VideoTag::Other
    }
}

/// The whole number of hertz that a sampling frequency stands for. It is left
/// open what a frequency is cut to that is none.
pub open spec fn hertz(bits: nat) -> u32 {
    choose|n: u32| ebml::is_binary64(bits, n as nat)
}

/// What an element of an Audio element says.
pub open spec fn audio_tag(e: Element) -> AudioTag {
    if e.id == ebml_ids::SAMPLING_FREQUENCY@ {
        AudioTag::SamplingFrequency(hertz(ebml::be_value(e.data)))
    } else if e.id == ebml_ids::CHANNELS@ {
        AudioTag::Channels(ebml::be_value(e.data) as u64)
    } else {
        AudioTag::Other
    }
}

/// Whether `text` is ASCII text and `data` its bytes.
pub open spec fn is_ascii_text(text: Seq<char>, data: Seq<u8>) -> bool {
    &&& text.len() == data.len()
    &&& forall|i: int| 0 <= i < data.len() ==> #[trigger] text[i] as int == data[i] && data[i] < 0x80
}

/// The ASCII text that bytes stand for. Other text is left open.
pub open spec fn ascii_text(data: Seq<u8>) -> Seq<char> {
    choose|text: Seq<char>| is_ascii_text(text, data)
}

/// What an element of a TrackEntry says.
#[verifier::opaque]
pub open spec fn track_tag(e: Element) -> TrackTagView {
    if e.id == ebml_ids::TRACK_NUMBER@ {
        TrackTagView::TrackNumber(ebml::be_value(e.data) as u64)
    } else if e.id == ebml_ids::TRACK_TYPE@ {
        TrackTagView::TrackType(ebml::be_value(e.data) as u64)
    } else if e.id == ebml_ids::CODEC_ID@ {
        TrackTagView::CodecID(ascii_text(e.data))
    } else if e.id == ebml_ids::VIDEO@ {
        TrackTagView::Video(parsed_elements(e.data).map_values(|c: Element| video_tag(c)))
    } else if e.id == ebml_ids::AUDIO@ {
        TrackTagView::Audio(parsed_elements(e.data).map_values(|c: Element| audio_tag(c)))
    } else {
        TrackTagView::Other
    }
}

/// What the elements of a TrackEntry say.
pub open spec fn track_tags(data: Seq<u8>) -> Seq<TrackTagView> {
    parsed_elements(data).map_values(|e: Element| track_tag(e))
}

/// Whether an element is read as its parts: its head gives a tag, and the
/// elements in it give theirs.
pub open spec fn is_opened(id: Seq<u8>) -> bool {
    ||| id == ebml_ids::EBML@
    ||| id == ebml_ids::SEGMENT@
    ||| id == ebml_ids::INFO@
    ||| id == ebml_ids::TRACKS@
    ||| id == ebml_ids::CLUSTER@
}

/// The tag for the head of an element that is read as its parts.
pub open spec fn opening_tag(id: Seq<u8>) -> TagView {
    if id == ebml_ids::CLUSTER@ {
        TagView::ClusterStart
    } else {
        TagView::Other
    }
}

/// The tag for an element that is read whole.
pub open spec fn element_tag(e: Element) -> TagView {
    if e.id == ebml_ids::TIMESTAMP_SCALE@ {
        TagView::TimestampScale(ebml::be_value(e.data) as u64)
    } else if e.id == ebml_ids::TRACK_ENTRY@ {
        TagView::TrackEntry(track_tags(e.data))
    } else if e.id == ebml_ids::TIMESTAMP@ {
        TagView::Timestamp(ebml::be_value(e.data) as u64)
    } else if e.id == ebml_ids::SIMPLE_BLOCK@ {
        TagView::SimpleBlock(e.data)
    } else {
        TagView::Other
    }
}

/// The first tag that `bytes` give, and the number of bytes that it takes.
pub open spec fn first_tag(bytes: Seq<u8>) -> Option<(TagView, nat)> {
    match element_head(bytes) {
        None => None,
        Some((id_len, _, size)) => if is_opened(bytes.take(id_len as int)) {
            Some((opening_tag(bytes.take(id_len as int)), id_len + size))
        } else {
            match first_element(bytes) {
                Some((e, n)) => Some((element_tag(e), n)),
                None => None,
            }
        },
    }
}

/// The tags that `bytes` give, up to where no element is. That an element has
/// ended gives no tag here: such a tag would tell nothing.
pub open spec fn parsed_tags(bytes: Seq<u8>) -> Seq<TagView>
    decreases bytes.len(),
{
    match first_tag(bytes) {
        Some((tag, n)) => if 0 < n <= bytes.len() {
            seq![tag] + parsed_tags(bytes.skip(n as int))
        } else {
            Seq::empty()
        },
        None => Seq::empty(),
    }
}

/// The tags that `bytes` give, without those that tell nothing.
#[verifier::opaque]
pub open spec fn told_tags(bytes: Seq<u8>) -> Seq<TagView> {
    mkv_tags::telling(parsed_tags(bytes))
}

/// `tag` where it tells something, in front of `rest`.
pub open spec fn behind(tag: TagView, rest: Seq<TagView>) -> Seq<TagView> {
    if tag is Other {
        rest
    } else {
        seq![tag] + rest
    }
}

proof fn lemma_telling_first(tag: TagView, rest: Seq<TagView>)
    ensures
        mkv_tags::telling(seq![tag] + rest) == behind(tag, mkv_tags::telling(rest)),
{
    let tags = seq![tag] + rest;
    assert(tags[0] == tag);
    assert(tags.skip(1) =~= rest);
}

/// An element that is read whole gives its tag, and then come the tags of what
/// follows it.
pub proof fn element_is_told(e: Element, rest: Seq<u8>)
    requires
        is_element(e),
        !is_opened(e.id),
    ensures
        told_tags(ebml::element_bytes(e.id, e.data) + rest) == behind(
            element_tag(e),
            told_tags(rest),
        ),
{
    let bytes = ebml::element_bytes(e.id, e.data) + rest;
    let n = ebml::element_bytes(e.id, e.data).len();
    first_element_read_back(e, rest);
    assert(bytes.skip(n as int) =~= rest);
    reveal(told_tags);
    lemma_telling_first(element_tag(e), parsed_tags(rest));
}

/// The head of an element that is read as its parts gives its tag, and then
/// come the tags of what follows the head.
pub proof fn opening_is_told(id: Seq<u8>, size: Seq<u8>, rest: Seq<u8>)
    requires
        is_id(id),
        is_opened(id),
        ebml::vint_at(size + rest) matches Ok((_, n)) && n == size.len(),
    ensures
        told_tags(id + size + rest) == behind(opening_tag(id), told_tags(rest)),
{
    let bytes = id + size + rest;
    lemma_head(id, size, rest);
    assert(bytes.skip((id.len() + size.len()) as int) =~= rest);
    reveal(told_tags);
    lemma_telling_first(opening_tag(id), parsed_tags(rest));
}

/// The size of an element that is open at its end reads as a size of eight
/// bytes.
pub proof fn lemma_unknown_size_read(rest: Seq<u8>)
    ensures
        ebml::vint_at(ebml_ids::UNKNOWN_SIZE@ + rest) matches Ok((_, n)) && n == 8,
{
    let bytes = ebml_ids::UNKNOWN_SIZE@ + rest;
    assert(bytes[0] == 0x01);
}

/// Bytes that are no more give no tag.
pub proof fn lemma_no_tags()
    ensures
        told_tags(Seq::empty()) == Seq::<TagView>::empty(),
{
    reveal(told_tags);
}

/// A short element takes one byte for its size.
pub proof fn lemma_short_element(id: Seq<u8>, data: Seq<u8>)
    requires
        data.len() < 0x7F,
    ensures
        size_is_read(data.len()),
        ebml::element_bytes(id, data).len() == id.len() + 1 + data.len(),
{
    ebml::lemma_small_size(data.len());
}

/// The bytes of ASCII text stand for that text.
pub proof fn lemma_ascii_text(text: Seq<char>, data: Seq<u8>)
    requires
        is_ascii_text(text, data),
    ensures
        ascii_text(data) == text,
{
    let read = ascii_text(data);
    assert(is_ascii_text(read, data));
    assert forall|i: int| 0 <= i < text.len() implies read[i] == text[i] by {
        assert(read[i] as int == data[i]);
        assert(text[i] as int == data[i]);
    }
    assert(read =~= text);
}

/// The bits of a whole number of hertz stand for that number.
pub proof fn lemma_hertz(bits: nat, n: u32)
    requires
        ebml::is_binary64(bits, n as nat),
    ensures
        hertz(bits) == n,
{
    assert(ebml::is_binary64(bits, hertz(bits) as nat));
    ebml::binary64_is_injective(bits, hertz(bits) as nat, n as nat);
}

} // verus!
