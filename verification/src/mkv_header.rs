//! What a reader makes of the header that a writer wrote.

use crate::audio;
use crate::ebml;
use crate::ebml_ids;
use crate::mkv_elements;
use crate::mkv_elements::Element;
use crate::mkv_reader;
use crate::mkv_reader::{AudioTag, ReaderView, TagView, TrackInfoView, TrackTagView, VideoTag};
use crate::mkv_stream;
use crate::mkv_tags;
use crate::mkv_writer;
use crate::mkv_writer::MkvConfig;
use vstd::prelude::*;

verus! {

/// What the entry of a writer's video track says.
pub open spec fn video_entry(config: MkvConfig) -> Seq<TrackTagView> {
    seq![
        TrackTagView::TrackNumber(mkv_writer::VIDEO_TRACK_NUMBER as u64),
        TrackTagView::Other,
        TrackTagView::TrackType(mkv_writer::TRACK_TYPE_VIDEO as u64),
        TrackTagView::CodecID("V_UNCOMPRESSED"@),
        TrackTagView::Other,
        TrackTagView::Video(
            seq![
                VideoTag::PixelWidth(config.video_width as u64),
                VideoTag::PixelHeight(config.video_height as u64),
                VideoTag::Other,
            ],
        ),
    ]
}

/// What the entry of a writer's audio track says.
pub open spec fn audio_entry(config: MkvConfig) -> Seq<TrackTagView> {
    seq![
        TrackTagView::TrackNumber(mkv_writer::AUDIO_TRACK_NUMBER as u64),
        TrackTagView::Other,
        TrackTagView::TrackType(mkv_writer::TRACK_TYPE_AUDIO as u64),
        TrackTagView::CodecID("A_PCM/INT/LIT"@),
        TrackTagView::Audio(
            seq![
                AudioTag::SamplingFrequency(config.audio_sample_rate),
                AudioTag::Channels(config.audio_channels as u64),
                AudioTag::Other,
            ],
        ),
    ]
}

/// What a writer's header tells.
pub open spec fn header_tags(config: MkvConfig) -> Seq<TagView> {
    seq![
        TagView::TimestampScale(mkv_writer::TIMESTAMP_SCALE_NS),
        TagView::TrackEntry(video_entry(config)),
        TagView::TrackEntry(audio_entry(config)),
    ]
}

/// The track information that stands for a writer's configuration.
pub open spec fn config_info(config: MkvConfig) -> TrackInfoView {
    TrackInfoView {
        video_width: config.video_width,
        video_height: config.video_height,
        video_codec_id: "V_UNCOMPRESSED"@,
        audio_sample_rate: config.audio_sample_rate,
        audio_channels: config.audio_channels,
        audio_codec_id: "A_PCM/INT/LIT"@,
        timecode_scale: mkv_writer::TIMESTAMP_SCALE_NS,
    }
}

/// A reader that has taken a writer's header, up to and with the first Cluster.
pub open spec fn reader_behind_header(config: MkvConfig) -> ReaderView {
    ReaderView {
        info: config_info(config),
        video_track: Some(mkv_writer::VIDEO_TRACK_NUMBER as u64),
        audio_track: Some(mkv_writer::AUDIO_TRACK_NUMBER as u64),
        cluster_ms: 0,
        header_parsed: true,
    }
}

proof fn lemma_video_entry_taken(r: ReaderView, config: MkvConfig)
    ensures
        mkv_reader::with_track_entry(r, video_entry(config)) == Ok::<
            ReaderView,
            mkv_reader::MkvReadError,
        >(
            ReaderView {
                video_track: Some(mkv_writer::VIDEO_TRACK_NUMBER as u64),
                info: TrackInfoView {
                    video_width: config.video_width,
                    video_height: config.video_height,
                    video_codec_id: "V_UNCOMPRESSED"@,
                    ..r.info
                },
                ..r
            },
        ),
{
    let entry = video_entry(config);
    mkv_reader::track_settings_in_any_order(entry, 0);
    mkv_reader::track_settings_in_any_order(entry, 2);
    mkv_reader::track_settings_in_any_order(entry, 3);
    mkv_reader::last_width_counts(entry, 5, 0);
    mkv_reader::last_height_counts(entry, 5, 1);
}

proof fn lemma_audio_entry_taken(r: ReaderView, config: MkvConfig)
    ensures
        mkv_reader::with_track_entry(r, audio_entry(config)) == Ok::<
            ReaderView,
            mkv_reader::MkvReadError,
        >(
            ReaderView {
                audio_track: Some(mkv_writer::AUDIO_TRACK_NUMBER as u64),
                info: TrackInfoView {
                    audio_sample_rate: config.audio_sample_rate,
                    audio_channels: config.audio_channels,
                    audio_codec_id: "A_PCM/INT/LIT"@,
                    ..r.info
                },
                ..r
            },
        ),
{
    let entry = audio_entry(config);
    mkv_reader::track_settings_in_any_order(entry, 0);
    mkv_reader::track_settings_in_any_order(entry, 2);
    mkv_reader::track_settings_in_any_order(entry, 3);
    mkv_reader::last_rate_counts(entry, 4, 0);
    mkv_reader::last_channels_count(entry, 4, 1);
}

/// The elements of the Video element.
pub open spec fn video_settings(config: MkvConfig) -> Seq<Element> {
    seq![
        Element {
            id: ebml_ids::PIXEL_WIDTH@,
            data: ebml::uint_bytes(config.video_width as nat),
        },
        Element {
            id: ebml_ids::PIXEL_HEIGHT@,
            data: ebml::uint_bytes(config.video_height as nat),
        },
        Element { id: ebml_ids::COLOUR_SPACE@, data: ebml_ids::FOURCC_I420@ },
    ]
}

/// The elements of the video track's entry.
pub open spec fn video_track(config: MkvConfig) -> Seq<Element> {
    seq![
        Element {
            id: ebml_ids::TRACK_NUMBER@,
            data: ebml::uint_bytes(mkv_writer::VIDEO_TRACK_NUMBER as nat),
        },
        Element { id: ebml_ids::TRACK_UID@, data: ebml::uint_bytes(1) },
        Element {
            id: ebml_ids::TRACK_TYPE@,
            data: ebml::uint_bytes(mkv_writer::TRACK_TYPE_VIDEO as nat),
        },
        Element { id: ebml_ids::CODEC_ID@, data: ebml_ids::CODEC_UNCOMPRESSED@ },
        Element { id: ebml_ids::CODEC_PRIVATE@, data: ebml_ids::FOURCC_I420@ },
        Element { id: ebml_ids::VIDEO@, data: mkv_writer::video_settings_bytes(config) },
    ]
}

/// The elements of the Audio element.
pub open spec fn audio_settings(config: MkvConfig) -> Seq<Element> {
    seq![
        Element {
            id: ebml_ids::SAMPLING_FREQUENCY@,
            data: ebml::float64_bytes(config.audio_sample_rate as nat),
        },
        Element {
            id: ebml_ids::CHANNELS@,
            data: ebml::uint_bytes(config.audio_channels as nat),
        },
        Element { id: ebml_ids::BIT_DEPTH@, data: ebml::uint_bytes(16) },
    ]
}

/// The elements of the audio track's entry.
pub open spec fn audio_track(config: MkvConfig) -> Seq<Element> {
    seq![
        Element {
            id: ebml_ids::TRACK_NUMBER@,
            data: ebml::uint_bytes(mkv_writer::AUDIO_TRACK_NUMBER as nat),
        },
        Element { id: ebml_ids::TRACK_UID@, data: ebml::uint_bytes(2) },
        Element {
            id: ebml_ids::TRACK_TYPE@,
            data: ebml::uint_bytes(mkv_writer::TRACK_TYPE_AUDIO as nat),
        },
        Element { id: ebml_ids::CODEC_ID@, data: ebml_ids::CODEC_PCM@ },
        Element { id: ebml_ids::AUDIO@, data: mkv_writer::audio_settings_bytes(config) },
    ]
}

proof fn lemma_uint_u32(v: u32)
    ensures
        1 <= ebml::uint_bytes(v as nat).len() <= 4,
        ebml::be_value(ebml::uint_bytes(v as nat)) == v,
{
    reveal_with_fuel(ebml::uint_len, 5);
    ebml::uint_read_back(v as nat);
}

proof fn lemma_uint_u8(v: u8)
    ensures
        ebml::uint_bytes(v as nat).len() == 1,
        ebml::be_value(ebml::uint_bytes(v as nat)) == v,
{
    ebml::lemma_be_bytes_len(v as nat, 1);
    ebml::uint_read_back(v as nat);
}

proof fn lemma_three_elements(a: Element, b: Element, c: Element)
    ensures
        mkv_elements::elements_bytes(seq![a, b, c]) == ebml::element_bytes(a.id, a.data)
            + ebml::element_bytes(b.id, b.data) + ebml::element_bytes(c.id, c.data),
{
    reveal_with_fuel(mkv_elements::elements_bytes, 4);
    let all = seq![a, b, c];
    assert(all.skip(1) =~= seq![b, c]);
    assert(all.skip(1).skip(1) =~= seq![c]);
    assert(all.skip(1).skip(1).skip(1) =~= Seq::empty());
    assert(mkv_elements::elements_bytes(all) =~= ebml::element_bytes(a.id, a.data)
        + ebml::element_bytes(b.id, b.data) + ebml::element_bytes(c.id, c.data));
}

proof fn lemma_two_elements(a: Element, b: Element)
    ensures
        mkv_elements::elements_bytes(seq![a, b]) == ebml::element_bytes(a.id, a.data)
            + ebml::element_bytes(b.id, b.data),
{
    reveal_with_fuel(mkv_elements::elements_bytes, 3);
    let all = seq![a, b];
    assert(all.skip(1) =~= seq![b]);
    assert(all.skip(1).skip(1) =~= Seq::empty());
    assert(mkv_elements::elements_bytes(all) =~= ebml::element_bytes(a.id, a.data)
        + ebml::element_bytes(b.id, b.data));
}

proof fn lemma_elements_concat(a: Seq<Element>, b: Seq<Element>)
    ensures
        mkv_elements::elements_bytes(a + b) == mkv_elements::elements_bytes(a)
            + mkv_elements::elements_bytes(b),
    decreases a.len(),
{
    if a.len() == 0 {
        assert(a + b =~= b);
        assert(mkv_elements::elements_bytes(a) + mkv_elements::elements_bytes(b)
            =~= mkv_elements::elements_bytes(b));
    } else {
        lemma_elements_concat(a.skip(1), b);
        assert((a + b).skip(1) =~= a.skip(1) + b);
        assert(mkv_elements::elements_bytes(a + b) =~= mkv_elements::elements_bytes(a)
            + mkv_elements::elements_bytes(b));
    }
}

proof fn lemma_video_settings(config: MkvConfig)
    ensures
        mkv_writer::video_settings_bytes(config).len() <= 20,
        mkv_elements::parsed_elements(mkv_writer::video_settings_bytes(config)) == video_settings(
            config,
        ),
{
    let es = video_settings(config);
    lemma_uint_u32(config.video_width);
    lemma_uint_u32(config.video_height);
    mkv_elements::lemma_short_element(es[0].id, es[0].data);
    mkv_elements::lemma_short_element(es[1].id, es[1].data);
    mkv_elements::lemma_short_element(es[2].id, es[2].data);
    lemma_three_elements(es[0], es[1], es[2]);
    assert(seq![es[0], es[1], es[2]] =~= es);
    mkv_elements::elements_read_back(es);
}

proof fn lemma_audio_settings(config: MkvConfig)
    ensures
        mkv_writer::audio_settings_bytes(config).len() <= 23,
        mkv_elements::parsed_elements(mkv_writer::audio_settings_bytes(config)) == audio_settings(
            config,
        ),
{
    let es = audio_settings(config);
    ebml::float64_read_back(config.audio_sample_rate);
    lemma_uint_u32(config.audio_channels);
    lemma_uint_u32(16);
    mkv_elements::lemma_short_element(es[0].id, es[0].data);
    mkv_elements::lemma_short_element(es[1].id, es[1].data);
    mkv_elements::lemma_short_element(es[2].id, es[2].data);
    lemma_three_elements(es[0], es[1], es[2]);
    assert(seq![es[0], es[1], es[2]] =~= es);
    mkv_elements::elements_read_back(es);
}

#[verifier::spinoff_prover]
#[verifier::rlimit(30)]
proof fn lemma_video_track(config: MkvConfig)
    ensures
        mkv_writer::video_track_bytes(config).len() <= 55,
        mkv_elements::parsed_elements(mkv_writer::video_track_bytes(config)) == video_track(config),
{
    let es = video_track(config);
    lemma_video_settings(config);
    lemma_uint_u8(1);
    let front = seq![es[0], es[1], es[2]];
    let back = seq![es[3], es[4], es[5]];
    mkv_elements::lemma_short_element(es[0].id, es[0].data);
    mkv_elements::lemma_short_element(es[1].id, es[1].data);
    mkv_elements::lemma_short_element(es[2].id, es[2].data);
    mkv_elements::lemma_short_element(es[3].id, es[3].data);
    mkv_elements::lemma_short_element(es[4].id, es[4].data);
    mkv_elements::lemma_short_element(es[5].id, es[5].data);
    lemma_three_elements(es[0], es[1], es[2]);
    lemma_three_elements(es[3], es[4], es[5]);
    lemma_elements_concat(front, back);
    assert(front + back =~= es);
    assert(mkv_writer::video_track_bytes(config) =~= mkv_elements::elements_bytes(es));
    assert forall|i: int| 0 <= i < es.len() implies mkv_elements::is_element(
        #[trigger] es[i],
    ) by {}
    mkv_elements::elements_read_back(es);
}

#[verifier::spinoff_prover]
#[verifier::rlimit(30)]
proof fn lemma_audio_track(config: MkvConfig)
    ensures
        mkv_writer::audio_track_bytes(config).len() <= 50,
        mkv_elements::parsed_elements(mkv_writer::audio_track_bytes(config)) == audio_track(config),
{
    let es = audio_track(config);
    lemma_audio_settings(config);
    lemma_uint_u8(2);
    let front = seq![es[0], es[1], es[2]];
    let back = seq![es[3], es[4]];
    mkv_elements::lemma_short_element(es[0].id, es[0].data);
    mkv_elements::lemma_short_element(es[1].id, es[1].data);
    mkv_elements::lemma_short_element(es[2].id, es[2].data);
    mkv_elements::lemma_short_element(es[3].id, es[3].data);
    mkv_elements::lemma_short_element(es[4].id, es[4].data);
    lemma_three_elements(es[0], es[1], es[2]);
    lemma_two_elements(es[3], es[4]);
    lemma_elements_concat(front, back);
    assert(front + back =~= es);
    assert(mkv_writer::audio_track_bytes(config) =~= mkv_elements::elements_bytes(es));
    assert forall|i: int| 0 <= i < es.len() implies mkv_elements::is_element(
        #[trigger] es[i],
    ) by {}
    mkv_elements::elements_read_back(es);
}

/// IDs that a reader tells apart are different.
proof fn lemma_ids_differ()
    ensures
        ebml_ids::PIXEL_WIDTH@ != ebml_ids::PIXEL_HEIGHT@,
        ebml_ids::COLOUR_SPACE@.len() == 3,
        ebml_ids::PIXEL_WIDTH@.len() == 1,
        ebml_ids::PIXEL_HEIGHT@.len() == 1,
        ebml_ids::SAMPLING_FREQUENCY@ != ebml_ids::CHANNELS@,
        ebml_ids::BIT_DEPTH@.len() == 2,
        ebml_ids::SAMPLING_FREQUENCY@.len() == 1,
        ebml_ids::CHANNELS@.len() == 1,
        ebml_ids::TRACK_NUMBER@ != ebml_ids::TRACK_TYPE@,
        ebml_ids::TRACK_NUMBER@ != ebml_ids::CODEC_ID@,
        ebml_ids::TRACK_NUMBER@ != ebml_ids::VIDEO@,
        ebml_ids::TRACK_NUMBER@ != ebml_ids::AUDIO@,
        ebml_ids::TRACK_TYPE@ != ebml_ids::CODEC_ID@,
        ebml_ids::TRACK_TYPE@ != ebml_ids::VIDEO@,
        ebml_ids::TRACK_TYPE@ != ebml_ids::AUDIO@,
        ebml_ids::CODEC_ID@ != ebml_ids::VIDEO@,
        ebml_ids::CODEC_ID@ != ebml_ids::AUDIO@,
        ebml_ids::VIDEO@ != ebml_ids::AUDIO@,
        ebml_ids::TRACK_NUMBER@.len() == 1,
        ebml_ids::TRACK_TYPE@.len() == 1,
        ebml_ids::CODEC_ID@.len() == 1,
        ebml_ids::VIDEO@.len() == 1,
        ebml_ids::AUDIO@.len() == 1,
        ebml_ids::TRACK_UID@.len() == 2,
        ebml_ids::CODEC_PRIVATE@.len() == 2,
{
    assert(ebml_ids::PIXEL_WIDTH@[0] != ebml_ids::PIXEL_HEIGHT@[0]);
    assert(ebml_ids::SAMPLING_FREQUENCY@[0] != ebml_ids::CHANNELS@[0]);
    assert(ebml_ids::TRACK_NUMBER@[0] == 0xD7);
    assert(ebml_ids::TRACK_TYPE@[0] == 0x83);
    assert(ebml_ids::CODEC_ID@[0] == 0x86);
    assert(ebml_ids::VIDEO@[0] == 0xE0);
    assert(ebml_ids::AUDIO@[0] == 0xE1);
}

proof fn lemma_codec_texts()
    ensures
        mkv_elements::ascii_text(ebml_ids::CODEC_UNCOMPRESSED@) == "V_UNCOMPRESSED"@,
        mkv_elements::ascii_text(ebml_ids::CODEC_PCM@) == "A_PCM/INT/LIT"@,
{
    reveal_strlit("V_UNCOMPRESSED");
    reveal_strlit("A_PCM/INT/LIT");
    mkv_elements::lemma_ascii_text("V_UNCOMPRESSED"@, ebml_ids::CODEC_UNCOMPRESSED@);
    mkv_elements::lemma_ascii_text("A_PCM/INT/LIT"@, ebml_ids::CODEC_PCM@);
}

/// An element of a TrackEntry that holds a number.
proof fn lemma_number_tags(data: Seq<u8>, n: u64)
    requires
        ebml::be_value(data) == n,
    ensures
        mkv_elements::track_tag(Element { id: ebml_ids::TRACK_NUMBER@, data })
            == TrackTagView::TrackNumber(n),
        mkv_elements::track_tag(Element { id: ebml_ids::TRACK_TYPE@, data })
            == TrackTagView::TrackType(n),
{
    reveal(mkv_elements::track_tag);
    lemma_ids_differ();
}

/// The element of a TrackEntry that names the codec.
proof fn lemma_codec_tag(data: Seq<u8>)
    ensures
        mkv_elements::track_tag(Element { id: ebml_ids::CODEC_ID@, data })
            == TrackTagView::CodecID(mkv_elements::ascii_text(data)),
{
    reveal(mkv_elements::track_tag);
    lemma_ids_differ();
}

/// An element of a TrackEntry that a reader does not know.
proof fn lemma_unknown_tag(e: Element)
    requires
        e.id.len() == 2,
    ensures
        mkv_elements::track_tag(e) is Other,
{
    reveal(mkv_elements::track_tag);
    lemma_ids_differ();
}

/// The Video element is read back.
proof fn lemma_video_tag(config: MkvConfig)
    ensures
        mkv_elements::track_tag(video_track(config)[5]) == video_entry(config)[5],
{
    let settings = video_settings(config);
    lemma_video_settings(config);
    reveal(mkv_elements::track_tag);
    lemma_ids_differ();
    lemma_uint_u32(config.video_width);
    lemma_uint_u32(config.video_height);
    let video = settings.map_values(|c: Element| mkv_elements::video_tag(c));
    assert(video =~= seq![
        VideoTag::PixelWidth(config.video_width as u64),
        VideoTag::PixelHeight(config.video_height as u64),
        VideoTag::Other,
    ]);
}

/// The Audio element is read back.
proof fn lemma_audio_tag(config: MkvConfig)
    ensures
        mkv_elements::track_tag(audio_track(config)[4]) == audio_entry(config)[4],
{
    let settings = audio_settings(config);
    lemma_audio_settings(config);
    reveal(mkv_elements::track_tag);
    lemma_ids_differ();
    lemma_uint_u32(config.audio_channels);
    ebml::float64_read_back(config.audio_sample_rate);
    mkv_elements::lemma_hertz(ebml::be_value(settings[0].data), config.audio_sample_rate);
    let audio = settings.map_values(|c: Element| mkv_elements::audio_tag(c));
    assert(audio =~= seq![
        AudioTag::SamplingFrequency(config.audio_sample_rate),
        AudioTag::Channels(config.audio_channels as u64),
        AudioTag::Other,
    ]);
}

/// The entry of the video track is read back.
#[verifier::spinoff_prover]
#[verifier::rlimit(30)]
pub proof fn video_entry_read_back(config: MkvConfig)
    ensures
        mkv_elements::track_tags(mkv_writer::video_track_bytes(config)) == video_entry(config),
{
    let es = video_track(config);
    lemma_video_track(config);
    lemma_uint_u32(1);
    lemma_codec_texts();
    lemma_number_tags(es[0].data, 1);
    lemma_unknown_tag(es[1]);
    lemma_number_tags(es[2].data, 1);
    lemma_codec_tag(es[3].data);
    lemma_unknown_tag(es[4]);
    lemma_video_tag(config);
    lemma_tags_of(mkv_writer::video_track_bytes(config), es, video_entry(config));
}

/// The entry of the audio track is read back.
#[verifier::spinoff_prover]
#[verifier::rlimit(30)]
pub proof fn audio_entry_read_back(config: MkvConfig)
    ensures
        mkv_elements::track_tags(mkv_writer::audio_track_bytes(config)) == audio_entry(config),
{
    let es = audio_track(config);
    lemma_audio_track(config);
    lemma_uint_u32(2);
    lemma_codec_texts();
    lemma_number_tags(es[0].data, 2);
    lemma_unknown_tag(es[1]);
    lemma_number_tags(es[2].data, 2);
    lemma_codec_tag(es[3].data);
    lemma_audio_tag(config);
    lemma_tags_of(mkv_writer::audio_track_bytes(config), es, audio_entry(config));
}

/// What the elements of a TrackEntry say, from what each of them says.
proof fn lemma_tags_of(data: Seq<u8>, elements: Seq<Element>, tags: Seq<TrackTagView>)
    requires
        mkv_elements::parsed_elements(data) == elements,
        tags.len() == elements.len(),
        forall|i: int|
            0 <= i < tags.len() ==> mkv_elements::track_tag(elements[i]) == #[trigger] tags[i],
    ensures
        mkv_elements::track_tags(data) == tags,
{
    assert(mkv_elements::track_tags(data) =~= tags);
}

/// An element that a reader does not know tells nothing.
proof fn lemma_plain_element(id: Seq<u8>, data: Seq<u8>, rest: Seq<u8>)
    requires
        mkv_elements::is_id(id),
        id.len() == 2,
        data.len() < 0x7F,
    ensures
        mkv_elements::told_tags(ebml::element_bytes(id, data) + rest) == mkv_elements::told_tags(
            rest,
        ),
{
    mkv_elements::lemma_short_element(id, data);
    mkv_elements::element_is_told(Element { id, data }, rest);
}

/// The head of an element that is read as its parts, with `content` in it.
proof fn lemma_opened(id: Seq<u8>, content: Seq<u8>, rest: Seq<u8>)
    requires
        mkv_elements::is_id(id),
        mkv_elements::is_opened(id),
        content.len() < ebml::vint_limit(),
    ensures
        mkv_elements::told_tags(ebml::element_bytes(id, content) + rest) == mkv_elements::behind(
            mkv_elements::opening_tag(id),
            mkv_elements::told_tags(content + rest),
        ),
{
    let size = ebml::vint_bytes(content.len());
    ebml::vint_read_back(content.len(), content + rest);
    mkv_elements::opening_is_told(id, size, content + rest);
    assert(ebml::element_bytes(id, content) + rest =~= id + size + (content + rest));
}

/// The EBML header tells nothing.
#[verifier::spinoff_prover]
#[verifier::rlimit(30)]
proof fn lemma_ebml_header_told(rest: Seq<u8>)
    ensures
        mkv_elements::told_tags(mkv_writer::ebml_header_bytes() + rest)
            == mkv_elements::told_tags(rest),
{
    lemma_uint_u32(1);
    lemma_uint_u32(2);
    lemma_uint_u32(4);
    lemma_uint_u32(8);
    let one = ebml::uint_bytes(1);
    let two = ebml::uint_bytes(2);
    let four = ebml::uint_bytes(4);
    let eight = ebml::uint_bytes(8);
    let name = ebml_ids::DOC_TYPE_MATROSKA@;
    let c1 = ebml::element_bytes(ebml_ids::EBML_VERSION@, one);
    let c2 = ebml::element_bytes(ebml_ids::EBML_READ_VERSION@, one);
    let c3 = ebml::element_bytes(ebml_ids::EBML_MAX_ID_LENGTH@, four);
    let c4 = ebml::element_bytes(ebml_ids::EBML_MAX_SIZE_LENGTH@, eight);
    let c5 = ebml::element_bytes(ebml_ids::DOC_TYPE@, name);
    let c6 = ebml::element_bytes(ebml_ids::DOC_TYPE_VERSION@, four);
    let c7 = ebml::element_bytes(ebml_ids::DOC_TYPE_READ_VERSION@, two);
    let r7 = c7 + rest;
    let r6 = c6 + r7;
    let r5 = c5 + r6;
    let r4 = c4 + r5;
    let r3 = c3 + r4;
    let r2 = c2 + r3;
    lemma_plain_element(ebml_ids::EBML_VERSION@, one, r2);
    lemma_plain_element(ebml_ids::EBML_READ_VERSION@, one, r3);
    lemma_plain_element(ebml_ids::EBML_MAX_ID_LENGTH@, four, r4);
    lemma_plain_element(ebml_ids::EBML_MAX_SIZE_LENGTH@, eight, r5);
    lemma_plain_element(ebml_ids::DOC_TYPE@, name, r6);
    lemma_plain_element(ebml_ids::DOC_TYPE_VERSION@, four, r7);
    lemma_plain_element(ebml_ids::DOC_TYPE_READ_VERSION@, two, rest);
    mkv_elements::lemma_short_element(ebml_ids::EBML_VERSION@, one);
    mkv_elements::lemma_short_element(ebml_ids::EBML_READ_VERSION@, one);
    mkv_elements::lemma_short_element(ebml_ids::EBML_MAX_ID_LENGTH@, four);
    mkv_elements::lemma_short_element(ebml_ids::EBML_MAX_SIZE_LENGTH@, eight);
    mkv_elements::lemma_short_element(ebml_ids::DOC_TYPE@, name);
    mkv_elements::lemma_short_element(ebml_ids::DOC_TYPE_VERSION@, four);
    mkv_elements::lemma_short_element(ebml_ids::DOC_TYPE_READ_VERSION@, two);
    let content = c1 + c2 + c3 + c4 + c5 + c6 + c7;
    lemma_opened(ebml_ids::EBML@, content, rest);
    lemma_regroup_seven(c1, c2, c3, c4, c5, c6, c7, rest);
    assert(ebml_ids::EBML@ != ebml_ids::CLUSTER@) by {
        assert(ebml_ids::EBML@[0] != ebml_ids::CLUSTER@[0]);
    }
}

proof fn lemma_regroup_seven(
    c1: Seq<u8>,
    c2: Seq<u8>,
    c3: Seq<u8>,
    c4: Seq<u8>,
    c5: Seq<u8>,
    c6: Seq<u8>,
    c7: Seq<u8>,
    rest: Seq<u8>,
)
    ensures
        c1 + c2 + c3 + c4 + c5 + c6 + c7 + rest == c1 + (c2 + (c3 + (c4 + (c5 + (c6 + (c7
            + rest)))))),
{
    assert(c1 + c2 + c3 + c4 + c5 + c6 + c7 + rest =~= c1 + (c2 + (c3 + (c4 + (c5 + (c6 + (c7
        + rest)))))));
}

/// The start of the Segment tells nothing.
proof fn lemma_segment_told(rest: Seq<u8>)
    ensures
        mkv_elements::told_tags(mkv_writer::segment_start_bytes() + rest)
            == mkv_elements::told_tags(rest),
{
    mkv_elements::lemma_unknown_size_read(rest);
    mkv_elements::opening_is_told(ebml_ids::SEGMENT@, ebml_ids::UNKNOWN_SIZE@, rest);
    assert(ebml_ids::SEGMENT@ != ebml_ids::CLUSTER@) by {
        assert(ebml_ids::SEGMENT@[0] != ebml_ids::CLUSTER@[0]);
    }
}

/// The Info element tells the scale of timestamps.
proof fn lemma_info_told(rest: Seq<u8>)
    ensures
        mkv_elements::told_tags(mkv_writer::info_bytes() + rest) == seq![
            TagView::TimestampScale(mkv_writer::TIMESTAMP_SCALE_NS),
        ] + mkv_elements::told_tags(rest),
{
    lemma_uint_u32(1_000_000);
    let e = Element {
        id: ebml_ids::TIMESTAMP_SCALE@,
        data: ebml::uint_bytes(mkv_writer::TIMESTAMP_SCALE_NS as nat),
    };
    let name = ebml_ids::APP_NAME@;
    let c1 = ebml::element_bytes(e.id, e.data);
    let c2 = ebml::element_bytes(ebml_ids::MUXING_APP@, name);
    let c3 = ebml::element_bytes(ebml_ids::WRITING_APP@, name);
    mkv_elements::lemma_short_element(e.id, e.data);
    mkv_elements::lemma_short_element(ebml_ids::MUXING_APP@, name);
    mkv_elements::lemma_short_element(ebml_ids::WRITING_APP@, name);
    mkv_elements::element_is_told(e, c2 + (c3 + rest));
    lemma_plain_element(ebml_ids::MUXING_APP@, name, c3 + rest);
    lemma_plain_element(ebml_ids::WRITING_APP@, name, rest);
    lemma_opened(ebml_ids::INFO@, c1 + c2 + c3, rest);
    assert(c1 + c2 + c3 + rest =~= c1 + (c2 + (c3 + rest)));
    assert(ebml_ids::INFO@ != ebml_ids::CLUSTER@) by {
        assert(ebml_ids::INFO@[0] != ebml_ids::CLUSTER@[0]);
    }
}

/// The Tracks element tells the entries of the two tracks.
#[verifier::spinoff_prover]
#[verifier::rlimit(30)]
pub proof fn tracks_read_back(config: MkvConfig, rest: Seq<u8>)
    ensures
        mkv_elements::told_tags(mkv_writer::tracks_bytes(config) + rest) == seq![
            TagView::TrackEntry(video_entry(config)),
            TagView::TrackEntry(audio_entry(config)),
        ] + mkv_elements::told_tags(rest),
{
    let video = Element {
        id: ebml_ids::TRACK_ENTRY@,
        data: mkv_writer::video_track_bytes(config),
    };
    let audio = Element {
        id: ebml_ids::TRACK_ENTRY@,
        data: mkv_writer::audio_track_bytes(config),
    };
    let c1 = ebml::element_bytes(video.id, video.data);
    let c2 = ebml::element_bytes(audio.id, audio.data);
    lemma_video_track(config);
    lemma_audio_track(config);
    video_entry_read_back(config);
    audio_entry_read_back(config);
    mkv_elements::lemma_short_element(video.id, video.data);
    mkv_elements::lemma_short_element(audio.id, audio.data);
    mkv_elements::element_is_told(video, c2 + rest);
    mkv_elements::element_is_told(audio, rest);
    lemma_opened(ebml_ids::TRACKS@, c1 + c2, rest);
    lemma_regroup_two(c1, c2, rest);
    assert(ebml_ids::TRACKS@ != ebml_ids::CLUSTER@) by {
        assert(ebml_ids::TRACKS@[0] != ebml_ids::CLUSTER@[0]);
    }
    lemma_pair(
        TagView::TrackEntry(video_entry(config)),
        TagView::TrackEntry(audio_entry(config)),
        mkv_elements::told_tags(rest),
    );
}

proof fn lemma_pair(a: TagView, b: TagView, rest: Seq<TagView>)
    ensures
        seq![a] + (seq![b] + rest) == seq![a, b] + rest,
{
    assert(seq![a] + (seq![b] + rest) =~= seq![a, b] + rest);
}

proof fn lemma_triple(a: TagView, b: TagView, c: TagView, rest: Seq<TagView>)
    ensures
        seq![a] + (seq![b, c] + rest) == seq![a, b, c] + rest,
{
    assert(seq![a] + (seq![b, c] + rest) =~= seq![a, b, c] + rest);
}

proof fn lemma_regroup_two(c1: Seq<u8>, c2: Seq<u8>, rest: Seq<u8>)
    ensures
        c1 + c2 + rest == c1 + (c2 + rest),
{
    assert(c1 + c2 + rest =~= c1 + (c2 + rest));
}

proof fn lemma_regroup_four(c1: Seq<u8>, c2: Seq<u8>, c3: Seq<u8>, c4: Seq<u8>, rest: Seq<u8>)
    ensures
        c1 + c2 + c3 + c4 + rest == c1 + (c2 + (c3 + (c4 + rest))),
{
    assert(c1 + c2 + c3 + c4 + rest =~= c1 + (c2 + (c3 + (c4 + rest))));
}

/// A writer's header tells the scale of timestamps and the two tracks, and then
/// comes what follows it.
pub proof fn header_tags_read_back(config: MkvConfig, rest: Seq<u8>)
    ensures
        mkv_elements::told_tags(mkv_writer::header_bytes(config) + rest) == header_tags(config)
            + mkv_elements::told_tags(rest),
{
    let ebml = mkv_writer::ebml_header_bytes();
    let segment = mkv_writer::segment_start_bytes();
    let info = mkv_writer::info_bytes();
    let tracks = mkv_writer::tracks_bytes(config);
    tracks_read_back(config, rest);
    lemma_info_told(tracks + rest);
    lemma_segment_told(info + (tracks + rest));
    lemma_ebml_header_told(segment + (info + (tracks + rest)));
    lemma_regroup_four(ebml, segment, info, tracks, rest);
    lemma_triple(
        TagView::TimestampScale(mkv_writer::TIMESTAMP_SCALE_NS),
        TagView::TrackEntry(video_entry(config)),
        TagView::TrackEntry(audio_entry(config)),
        mkv_elements::told_tags(rest),
    );
}

/// A fresh reader that is told a writer's header and then of a Cluster knows
/// the writer's configuration, and is ready for its frames.
pub proof fn header_read_back(config: MkvConfig, rest: Seq<TagView>)
    ensures
        mkv_tags::read_header(
            mkv_reader::fresh_reader(),
            header_tags(config) + (seq![TagView::ClusterStart] + rest),
        ) == Ok::<(ReaderView, Seq<TagView>), mkv_reader::MkvReadError>(
            (reader_behind_header(config), rest),
        ),
        mkv_stream::reads_writer(reader_behind_header(config)),
{
    let tags = header_tags(config) + (seq![TagView::ClusterStart] + rest);
    let r0 = mkv_reader::fresh_reader();
    let r1 = mkv_reader::with_header_tag(r0, tags[0])->Ok_0;
    lemma_video_entry_taken(r1, config);
    let r2 = mkv_reader::with_header_tag(r1, tags[1])->Ok_0;
    lemma_audio_entry_taken(r2, config);
    reveal_with_fuel(mkv_tags::read_header, 5);
    assert(tags.skip(1)[0] == tags[1]);
    assert(tags.skip(1).skip(1)[0] == tags[2]);
    assert(tags.skip(1).skip(1).skip(1)[0] == TagView::ClusterStart);
    assert(tags.skip(1).skip(1).skip(1).skip(1) =~= rest);
}

/// A fresh reader that is told a writer's header alone misses a Cluster.
pub proof fn header_alone_has_no_cluster(config: MkvConfig)
    ensures
        mkv_tags::read_header(mkv_reader::fresh_reader(), header_tags(config)) == Err::<
            (ReaderView, Seq<TagView>),
            mkv_reader::MkvReadError,
        >(mkv_reader::MkvReadError::NoCluster),
{
    let tags = header_tags(config);
    let r0 = mkv_reader::fresh_reader();
    let r1 = mkv_reader::with_header_tag(r0, tags[0])->Ok_0;
    lemma_video_entry_taken(r1, config);
    let r2 = mkv_reader::with_header_tag(r1, tags[1])->Ok_0;
    lemma_audio_entry_taken(r2, config);
    reveal_with_fuel(mkv_tags::read_header, 5);
    assert(tags.skip(1)[0] == tags[1]);
    assert(tags.skip(1).skip(1)[0] == tags[2]);
    assert(tags.skip(1).skip(1).skip(1).len() == 0);
}

/// Whether the element at `i`, and no other, has the ID `id`.
pub open spec fn only_at(elements: Seq<Element>, i: int, id: Seq<u8>) -> bool {
    &&& 0 <= i < elements.len()
    &&& elements[i].id == id
    &&& forall|j: int| 0 <= j < elements.len() && j != i ==> (#[trigger] elements[j]).id != id
}

/// The number in the data of an element.
pub open spec fn number_in(e: Element) -> nat {
    ebml::be_value(e.data)
}

proof fn lemma_track_ids()
    ensures
        ebml_ids::TRACK_NUMBER@ == seq![0xD7u8],
        ebml_ids::TRACK_UID@ == seq![0x73u8, 0xC5u8],
        ebml_ids::TRACK_TYPE@ == seq![0x83u8],
        ebml_ids::CODEC_ID@ == seq![0x86u8],
        ebml_ids::CODEC_PRIVATE@ == seq![0x63u8, 0xA2u8],
        ebml_ids::VIDEO@ == seq![0xE0u8],
        ebml_ids::AUDIO@ == seq![0xE1u8],
{
    assert(ebml_ids::TRACK_NUMBER@ =~= seq![0xD7u8]);
    assert(ebml_ids::TRACK_UID@ =~= seq![0x73u8, 0xC5u8]);
    assert(ebml_ids::TRACK_TYPE@ =~= seq![0x83u8]);
    assert(ebml_ids::CODEC_ID@ =~= seq![0x86u8]);
    assert(ebml_ids::CODEC_PRIVATE@ =~= seq![0x63u8, 0xA2u8]);
    assert(ebml_ids::VIDEO@ =~= seq![0xE0u8]);
    assert(ebml_ids::AUDIO@ =~= seq![0xE1u8]);
}

proof fn lemma_audio_settings_values(es: Seq<Element>, config: MkvConfig)
    requires
        es == audio_settings(config),
    ensures
        es.len() == 3,
        only_at(es, 0, seq![0xB5u8]),
        es[0].data.len() == 8,
        ebml::is_binary64(number_in(es[0]), config.audio_sample_rate as nat),
        only_at(es, 1, seq![0x9Fu8]),
        number_in(es[1]) == config.audio_channels,
        only_at(es, 2, seq![0x62u8, 0x64u8]),
        number_in(es[2]) == 16,
{
    ebml::float64_read_back(config.audio_sample_rate);
    lemma_uint_u32(config.audio_channels);
    lemma_uint_u8(16);
    assert(es[0].id =~= seq![0xB5u8]);
    assert(es[1].id =~= seq![0x9Fu8]);
    assert(es[2].id =~= seq![0x62u8, 0x64u8]);
    assert(es[0].id[0] != es[1].id[0]);
    assert(es[2].id.len() == 2);
}

/// The Audio element gives the sample rate (0xB5) as a double, the number of
/// channels (0x9F) and the bits of a sample (0x6264), each once: the rate and the
/// channels of the configuration, and 16 bits, as many as a sample is written in.
pub proof fn audio_settings_are_told(config: MkvConfig, sample: i16)
    ensures
        ({
            let es = mkv_elements::parsed_elements(mkv_writer::audio_settings_bytes(config));
            &&& es.len() == 3
            &&& only_at(es, 0, seq![0xB5u8])
            &&& es[0].data.len() == 8
            &&& ebml::is_binary64(number_in(es[0]), config.audio_sample_rate as nat)
            &&& only_at(es, 1, seq![0x9Fu8])
            &&& number_in(es[1]) == config.audio_channels
            &&& only_at(es, 2, seq![0x62u8, 0x64u8])
            &&& number_in(es[2]) == 16
        }),
        8 * audio::sample_bytes(seq![sample]).len() == 16,
{
    lemma_audio_settings(config);
    lemma_audio_settings_values(
        mkv_elements::parsed_elements(mkv_writer::audio_settings_bytes(config)),
        config,
    );
}

proof fn lemma_video_settings_values(es: Seq<Element>, config: MkvConfig)
    requires
        es == video_settings(config),
    ensures
        es.len() == 3,
        only_at(es, 0, seq![0xB0u8]),
        number_in(es[0]) == config.video_width,
        only_at(es, 1, seq![0xBAu8]),
        number_in(es[1]) == config.video_height,
        only_at(es, 2, seq![0x2Eu8, 0xB5u8, 0x24u8]),
        mkv_elements::is_ascii_text("I420"@, es[2].data),
{
    lemma_uint_u32(config.video_width);
    lemma_uint_u32(config.video_height);
    reveal_strlit("I420");
    assert(es[0].id =~= seq![0xB0u8]);
    assert(es[1].id =~= seq![0xBAu8]);
    assert(es[2].id =~= seq![0x2Eu8, 0xB5u8, 0x24u8]);
    assert(es[0].id[0] != es[1].id[0]);
    assert(es[2].id.len() == 3);
}

/// The Video element gives the width (0xB0), the height (0xBA) and the colour
/// space (0x2EB524), each once: the size of the configuration, and I420.
pub proof fn video_settings_are_told(config: MkvConfig)
    ensures
        ({
            let es = mkv_elements::parsed_elements(mkv_writer::video_settings_bytes(config));
            &&& es.len() == 3
            &&& only_at(es, 0, seq![0xB0u8])
            &&& number_in(es[0]) == config.video_width
            &&& only_at(es, 1, seq![0xBAu8])
            &&& number_in(es[1]) == config.video_height
            &&& only_at(es, 2, seq![0x2Eu8, 0xB5u8, 0x24u8])
            &&& mkv_elements::is_ascii_text("I420"@, es[2].data)
        }),
{
    lemma_video_settings(config);
    lemma_video_settings_values(
        mkv_elements::parsed_elements(mkv_writer::video_settings_bytes(config)),
        config,
    );
}

proof fn lemma_audio_track_values(es: Seq<Element>, config: MkvConfig)
    requires
        es == audio_track(config),
    ensures
        es.len() == 5,
        only_at(es, 0, seq![0xD7u8]),
        number_in(es[0]) == 2,
        only_at(es, 1, seq![0x73u8, 0xC5u8]),
        number_in(es[1]) == 2,
        only_at(es, 2, seq![0x83u8]),
        number_in(es[2]) == 2,
        only_at(es, 3, seq![0x86u8]),
        mkv_elements::is_ascii_text("A_PCM/INT/LIT"@, es[3].data),
        only_at(es, 4, seq![0xE1u8]),
        es[4].data == mkv_writer::audio_settings_bytes(config),
{
    lemma_uint_u8(2);
    lemma_track_ids();
    lemma_ids_differ();
    reveal_strlit("A_PCM/INT/LIT");
}

/// The entry of the audio track gives its number (0xD7), its UID (0x73C5), its
/// type (0x83), its codec (0x86) and its settings (0xE1), each once: track 2, of
/// the type of audio, in PCM of whole numbers in little-endian order.
#[verifier::spinoff_prover]
#[verifier::rlimit(30)]
pub proof fn audio_track_is_told(config: MkvConfig)
    ensures
        ({
            let es = mkv_elements::parsed_elements(mkv_writer::audio_track_bytes(config));
            &&& es.len() == 5
            &&& only_at(es, 0, seq![0xD7u8])
            &&& number_in(es[0]) == 2
            &&& only_at(es, 1, seq![0x73u8, 0xC5u8])
            &&& number_in(es[1]) == 2
            &&& only_at(es, 2, seq![0x83u8])
            &&& number_in(es[2]) == 2
            &&& only_at(es, 3, seq![0x86u8])
            &&& mkv_elements::is_ascii_text("A_PCM/INT/LIT"@, es[3].data)
            &&& only_at(es, 4, seq![0xE1u8])
            &&& es[4].data == mkv_writer::audio_settings_bytes(config)
        }),
{
    lemma_audio_track(config);
    lemma_audio_track_values(
        mkv_elements::parsed_elements(mkv_writer::audio_track_bytes(config)),
        config,
    );
}

proof fn lemma_video_track_values(es: Seq<Element>, config: MkvConfig)
    requires
        es == video_track(config),
    ensures
        es.len() == 6,
        only_at(es, 0, seq![0xD7u8]),
        number_in(es[0]) == 1,
        only_at(es, 1, seq![0x73u8, 0xC5u8]),
        number_in(es[1]) == 1,
        only_at(es, 2, seq![0x83u8]),
        number_in(es[2]) == 1,
        only_at(es, 3, seq![0x86u8]),
        mkv_elements::is_ascii_text("V_UNCOMPRESSED"@, es[3].data),
        only_at(es, 4, seq![0x63u8, 0xA2u8]),
        mkv_elements::is_ascii_text("I420"@, es[4].data),
        only_at(es, 5, seq![0xE0u8]),
        es[5].data == mkv_writer::video_settings_bytes(config),
{
    lemma_uint_u8(1);
    lemma_track_ids();
    lemma_ids_differ();
    reveal_strlit("V_UNCOMPRESSED");
    reveal_strlit("I420");
    assert(ebml_ids::TRACK_UID@[0] != ebml_ids::CODEC_PRIVATE@[0]);
}

/// The entry of the video track gives its number (0xD7), its UID (0x73C5), its
/// type (0x83), its codec (0x86), what the codec is to know (0x63A2) and its
/// settings (0xE0), each once: track 1, of the type of video, uncompressed, in
/// I420.
#[verifier::spinoff_prover]
#[verifier::rlimit(30)]
pub proof fn video_track_is_told(config: MkvConfig)
    ensures
        ({
            let es = mkv_elements::parsed_elements(mkv_writer::video_track_bytes(config));
            &&& es.len() == 6
            &&& only_at(es, 0, seq![0xD7u8])
            &&& number_in(es[0]) == 1
            &&& only_at(es, 1, seq![0x73u8, 0xC5u8])
            &&& number_in(es[1]) == 1
            &&& only_at(es, 2, seq![0x83u8])
            &&& number_in(es[2]) == 1
            &&& only_at(es, 3, seq![0x86u8])
            &&& mkv_elements::is_ascii_text("V_UNCOMPRESSED"@, es[3].data)
            &&& only_at(es, 4, seq![0x63u8, 0xA2u8])
            &&& mkv_elements::is_ascii_text("I420"@, es[4].data)
            &&& only_at(es, 5, seq![0xE0u8])
            &&& es[5].data == mkv_writer::video_settings_bytes(config)
        }),
{
    lemma_video_track(config);
    lemma_video_track_values(
        mkv_elements::parsed_elements(mkv_writer::video_track_bytes(config)),
        config,
    );
}

/// An element that holds elements is read as such.
proof fn lemma_nested(id: Seq<u8>, inner: Seq<Element>, content: Seq<u8>)
    requires
        mkv_elements::is_id(id),
        content == mkv_elements::elements_bytes(inner),
        content.len() < 0x7F,
        forall|i: int| 0 <= i < inner.len() ==> mkv_elements::is_element(#[trigger] inner[i]),
    ensures
        mkv_elements::parsed_elements(ebml::element_bytes(id, content)) == seq![
            Element { id, data: content },
        ],
        mkv_elements::parsed_elements(content) == inner,
{
    mkv_elements::elements_read_back(inner);
    mkv_elements::lemma_short_element(id, content);
    let all = seq![Element { id, data: content }];
    reveal_with_fuel(mkv_elements::elements_bytes, 2);
    assert(all.skip(1) =~= Seq::empty());
    assert(mkv_elements::elements_bytes(all) =~= ebml::element_bytes(id, content));
    mkv_elements::elements_read_back(all);
}

/// The entries of the two tracks.
pub open spec fn track_entries(config: MkvConfig) -> Seq<Element> {
    seq![
        Element { id: ebml_ids::TRACK_ENTRY@, data: mkv_writer::video_track_bytes(config) },
        Element { id: ebml_ids::TRACK_ENTRY@, data: mkv_writer::audio_track_bytes(config) },
    ]
}

proof fn lemma_track_lens(config: MkvConfig)
    ensures
        mkv_writer::video_track_bytes(config).len() <= 55,
        mkv_writer::audio_track_bytes(config).len() <= 50,
{
    lemma_video_track(config);
    lemma_audio_track(config);
}

#[verifier::spinoff_prover]
#[verifier::rlimit(30)]
proof fn lemma_tracks_content(config: MkvConfig)
    ensures
        mkv_writer::tracks_bytes(config) == ebml::element_bytes(
            ebml_ids::TRACKS@,
            mkv_elements::elements_bytes(track_entries(config)),
        ),
        mkv_elements::elements_bytes(track_entries(config)).len() < 0x7F,
        forall|i: int|
            0 <= i < 2 ==> mkv_elements::is_element(#[trigger] track_entries(config)[i]),
{
    let es = track_entries(config);
    lemma_track_lens(config);
    mkv_elements::lemma_short_element(es[0].id, es[0].data);
    mkv_elements::lemma_short_element(es[1].id, es[1].data);
    lemma_two_elements(es[0], es[1]);
    assert(seq![es[0], es[1]] =~= es);
}

proof fn lemma_tracks_values(es: Seq<Element>, config: MkvConfig)
    requires
        es == track_entries(config),
    ensures
        es.len() == 2,
        es[0].id == seq![0xAEu8],
        es[0].data == mkv_writer::video_track_bytes(config),
        es[1].id == seq![0xAEu8],
        es[1].data == mkv_writer::audio_track_bytes(config),
{
    assert(ebml_ids::TRACK_ENTRY@ =~= seq![0xAEu8]);
}

/// The Tracks element (0x1654AE6B) holds two entries (0xAE): the video track's,
/// then the audio track's.
#[verifier::spinoff_prover]
#[verifier::rlimit(30)]
pub proof fn tracks_are_told(config: MkvConfig)
    ensures
        ({
            let es = mkv_elements::parsed_elements(mkv_writer::tracks_bytes(config));
            let entries = mkv_elements::parsed_elements(es[0].data);
            &&& es.len() == 1
            &&& es[0].id == seq![0x16u8, 0x54u8, 0xAEu8, 0x6Bu8]
            &&& entries.len() == 2
            &&& entries[0].id == seq![0xAEu8]
            &&& entries[0].data == mkv_writer::video_track_bytes(config)
            &&& entries[1].id == seq![0xAEu8]
            &&& entries[1].data == mkv_writer::audio_track_bytes(config)
        }),
{
    let inner = track_entries(config);
    lemma_tracks_content(config);
    lemma_nested(ebml_ids::TRACKS@, inner, mkv_elements::elements_bytes(inner));
    lemma_tracks_values(
        mkv_elements::parsed_elements(mkv_elements::elements_bytes(inner)),
        config,
    );
    assert(ebml_ids::TRACKS@ =~= seq![0x16u8, 0x54u8, 0xAEu8, 0x6Bu8]);
}

/// The elements of the Info element.
pub open spec fn info_parts() -> Seq<Element> {
    seq![
        Element {
            id: ebml_ids::TIMESTAMP_SCALE@,
            data: ebml::uint_bytes(mkv_writer::TIMESTAMP_SCALE_NS as nat),
        },
        Element { id: ebml_ids::MUXING_APP@, data: ebml_ids::APP_NAME@ },
        Element { id: ebml_ids::WRITING_APP@, data: ebml_ids::APP_NAME@ },
    ]
}

proof fn lemma_info_values(es: Seq<Element>)
    requires
        es == info_parts(),
    ensures
        es.len() == 3,
        only_at(es, 0, seq![0x2Au8, 0xD7u8, 0xB1u8]),
        number_in(es[0]) == 1_000_000,
        only_at(es, 1, seq![0x4Du8, 0x80u8]),
        mkv_elements::is_ascii_text("whep-client"@, es[1].data),
        only_at(es, 2, seq![0x57u8, 0x41u8]),
        mkv_elements::is_ascii_text("whep-client"@, es[2].data),
{
    lemma_uint_u32(1_000_000);
    assert(es[0].id =~= seq![0x2Au8, 0xD7u8, 0xB1u8]);
    assert(es[1].id =~= seq![0x4Du8, 0x80u8]);
    assert(es[2].id =~= seq![0x57u8, 0x41u8]);
    assert(es[0].id.len() == 3);
    assert(es[1].id[0] != es[2].id[0]);
    reveal_strlit("whep-client");
}

/// The Info element (0x1549A966) gives the nanoseconds of a tick (0x2AD7B1), a
/// millisecond, and the names of the muxer (0x4D80) and of the writer (0x5741),
/// each once.
#[verifier::spinoff_prover]
#[verifier::rlimit(30)]
pub proof fn info_is_told()
    ensures
        ({
            let es = mkv_elements::parsed_elements(mkv_writer::info_bytes());
            let parts = mkv_elements::parsed_elements(es[0].data);
            &&& es.len() == 1
            &&& es[0].id == seq![0x15u8, 0x49u8, 0xA9u8, 0x66u8]
            &&& parts.len() == 3
            &&& only_at(parts, 0, seq![0x2Au8, 0xD7u8, 0xB1u8])
            &&& number_in(parts[0]) == 1_000_000
            &&& only_at(parts, 1, seq![0x4Du8, 0x80u8])
            &&& mkv_elements::is_ascii_text("whep-client"@, parts[1].data)
            &&& only_at(parts, 2, seq![0x57u8, 0x41u8])
            &&& mkv_elements::is_ascii_text("whep-client"@, parts[2].data)
        }),
{
    let inner = info_parts();
    lemma_uint_u32(1_000_000);
    mkv_elements::lemma_short_element(inner[0].id, inner[0].data);
    mkv_elements::lemma_short_element(inner[1].id, inner[1].data);
    mkv_elements::lemma_short_element(inner[2].id, inner[2].data);
    lemma_three_elements(inner[0], inner[1], inner[2]);
    assert(seq![inner[0], inner[1], inner[2]] =~= inner);
    let content = ebml::element_bytes(inner[0].id, inner[0].data) + ebml::element_bytes(
        inner[1].id,
        inner[1].data,
    ) + ebml::element_bytes(inner[2].id, inner[2].data);
    lemma_nested(ebml_ids::INFO@, inner, content);
    lemma_info_values(mkv_elements::parsed_elements(content));
    assert(ebml_ids::INFO@ =~= seq![0x15u8, 0x49u8, 0xA9u8, 0x66u8]);
}

/// The elements of the EBML header.
pub open spec fn ebml_header_parts() -> Seq<Element> {
    seq![
        Element { id: ebml_ids::EBML_VERSION@, data: ebml::uint_bytes(1) },
        Element { id: ebml_ids::EBML_READ_VERSION@, data: ebml::uint_bytes(1) },
        Element { id: ebml_ids::EBML_MAX_ID_LENGTH@, data: ebml::uint_bytes(4) },
        Element { id: ebml_ids::EBML_MAX_SIZE_LENGTH@, data: ebml::uint_bytes(8) },
        Element { id: ebml_ids::DOC_TYPE@, data: ebml_ids::DOC_TYPE_MATROSKA@ },
        Element { id: ebml_ids::DOC_TYPE_VERSION@, data: ebml::uint_bytes(4) },
        Element { id: ebml_ids::DOC_TYPE_READ_VERSION@, data: ebml::uint_bytes(2) },
    ]
}

proof fn lemma_ebml_header_values(es: Seq<Element>)
    requires
        es == ebml_header_parts(),
    ensures
        es.len() == 7,
        only_at(es, 0, seq![0x42u8, 0x86u8]),
        number_in(es[0]) == 1,
        only_at(es, 1, seq![0x42u8, 0xF7u8]),
        number_in(es[1]) == 1,
        only_at(es, 2, seq![0x42u8, 0xF2u8]),
        number_in(es[2]) == 4,
        only_at(es, 3, seq![0x42u8, 0xF3u8]),
        number_in(es[3]) == 8,
        only_at(es, 4, seq![0x42u8, 0x82u8]),
        mkv_elements::is_ascii_text("matroska"@, es[4].data),
        only_at(es, 5, seq![0x42u8, 0x87u8]),
        number_in(es[5]) == 4,
        only_at(es, 6, seq![0x42u8, 0x85u8]),
        number_in(es[6]) == 2,
{
    lemma_uint_u8(1);
    lemma_uint_u8(2);
    lemma_uint_u8(4);
    lemma_uint_u8(8);
    assert(es[0].id =~= seq![0x42u8, 0x86u8]);
    assert(es[1].id =~= seq![0x42u8, 0xF7u8]);
    assert(es[2].id =~= seq![0x42u8, 0xF2u8]);
    assert(es[3].id =~= seq![0x42u8, 0xF3u8]);
    assert(es[4].id =~= seq![0x42u8, 0x82u8]);
    assert(es[5].id =~= seq![0x42u8, 0x87u8]);
    assert(es[6].id =~= seq![0x42u8, 0x85u8]);
    assert forall|i: int, j: int| 0 <= i < 7 && 0 <= j < 7 && i != j implies (
    #[trigger] es[i]).id != (#[trigger] es[j]).id by {
        assert(es[i].id[1] != es[j].id[1]);
    }
    reveal_strlit("matroska");
}

#[verifier::spinoff_prover]
#[verifier::rlimit(30)]
proof fn lemma_ebml_header_content()
    ensures
        mkv_writer::ebml_header_bytes() == ebml::element_bytes(
            ebml_ids::EBML@,
            mkv_elements::elements_bytes(ebml_header_parts()),
        ),
        mkv_elements::elements_bytes(ebml_header_parts()).len() < 0x7F,
        forall|i: int|
            0 <= i < 7 ==> mkv_elements::is_element(#[trigger] ebml_header_parts()[i]),
{
    lemma_uint_u8(1);
    lemma_uint_u8(2);
    lemma_uint_u8(4);
    lemma_uint_u8(8);
    let es = ebml_header_parts();
    let b1 = ebml::element_bytes(es[0].id, es[0].data);
    let b2 = ebml::element_bytes(es[1].id, es[1].data);
    let b3 = ebml::element_bytes(es[2].id, es[2].data);
    let b4 = ebml::element_bytes(es[3].id, es[3].data);
    let b5 = ebml::element_bytes(es[4].id, es[4].data);
    let b6 = ebml::element_bytes(es[5].id, es[5].data);
    let b7 = ebml::element_bytes(es[6].id, es[6].data);
    mkv_elements::lemma_short_element(es[0].id, es[0].data);
    mkv_elements::lemma_short_element(es[1].id, es[1].data);
    mkv_elements::lemma_short_element(es[2].id, es[2].data);
    mkv_elements::lemma_short_element(es[3].id, es[3].data);
    mkv_elements::lemma_short_element(es[4].id, es[4].data);
    mkv_elements::lemma_short_element(es[5].id, es[5].data);
    mkv_elements::lemma_short_element(es[6].id, es[6].data);
    let front = seq![es[0], es[1], es[2]];
    let middle = seq![es[3], es[4]];
    let back = seq![es[5], es[6]];
    lemma_three_elements(es[0], es[1], es[2]);
    lemma_two_elements(es[3], es[4]);
    lemma_two_elements(es[5], es[6]);
    lemma_elements_concat(front, middle);
    lemma_elements_concat(front + middle, back);
    assert(front + middle + back =~= es);
    assert(b1 + b2 + b3 + (b4 + b5) + (b6 + b7) =~= b1 + b2 + b3 + b4 + b5 + b6 + b7);
}

/// The EBML header (0x1A45DFA3) gives the version of EBML (0x4286) and that for
/// readers (0x42F7), the longest ID (0x42F2) and size (0x42F3), the document's
/// type (0x4282), its version (0x4287) and that for readers (0x4285), each once.
/// It is EBML 1 with IDs of up to four and sizes of up to eight bytes, and
/// Matroska of version 4, for readers of version 2 on.
#[verifier::spinoff_prover]
#[verifier::rlimit(30)]
pub proof fn ebml_header_is_told()
    ensures
        ({
            let es = mkv_elements::parsed_elements(mkv_writer::ebml_header_bytes());
            let parts = mkv_elements::parsed_elements(es[0].data);
            &&& es.len() == 1
            &&& es[0].id == seq![0x1Au8, 0x45u8, 0xDFu8, 0xA3u8]
            &&& parts.len() == 7
            &&& only_at(parts, 0, seq![0x42u8, 0x86u8])
            &&& number_in(parts[0]) == 1
            &&& only_at(parts, 1, seq![0x42u8, 0xF7u8])
            &&& number_in(parts[1]) == 1
            &&& only_at(parts, 2, seq![0x42u8, 0xF2u8])
            &&& number_in(parts[2]) == 4
            &&& only_at(parts, 3, seq![0x42u8, 0xF3u8])
            &&& number_in(parts[3]) == 8
            &&& only_at(parts, 4, seq![0x42u8, 0x82u8])
            &&& mkv_elements::is_ascii_text("matroska"@, parts[4].data)
            &&& only_at(parts, 5, seq![0x42u8, 0x87u8])
            &&& number_in(parts[5]) == 4
            &&& only_at(parts, 6, seq![0x42u8, 0x85u8])
            &&& number_in(parts[6]) == 2
        }),
{
    let inner = ebml_header_parts();
    lemma_ebml_header_content();
    lemma_nested(ebml_ids::EBML@, inner, mkv_elements::elements_bytes(inner));
    lemma_ebml_header_values(mkv_elements::parsed_elements(mkv_elements::elements_bytes(inner)));
    assert(ebml_ids::EBML@ =~= seq![0x1Au8, 0x45u8, 0xDFu8, 0xA3u8]);
}

/// A stream starts with the EBML header. Behind it stand the Segment
/// (0x18538067), whose size is left open, and in it the Info element and the
/// Tracks element.
pub proof fn header_has_four_parts(config: MkvConfig)
    ensures
        mkv_writer::header_bytes(config) == mkv_writer::ebml_header_bytes() + seq![
            0x18u8,
            0x53u8,
            0x80u8,
            0x67u8,
            0x01u8,
            0xFFu8,
            0xFFu8,
            0xFFu8,
            0xFFu8,
            0xFFu8,
            0xFFu8,
            0xFFu8,
        ] + mkv_writer::info_bytes() + mkv_writer::tracks_bytes(config),
{
    assert(mkv_writer::segment_start_bytes() =~= seq![
        0x18u8,
        0x53u8,
        0x80u8,
        0x67u8,
        0x01u8,
        0xFFu8,
        0xFFu8,
        0xFFu8,
        0xFFu8,
        0xFFu8,
        0xFFu8,
        0xFFu8,
    ]);
}

} // verus!
