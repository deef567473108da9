use webrtc_http_media::ebml::{parse_vint, VintError};
use webrtc_http_media::mkv_reader::{
    AudioTag, MkvFrame, MkvReadError, MkvReader, MkvTag, MkvTrackInfo, ReadStep, TrackTag,
    VideoTag,
};

fn video_entry() -> MkvTag {
    MkvTag::TrackEntry(vec![
        TrackTag::TrackNumber(1),
        TrackTag::Other,
        TrackTag::TrackType(1),
        TrackTag::CodecID("V_UNCOMPRESSED".to_string()),
        TrackTag::Video(vec![
            VideoTag::PixelWidth(640),
            VideoTag::PixelHeight(360),
            VideoTag::Other,
        ]),
    ])
}

fn audio_entry() -> MkvTag {
    MkvTag::TrackEntry(vec![
        TrackTag::TrackNumber(2),
        TrackTag::TrackType(2),
        TrackTag::CodecID("A_PCM/INT/LIT".to_string()),
        TrackTag::Audio(vec![AudioTag::SamplingFrequency(44100), AudioTag::Channels(1)]),
    ])
}

fn ready() -> MkvReader {
    let mut reader = MkvReader::new();
    assert_eq!(reader.parse_header(&video_entry()), Ok(false));
    assert_eq!(reader.parse_header(&audio_entry()), Ok(false));
    assert_eq!(reader.parse_header(&MkvTag::ClusterStart), Ok(true));
    assert_eq!(reader.finish_header(), Ok(()));
    reader
}

#[test]
fn test_parse_vint_single_byte() {
    // 0x81 = VINT value 1
    let data = [0x81];
    let (value, len) = parse_vint(&data).unwrap();
    assert_eq!(value, 1);
    assert_eq!(len, 1);
}

#[test]
fn test_parse_vint_two_bytes() {
    // 0x40 0x01 = VINT value 1 (2-byte encoding)
    let data = [0x40, 0x01];
    let (value, len) = parse_vint(&data).unwrap();
    assert_eq!(value, 1);
    assert_eq!(len, 2);
}

#[test]
fn test_parse_vint_track_number() {
    // Track number 1 encoded as VINT
    let data = [0x81]; // 0x81 = track 1
    let (value, len) = parse_vint(&data).unwrap();
    assert_eq!(value, 1);
    assert_eq!(len, 1);

    // Track number 2 encoded as VINT
    let data = [0x82]; // 0x82 = track 2
    let (value, len) = parse_vint(&data).unwrap();
    assert_eq!(value, 2);
    assert_eq!(len, 1);
}

#[test]
fn test_parse_vint_empty() {
    let data: [u8; 0] = [];
    assert!(parse_vint(&data).is_err());
}

#[test]
fn test_mkv_track_info_default() {
    let info = MkvTrackInfo::default();
    assert_eq!(info.video_width, 0);
    assert_eq!(info.video_height, 0);
    assert_eq!(info.video_codec_id, "");
    assert_eq!(info.audio_sample_rate, 0);
    assert_eq!(info.audio_channels, 0);
    assert_eq!(info.audio_codec_id, "");
    assert_eq!(info.timecode_scale, 0);
}

#[test]
fn test_mkv_frame_video() {
    let frame = MkvFrame::Video {
        data: vec![0x01, 0x02, 0x03],
        timestamp_ms: 1000,
        is_keyframe: true,
    };

    if let MkvFrame::Video { data, timestamp_ms, is_keyframe } = frame {
        assert_eq!(data, vec![0x01, 0x02, 0x03]);
        assert_eq!(timestamp_ms, 1000);
        assert!(is_keyframe);
    } else {
        panic!("Expected Video frame");
    }
}

#[test]
fn test_mkv_frame_audio() {
    let frame = MkvFrame::Audio { data: vec![0x04, 0x05, 0x06], timestamp_ms: 2000 };

    if let MkvFrame::Audio { data, timestamp_ms } = frame {
        assert_eq!(data, vec![0x04, 0x05, 0x06]);
        assert_eq!(timestamp_ms, 2000);
    } else {
        panic!("Expected Audio frame");
    }
}

#[test]
fn header_gives_track_info() {
    let reader = ready();
    let info = reader.track_info();
    assert_eq!(info.video_width, 640);
    assert_eq!(info.video_height, 360);
    assert_eq!(info.video_codec_id, "V_UNCOMPRESSED");
    assert_eq!(info.audio_sample_rate, 44100);
    assert_eq!(info.audio_channels, 1);
    assert_eq!(info.audio_codec_id, "A_PCM/INT/LIT");
    assert_eq!(info.timecode_scale, 1_000_000);
    assert_eq!(reader.video_track_num, Some(1));
    assert_eq!(reader.audio_track_num, Some(2));
}

#[test]
fn audio_track_has_defaults() {
    let mut reader = MkvReader::new();
    reader
        .parse_track_entry(&[TrackTag::TrackType(2), TrackTag::TrackNumber(9)])
        .unwrap();
    assert_eq!(reader.audio_track_num, Some(9));
    assert_eq!(reader.track_info.audio_sample_rate, 48000);
    assert_eq!(reader.track_info.audio_channels, 2);
    assert_eq!(reader.track_info.audio_codec_id, "");
}

#[test]
fn last_child_of_a_track_entry_counts() {
    let mut reader = MkvReader::new();
    reader
        .parse_track_entry(&[
            TrackTag::TrackNumber(3),
            TrackTag::TrackType(1),
            TrackTag::Video(vec![VideoTag::PixelWidth(1), VideoTag::PixelHeight(2)]),
            TrackTag::Video(vec![VideoTag::PixelWidth((1 << 32) + 5)]),
            TrackTag::TrackNumber(4),
        ])
        .unwrap();
    assert_eq!(reader.video_track_num, Some(4));
    assert_eq!(reader.track_info.video_width, 5);
    assert_eq!(reader.track_info.video_height, 2);
}

#[test]
fn incomplete_headers() {
    let mut reader = MkvReader::new();
    assert_eq!(
        reader.parse_header(&MkvTag::TrackEntry(vec![TrackTag::TrackType(1)])),
        Err(MkvReadError::MissingTrackNumber)
    );
    assert_eq!(
        reader.parse_header(&MkvTag::TrackEntry(vec![TrackTag::TrackNumber(1)])),
        Err(MkvReadError::MissingTrackType)
    );
    // Subtitles are passed over.
    assert_eq!(
        reader.parse_header(&MkvTag::TrackEntry(vec![
            TrackTag::TrackNumber(3),
            TrackTag::TrackType(17)
        ])),
        Ok(false)
    );
    assert_eq!(reader.finish_header(), Err(MkvReadError::NoCluster));
    assert_eq!(MkvReadError::MissingTrackNumber.message(), "TrackEntry missing TrackNumber");
    assert_eq!(MkvReadError::MissingTrackType.message(), "TrackEntry missing TrackType");
    assert_eq!(
        MkvReadError::NoCluster.message(),
        "Failed to parse MKV header: no Cluster found"
    );
}

#[test]
fn blocks_become_frames() {
    let mut reader = ready();
    assert!(matches!(reader.read_frame(&MkvTag::Timestamp(1000)), Ok(ReadStep::Continue)));
    let video = MkvTag::SimpleBlock(vec![0x81, 0xFF, 0xFE, 0x80, 7, 8]);
    assert!(reader.can_read(&video));
    match reader.read_frame(&video) {
        Ok(ReadStep::Frame(MkvFrame::Video { data, timestamp_ms, is_keyframe })) => {
            assert_eq!(data, vec![7, 8]);
            assert_eq!(timestamp_ms, 998);
            assert!(is_keyframe);
        }
        other => panic!("{:?}", other),
    }
    let audio = MkvTag::SimpleBlock(vec![0x82, 0x00, 0x10, 0x00]);
    match reader.read_frame(&audio) {
        Ok(ReadStep::Frame(MkvFrame::Audio { data, timestamp_ms })) => {
            assert!(data.is_empty());
            assert_eq!(timestamp_ms, 1016);
        }
        other => panic!("{:?}", other),
    }
}

#[test]
fn blocks_of_unknown_tracks_are_passed_over() {
    let mut reader = ready();
    let tags = [
        MkvTag::SimpleBlock(vec![0x83, 0x00, 0x00, 0x00, 1]),
        MkvTag::Other,
        MkvTag::SimpleBlock(vec![0x9F, 0x00, 0x00, 0x80]),
        MkvTag::SimpleBlock(vec![0x81, 0x00, 0x05, 0x00, 7]),
    ];
    let mut frames = Vec::new();
    for tag in &tags {
        assert!(reader.can_read(tag));
        if let ReadStep::Frame(frame) = reader.read_frame(tag).unwrap() {
            frames.push(frame);
        }
    }
    assert_eq!(frames.len(), 1);
    match &frames[0] {
        MkvFrame::Video { data, timestamp_ms, is_keyframe } => {
            assert_eq!(data, &vec![7]);
            assert_eq!((*timestamp_ms, *is_keyframe), (5, false));
        }
        other => panic!("{:?}", other),
    }
    assert!(matches!(
        reader.parse_simple_block(&[0x83, 0x00, 0x00, 0x00, 1]),
        Ok(None)
    ));
}

#[test]
fn header_is_over_at_the_first_cluster() {
    let mut reader = MkvReader::new();
    let tags = [MkvTag::Other, video_entry(), MkvTag::Timestamp(9), MkvTag::ClusterStart];
    let taken: Vec<bool> = tags.iter().map(|tag| reader.parse_header(tag).unwrap()).collect();
    assert_eq!(taken, vec![false, false, false, true]);
    assert_eq!(reader.finish_header(), Ok(()));
    // A timestamp in the header is not that of a Cluster.
    assert_eq!(reader.current_cluster_timestamp, 0);
}

#[test]
fn timestamps_follow_the_scale() {
    let mut reader = ready();
    assert_eq!(reader.parse_header(&MkvTag::TimestampScale(100_000)), Ok(false));
    reader.read_frame(&MkvTag::Timestamp(12_345)).unwrap();
    assert_eq!(reader.current_cluster_timestamp, 1234);
    // A negative time comes as the large number that its bits stand for.
    reader.read_frame(&MkvTag::Timestamp((-12_345i64) as u64)).unwrap();
    assert_eq!(reader.current_cluster_timestamp, -1234);
    assert!(!reader.can_read(&MkvTag::Timestamp(i64::MAX as u64)));
}

#[test]
fn blocks_that_cannot_be_read() {
    let mut reader = ready();
    assert_eq!(
        reader.read_frame(&MkvTag::SimpleBlock(vec![0x81, 0, 0])).err(),
        Some(MkvReadError::BlockTooShort(3))
    );
    assert_eq!(
        reader.read_frame(&MkvTag::SimpleBlock(vec![0x00, 0, 0, 0])).err(),
        Some(MkvReadError::Vint(VintError::InvalidLength))
    );
    // The track number takes two bytes, and no flags follow.
    assert!(!reader.can_read(&MkvTag::SimpleBlock(vec![0x40, 0x01, 0, 0])));
    assert_eq!(MkvReadError::BlockTooShort(3).message(), "SimpleBlock too short: 3 bytes");
    assert_eq!(MkvReadError::BlockTooShort(120).message(), "SimpleBlock too short: 120 bytes");
    assert_eq!(MkvReadError::Vint(VintError::Empty).message(), "Empty VINT");
    assert_eq!(MkvReadError::Vint(VintError::InvalidLength).message(), "Invalid VINT length");
}
