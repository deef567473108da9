//! A writer's stream, read by the real tag iterator.

use webm_iterable::matroska_spec::{Master, MatroskaSpec};
use webm_iterable::WebmIterator;
use webrtc_http_media::mkv_reader::{
    AudioTag, MkvFrame, MkvReadError, MkvReader, MkvTag, ReadStep, TrackTag, VideoTag,
};
use webrtc_http_media::mkv_writer::{MkvConfig, MkvWriter};

fn video_tag(tag: &MatroskaSpec) -> VideoTag {
    match tag {
        MatroskaSpec::PixelWidth(w) => VideoTag::PixelWidth(*w),
        MatroskaSpec::PixelHeight(h) => VideoTag::PixelHeight(*h),
        _ => VideoTag::Other,
    }
}

fn audio_tag(tag: &MatroskaSpec) -> AudioTag {
    match tag {
        MatroskaSpec::SamplingFrequency(rate) => AudioTag::SamplingFrequency(*rate as u32),
        MatroskaSpec::Channels(n) => AudioTag::Channels(*n),
        _ => AudioTag::Other,
    }
}

fn track_tag(tag: &MatroskaSpec) -> TrackTag {
    match tag {
        MatroskaSpec::TrackNumber(n) => TrackTag::TrackNumber(*n),
        MatroskaSpec::TrackType(t) => TrackTag::TrackType(*t),
        MatroskaSpec::CodecID(id) => TrackTag::CodecID(id.clone()),
        MatroskaSpec::Video(Master::Full(c)) => TrackTag::Video(c.iter().map(video_tag).collect()),
        MatroskaSpec::Audio(Master::Full(c)) => TrackTag::Audio(c.iter().map(audio_tag).collect()),
        _ => TrackTag::Other,
    }
}

fn mkv_tag(tag: MatroskaSpec) -> MkvTag {
    match tag {
        MatroskaSpec::TimestampScale(scale) => MkvTag::TimestampScale(scale),
        MatroskaSpec::TrackEntry(Master::Full(c)) => {
            MkvTag::TrackEntry(c.iter().map(track_tag).collect())
        }
        MatroskaSpec::Cluster(Master::Start) => MkvTag::ClusterStart,
        MatroskaSpec::Timestamp(ticks) => MkvTag::Timestamp(ticks),
        MatroskaSpec::SimpleBlock(data) => MkvTag::SimpleBlock(data),
        _ => MkvTag::Other,
    }
}

/// Read a whole stream.
fn read_all(bytes: &[u8]) -> (MkvReader, Vec<MkvFrame>) {
    let mut tags = WebmIterator::new(bytes, &[MatroskaSpec::TrackEntry(Master::Start)]);
    let mut reader = MkvReader::new();
    for tag in tags.by_ref() {
        if reader.parse_header(&mkv_tag(tag.unwrap())).unwrap() {
            break;
        }
    }
    reader.finish_header().unwrap();
    let mut frames = Vec::new();
    for tag in tags {
        let tag = mkv_tag(tag.unwrap());
        assert!(reader.can_read(&tag));
        if let ReadStep::Frame(frame) = reader.read_frame(&tag).unwrap() {
            frames.push(frame);
        }
    }
    (reader, frames)
}

#[test]
fn written_frames_are_read_back() {
    let config = MkvConfig {
        video_width: 1281,
        video_height: 719,
        audio_sample_rate: 44100,
        audio_channels: 1,
    };
    let mut writer = MkvWriter::new(Vec::new(), config).unwrap();
    // (video?, timestamp, keyframe, length)
    let written = [
        (true, 0i64, true, 6usize),
        (false, 3, true, 0),
        (true, 33, false, 200),
        (false, 4999, true, 20_000),
        (true, 5000, true, 3_000_000),
        (false, 4990, true, 4),
        (true, 70_000, false, 1),
        (true, 30_000, true, 1),
        (false, 9_000_000_000_000, true, 2),
    ];
    for (i, (video, ts, key, len)) in written.iter().enumerate() {
        let data = vec![i as u8; *len];
        if *video {
            writer.write_video_frame(&data, *ts, *key).unwrap();
        } else {
            writer.write_audio_frame(&data, *ts).unwrap();
        }
    }

    let (reader, frames) = read_all(&writer.writer);
    let info = reader.track_info();
    assert_eq!((info.video_width, info.video_height), (1281, 719));
    assert_eq!(info.video_codec_id, "V_UNCOMPRESSED");
    assert_eq!((info.audio_sample_rate, info.audio_channels), (44100, 1));
    assert_eq!(info.audio_codec_id, "A_PCM/INT/LIT");
    assert_eq!(info.timecode_scale, 1_000_000);
    assert_eq!(frames.len(), written.len());
    for (i, (frame, (video, ts, key, len))) in frames.iter().zip(written.iter()).enumerate() {
        match frame {
            MkvFrame::Video { data, timestamp_ms, is_keyframe } => {
                assert!(*video);
                assert_eq!((timestamp_ms, is_keyframe), (ts, key));
                assert_eq!(data, &vec![i as u8; *len]);
            }
            MkvFrame::Audio { data, timestamp_ms } => {
                assert!(!*video);
                assert_eq!(timestamp_ms, ts);
                assert_eq!(data, &vec![i as u8; *len]);
            }
        }
    }
}

#[test]
fn negative_times_are_read_back() {
    let config =
        MkvConfig { video_width: 2, video_height: 2, audio_sample_rate: 8000, audio_channels: 1 };
    let mut writer = MkvWriter::new(Vec::new(), config).unwrap();
    writer.write_video_frame(&[1], -20, true).unwrap();
    writer.write_video_frame(&[2], -40_000, true).unwrap();
    let (_, frames) = read_all(&writer.writer);
    let times: Vec<i64> = frames
        .iter()
        .map(|f| match f {
            MkvFrame::Video { timestamp_ms, .. } => *timestamp_ms,
            MkvFrame::Audio { timestamp_ms, .. } => *timestamp_ms,
        })
        .collect();
    assert_eq!(times, vec![-20, -40_000]);
}

#[test]
fn blocks_of_unknown_tracks_do_not_end_a_stream() {
    let config =
        MkvConfig { video_width: 2, video_height: 2, audio_sample_rate: 8000, audio_channels: 1 };
    let mut writer = MkvWriter::new(Vec::new(), config).unwrap();
    writer.write_video_frame(&[1], 10, true).unwrap();
    writer.write_simple_block(3, 5, true, &[9, 9]).unwrap();
    writer.write_audio_frame(&[2, 3], 20).unwrap();
    let (_, frames) = read_all(&writer.writer);
    let payloads: Vec<&[u8]> = frames.iter().map(|f| f.payload()).collect();
    assert_eq!(payloads, vec![&[1][..], &[2, 3][..]]);
}

#[test]
fn stream_without_frames_has_no_cluster() {
    let config =
        MkvConfig { video_width: 2, video_height: 2, audio_sample_rate: 8000, audio_channels: 1 };
    let writer = MkvWriter::new(Vec::new(), config).unwrap();
    let mut reader = MkvReader::new();
    for tag in WebmIterator::new(&writer.writer[..], &[MatroskaSpec::TrackEntry(Master::Start)]) {
        assert_eq!(reader.parse_header(&mkv_tag(tag.unwrap())), Ok(false));
    }
    assert_eq!(reader.track_info().video_width, 2);
    assert_eq!(reader.finish_header(), Err(MkvReadError::NoCluster));
}

#[test]
fn size_with_all_bits_set_reads_as_unknown() {
    let config =
        MkvConfig { video_width: 2, video_height: 2, audio_sample_rate: 8000, audio_channels: 1 };
    for len in [122usize, 123, 124, 16_378, 16_379, 16_380] {
        let mut writer = MkvWriter::new(Vec::new(), config).unwrap();
        writer.write_video_frame(&vec![7; len], 0, true).unwrap();
        let tags = WebmIterator::new(&writer.writer[..], &[MatroskaSpec::TrackEntry(Master::Start)]);
        let mut blocks = 0;
        let mut refused = false;
        for tag in tags {
            match tag {
                Ok(MatroskaSpec::SimpleBlock(data)) => {
                    assert_eq!(data.len(), len + 4);
                    blocks += 1;
                }
                Ok(_) => {}
                Err(_) => {
                    refused = true;
                    break;
                }
            }
        }
        let all_ones = len == 123 || len == 16_379;
        assert_eq!((blocks, refused), (if all_ones { 0 } else { 1 }, all_ones));
    }
}
