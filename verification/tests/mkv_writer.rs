use webrtc_http_media::ebml::{
    encode_float64, encode_uint, encode_vint_size, encode_vint_sum, encode_vint_value, parse_vint,
    VintError,
};
use webrtc_http_media::ebml_ids;
use webrtc_http_media::i420::required_plane_size;
use webrtc_http_media::mkv_writer::{
    write_ebml_element, MkvConfig, MkvError, MkvWriter, PlaneError,
};
use webrtc_http_media::sink::{ByteSink, GhostBytes};

fn config(width: u32, height: u32) -> MkvConfig {
    MkvConfig {
        video_width: width,
        video_height: height,
        audio_sample_rate: 48000,
        audio_channels: 2,
    }
}

/// A sink that takes so many writes and then fails.
struct FailingSink {
    writes_left: usize,
    taken: Vec<u8>,
}

impl ByteSink for FailingSink {
    type Error = String;

    fn written(&self) -> GhostBytes {
        unreachable!()
    }

    fn flushed(&self) -> bool {
        false
    }

    fn reliable(&self) -> bool {
        false
    }

    fn write_all(&mut self, data: &[u8]) -> Result<(), String> {
        if self.writes_left == 0 {
            return Err("broken pipe".to_string());
        }
        self.writes_left -= 1;
        self.taken.extend_from_slice(data);
        Ok(())
    }

    fn flush(&mut self) -> Result<(), String> {
        Ok(())
    }
}

#[test]
fn test_encode_uint() {
    assert_eq!(encode_uint(0), vec![0]);
    assert_eq!(encode_uint(1), vec![1]);
    assert_eq!(encode_uint(127), vec![127]);
    assert_eq!(encode_uint(128), vec![128]);
    assert_eq!(encode_uint(255), vec![255]);
    assert_eq!(encode_uint(256), vec![1, 0]);
    assert_eq!(encode_uint(1_000_000), vec![0x0F, 0x42, 0x40]);
}

#[test]
fn test_encode_vint_value() {
    // Track number 1 should encode as 0x81
    assert_eq!(encode_vint_value(1), vec![0x81]);
    // Track number 2 should encode as 0x82
    assert_eq!(encode_vint_value(2), vec![0x82]);
}

#[test]
fn test_encode_float64() {
    let bytes = encode_float64(48000);
    assert_eq!(bytes.len(), 8);
    // Verify it's big-endian IEEE 754
    let restored = f64::from_be_bytes(bytes.try_into().unwrap());
    assert_eq!(restored, 48000.0);
}

#[test]
fn test_encode_vint_value_boundary() {
    assert_eq!(encode_vint_value(0x7F), vec![0xFF]);
    assert_eq!(encode_vint_value(0x80), vec![0x40, 0x80]);
    assert_eq!(encode_vint_value(0x3FFF), vec![0x7F, 0xFF]);
}

#[test]
fn test_encode_vint_size() {
    assert_eq!(encode_vint_size(1), encode_vint_value(1));
    assert_eq!(encode_vint_size(0x80), encode_vint_value(0x80));
    assert_eq!(encode_vint_size(0x3FFF), encode_vint_value(0x3FFF));
}

#[test]
fn test_write_ebml_element() {
    let mut buf = Vec::new();
    let id = &[0x42, 0x86]; // EBML_VERSION
    let data = &[0x01];
    write_ebml_element(&mut buf, id, data).unwrap();
    // ID(2) + Size VINT(1: 0x81) + Data(1)
    assert_eq!(buf, vec![0x42, 0x86, 0x81, 0x01]);
}

#[test]
fn test_mkv_writer_new_writes_header() {
    let buf = Vec::new();
    let config = MkvConfig {
        video_width: 1920,
        video_height: 1080,
        audio_sample_rate: 48000,
        audio_channels: 2,
    };
    let writer = MkvWriter::new(buf, config).unwrap();
    let output = writer.writer;
    assert!(output.len() >= 4);
    assert_eq!(&output[0..4], ebml_ids::EBML);
    assert!(writer.header_written);
}

#[test]
fn test_mkv_writer_write_video_frame() {
    let buf = Vec::new();
    let config = config(2, 2);
    let mut writer = MkvWriter::new(buf, config).unwrap();
    let header_len = writer.writer.len();

    let frame_data = vec![0u8; 6]; // 2x2 I420: Y=4 + U=1 + V=1
    writer.write_video_frame(&frame_data, 0, true).unwrap();

    assert!(writer.writer.len() > header_len);
    assert_eq!(writer.cluster_start_time, Some(0));
}

#[test]
fn test_mkv_writer_write_audio_frame() {
    let buf = Vec::new();
    let config = config(2, 2);
    let mut writer = MkvWriter::new(buf, config).unwrap();
    let header_len = writer.writer.len();

    let audio_data = vec![0u8; 192]; // 48 samples * 2ch * 2bytes
    writer.write_audio_frame(&audio_data, 0).unwrap();

    assert!(writer.writer.len() > header_len);
}

#[test]
fn test_mkv_writer_cluster_transition() {
    let buf = Vec::new();
    let config = config(2, 2);
    let mut writer = MkvWriter::new(buf, config).unwrap();

    writer.write_video_frame(&[0u8; 6], 0, true).unwrap();
    assert_eq!(writer.cluster_start_time, Some(0));

    writer.write_video_frame(&[0u8; 6], 4999, false).unwrap();
    assert_eq!(writer.cluster_start_time, Some(0));

    writer.write_video_frame(&[0u8; 6], 5000, false).unwrap();
    assert_eq!(writer.cluster_start_time, Some(5000));
}

#[test]
fn test_mkv_writer_keyframe_does_not_force_new_cluster() {
    let buf = Vec::new();
    let config = config(2, 2);
    let mut writer = MkvWriter::new(buf, config).unwrap();

    writer.write_video_frame(&[0u8; 6], 0, true).unwrap();
    assert_eq!(writer.cluster_start_time, Some(0));

    writer.write_video_frame(&[0u8; 6], 1, true).unwrap();
    assert_eq!(writer.cluster_start_time, Some(0));
}

#[test]
fn test_relative_timestamp_basic() {
    let buf = Vec::new();
    let config = config(2, 2);
    let mut writer = MkvWriter::new(buf, config).unwrap();
    writer.cluster_start_time = Some(1000);

    assert_eq!(writer.relative_timestamp(1000), 0);
    assert_eq!(writer.relative_timestamp(1500), 500);
    assert_eq!(writer.relative_timestamp(1033), 33);
}

#[test]
fn test_relative_timestamp_clamp() {
    let buf = Vec::new();
    let config = config(2, 2);
    let mut writer = MkvWriter::new(buf, config).unwrap();
    writer.cluster_start_time = Some(0);

    // i16::MAX = 32767
    assert_eq!(writer.relative_timestamp(32767), 32767);
    assert_eq!(writer.relative_timestamp(40000), 32767);

    writer.cluster_start_time = Some(50000);
    assert_eq!(writer.relative_timestamp(0), -32768);
}

#[test]
fn test_build_video_track() {
    let buf = Vec::new();
    let config = config(1920, 1080);
    let writer = MkvWriter::new(buf, config).unwrap();
    let track_data = writer.build_video_track().unwrap();

    let codec_id = b"V_UNCOMPRESSED";
    assert!(
        track_data.windows(codec_id.len()).any(|w| w == codec_id),
        "V_UNCOMPRESSED codec ID not found in video track"
    );
}

#[test]
fn test_build_audio_track() {
    let buf = Vec::new();
    let config = config(1920, 1080);
    let writer = MkvWriter::new(buf, config).unwrap();
    let track_data = writer.build_audio_track().unwrap();

    let codec_id = b"A_PCM/INT/LIT";
    assert!(
        track_data.windows(codec_id.len()).any(|w| w == codec_id),
        "A_PCM/INT/LIT codec ID not found in audio track"
    );
}

#[test]
fn vint_lengths_change_where_they_should() {
    assert_eq!(encode_vint_value(0x4000), vec![0x20, 0x40, 0x00]);
    assert_eq!(encode_vint_value(0x20_0000), vec![0x10, 0x20, 0x00, 0x00]);
    assert_eq!(encode_vint_value(0x1000_0000), vec![0x08, 0x10, 0, 0, 0]);
    assert_eq!(encode_vint_value(0x8_0000_0000), vec![0x04, 0x08, 0, 0, 0, 0]);
    assert_eq!(
        encode_vint_value(0xFF_FFFF_FFFF_FFFF),
        vec![0x01, 0xFF, 0xFF, 0xFF, 0xFF, 0xFF, 0xFF, 0xFF]
    );
    assert_eq!(
        encode_vint_value(0x100_0000_0000_0000),
        vec![0x00, 0x01, 0, 0, 0, 0, 0, 0, 0]
    );
}

#[test]
fn sizes_are_added_without_overflow() {
    assert_eq!(encode_vint_sum(4, 3), vec![0x87]);
    assert_eq!(encode_vint_sum(4, 0x7C), encode_vint_size(0x80));
    assert_eq!(encode_vint_sum(u64::MAX, 0), encode_vint_size(u64::MAX));
    assert_eq!(encode_vint_sum(u64::MAX, 4), vec![0x01, 0, 0, 0, 0, 0, 0, 0, 0x03]);
}

#[test]
fn vints_are_read_back() {
    for v in [0u64, 1, 126, 127, 128, 0x3FFF, 0x4000, 300_000, 1 << 28, (1 << 35) + 7, (1 << 56) - 1]
    {
        let mut bytes = encode_vint_value(v);
        let n = bytes.len();
        bytes.extend_from_slice(&[0xAB, 0xCD]);
        assert_eq!(parse_vint(&bytes), Ok((v, n)));
    }
}

#[test]
fn vints_that_cannot_be_read() {
    assert_eq!(parse_vint(&[]), Err(VintError::Empty));
    assert_eq!(parse_vint(&[0x00, 1, 2, 3, 4, 5, 6, 7, 8]), Err(VintError::InvalidLength));
    assert_eq!(parse_vint(&[0x40]), Err(VintError::InvalidLength));
    assert_eq!(VintError::Empty.message(), "Empty VINT");
    assert_eq!(VintError::InvalidLength.message(), "Invalid VINT length");
}

#[test]
fn floats_of_whole_numbers() {
    for v in [0u32, 1, 2, 3, 100, 8000, 44100, 96000, u32::MAX] {
        let bytes = encode_float64(v);
        assert_eq!(f64::from_be_bytes(bytes.try_into().unwrap()), v as f64);
    }
}

#[test]
fn frame_is_written_as_cluster_and_block() {
    let mut writer = MkvWriter::new(Vec::new(), config(2, 2)).unwrap();
    let header_len = writer.writer.len();
    writer.write_video_frame(&[9, 8, 7], 258, true).unwrap();
    writer.write_audio_frame(&[5], 257).unwrap();
    assert_eq!(
        &writer.writer[header_len..],
        &[
            0x1F, 0x43, 0xB6, 0x75, 0x01, 0xFF, 0xFF, 0xFF, 0xFF, 0xFF, 0xFF, 0xFF, // Cluster
            0xE7, 0x82, 0x01, 0x02, // Timestamp
            0xA3, 0x87, 0x81, 0x00, 0x00, 0x80, 9, 8, 7, // video block
            0xA3, 0x85, 0x82, 0xFF, 0xFF, 0x80, 5, // audio block, 1 ms earlier
        ][..]
    );
}

#[test]
fn offsets_stay_within_the_cluster() {
    let mut writer = MkvWriter::new(Vec::new(), config(2, 2)).unwrap();
    writer.write_video_frame(&[0], 40_000, true).unwrap();
    writer.write_video_frame(&[0], 40_000 - 32_768, true).unwrap();
    assert_eq!(writer.cluster_start_time, Some(40_000));
    writer.write_video_frame(&[0], 40_000 - 32_769, true).unwrap();
    assert_eq!(writer.cluster_start_time, Some(7_231));
}

#[test]
fn planes_are_written_like_the_packed_frame() {
    // 3x3 with padded rows: chroma is 2x2.
    let y = [1, 2, 3, 99, 4, 5, 6, 99, 7, 8, 9];
    let u = [10, 11, 99, 12, 13];
    let v = [20, 21, 22, 23];
    let packed = [1, 2, 3, 4, 5, 6, 7, 8, 9, 10, 11, 12, 13, 20, 21, 22, 23];

    let mut planes = MkvWriter::new(Vec::new(), config(3, 3)).unwrap();
    planes.write_video_frame_i420(3, 3, 4, 3, 2, &y, &u, &v, 40, false).unwrap();
    let mut whole = MkvWriter::new(Vec::new(), config(3, 3)).unwrap();
    whole.write_video_frame(&packed, 40, false).unwrap();
    assert_eq!(planes.writer, whole.writer);
}

#[test]
fn faulty_planes_open_a_cluster_and_nothing_else() {
    let mut writer = MkvWriter::new(Vec::new(), config(2, 2)).unwrap();
    let header_len = writer.writer.len();
    let short = writer.write_video_frame_i420(2, 2, 2, 1, 1, &[0; 3], &[0], &[0], 7, true);
    assert_eq!(short, Err(MkvError::InvalidData(PlaneError::TooSmall)));
    assert_eq!(writer.cluster_start_time, Some(7));
    assert_eq!(writer.writer.len(), header_len + 4 + 8 + 3);
    writer.write_video_frame_i420(2, 2, 2, 1, 1, &[0; 4], &[0], &[0], 7, true).unwrap();
}

#[test]
fn plane_sizes_that_cannot_be_counted() {
    assert_eq!(required_plane_size(10, 4, 0), Some(0));
    assert_eq!(required_plane_size(10, 4, 3), Some(24));
    assert_eq!(required_plane_size(usize::MAX, 1, 3), None);
    assert_eq!(required_plane_size(usize::MAX, 1, 2), None);
    assert_eq!(required_plane_size(usize::MAX, 0, 2), Some(usize::MAX));

    let mut writer = MkvWriter::new(Vec::new(), config(2, 2)).unwrap();
    let m = u32::MAX;
    // A picture of full rows whose planes are too large to count only when packed.
    let r = writer.write_video_frame_i420(m, m, 0, 0, 0, &[], &[], &[], 0, true);
    assert_eq!(r, Err(MkvError::InvalidData(PlaneError::TooSmall)));
    assert_eq!(PlaneError::YOverflow.message(), "Y plane size overflow");
    assert_eq!(PlaneError::UOverflow.message(), "U plane size overflow");
    assert_eq!(PlaneError::VOverflow.message(), "V plane size overflow");
    assert_eq!(PlaneError::TooSmall.message(), "I420 plane data is smaller than expected");
    assert_eq!(PlaneError::LengthOverflow.message(), "I420 data length overflow");
}

#[test]
fn sink_errors_come_through() {
    let broken = FailingSink { writes_left: 0, taken: Vec::new() };
    assert_eq!(MkvWriter::new(broken, config(2, 2)).err(), Some("broken pipe".to_string()));

    let sink = FailingSink { writes_left: 14, taken: Vec::new() };
    let mut writer = MkvWriter::new(sink, config(2, 2)).ok().unwrap();
    writer.writer.writes_left = 2;
    assert_eq!(writer.write_video_frame(&[1], 0, true), Err("broken pipe".to_string()));
    assert_eq!(writer.cluster_start_time, None);
    writer.writer.writes_left = 6;
    assert_eq!(
        writer.write_video_frame_i420(2, 2, 2, 1, 1, &[0; 4], &[0], &[0], 0, true),
        Err(MkvError::Sink("broken pipe".to_string()))
    );
    assert_eq!(writer.cluster_start_time, Some(0));
    writer.flush().unwrap();
}

/// Takes so many bytes and no more.
struct ShortSink {
    room: usize,
    taken: Vec<u8>,
}

impl ByteSink for ShortSink {
    type Error = String;

    fn written(&self) -> GhostBytes {
        unreachable!("only contracts speak of it")
    }

    fn flushed(&self) -> bool {
        false
    }

    fn reliable(&self) -> bool {
        false
    }

    fn write_all(&mut self, data: &[u8]) -> Result<(), String> {
        let n = data.len().min(self.room);
        self.taken.extend_from_slice(&data[..n]);
        self.room -= n;
        if n < data.len() {
            return Err("full".to_string());
        }
        Ok(())
    }

    fn flush(&mut self) -> Result<(), String> {
        Ok(())
    }
}

#[test]
fn nothing_is_written_behind_the_first_error() {
    let mut whole = Vec::new();
    write_ebml_element(&mut whole, &[0x42, 0x86], &[1, 2, 3]).unwrap();
    for room in 0..whole.len() {
        let mut sink = ShortSink { room, taken: Vec::new() };
        let r = write_ebml_element(&mut sink, &[0x42, 0x86], &[1, 2, 3]);
        assert_eq!(r, Err("full".to_string()));
        assert_eq!(sink.taken, whole[..room].to_vec());
    }

    let mut whole = MkvWriter::new(Vec::new(), config(2, 2)).unwrap();
    let header_len = whole.writer.len();
    whole.write_video_frame_i420(2, 2, 3, 1, 1, &[1, 2, 0, 3, 4], &[5], &[6], 9, true).unwrap();
    let whole = whole.writer;
    // Cluster ID, unknown size, Timestamp
    let cluster_len = 4 + 8 + 3;
    for room in 0..whole.len() - header_len {
        let sink = ShortSink { room: header_len, taken: Vec::new() };
        let mut writer = MkvWriter::new(sink, config(2, 2)).ok().unwrap();
        writer.writer.room = room;
        let r =
            writer.write_video_frame_i420(2, 2, 3, 1, 1, &[1, 2, 0, 3, 4], &[5], &[6], 9, true);
        assert_eq!(r, Err(MkvError::Sink("full".to_string())));
        assert_eq!(writer.writer.taken, whole[..header_len + room].to_vec());
        assert_eq!(writer.cluster_start_time.is_some(), room >= cluster_len);
    }
}
