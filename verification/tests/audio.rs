use webrtc_http_media::audio::{decode_samples, encode_samples, AudioChunker};

#[test]
fn samples_are_little_endian() {
    assert_eq!(encode_samples(&[1, -2, 256, i16::MIN, i16::MAX]), vec![
        0x01, 0x00, 0xFE, 0xFF, 0x00, 0x01, 0x00, 0x80, 0xFF, 0x7F
    ]);
    assert_eq!(decode_samples(&[0x01, 0x00, 0xFE, 0xFF, 0x07]), vec![1, -2]);
}

#[test]
fn samples_come_back() {
    let samples: Vec<i16> = vec![0, 1, -1, 255, -256, 12345, -12345, i16::MIN, i16::MAX];
    assert_eq!(decode_samples(&encode_samples(&samples)), samples);
}

#[test]
fn audio_needs_a_rate_and_channels() {
    assert!(AudioChunker::new(48000, 2).is_ok());
    let e = AudioChunker::new(0, 2).err().unwrap();
    assert_eq!(e.message(), "Invalid audio configuration");
    assert!(AudioChunker::new(48000, 0).is_err());
}

#[test]
fn frames_are_cut_into_chunks() {
    // 1000 Hz stereo: a chunk is 10 samples of each channel.
    let mut chunker = AudioChunker::new(1000, 2).unwrap();
    assert_eq!(chunker.samples_per_chunk(), 10);
    let first: Vec<i16> = (0..30).collect();
    let second: Vec<i16> = (30..50).collect();
    chunker.push_frame(500, &encode_samples(&first));
    let chunk = chunker.next_chunk().unwrap();
    assert_eq!(chunk.pts_ms, 500);
    assert_eq!(chunk.samples, (0..20).collect::<Vec<i16>>());
    assert!(chunker.next_chunk().is_none());
    chunker.push_frame(900, &encode_samples(&second));
    // The next chunk starts in the first frame, ten samples a channel into it.
    let chunk = chunker.next_chunk().unwrap();
    assert_eq!(chunk.pts_ms, 510);
    assert_eq!(chunk.samples, (20..40).collect::<Vec<i16>>());
    // The rest starts in the second frame, five samples a channel into it.
    assert!(chunker.next_chunk().is_none());
    chunker.push_frame(1000, &encode_samples(&(50..60).collect::<Vec<i16>>()));
    let chunk = chunker.next_chunk().unwrap();
    assert_eq!(chunk.pts_ms, 905);
    assert_eq!(chunk.samples, (40..60).collect::<Vec<i16>>());
}

#[test]
fn no_sample_is_lost_or_moved() {
    let mut chunker = AudioChunker::new(800, 1).unwrap();
    let all: Vec<i16> = (0..200).map(|i| (i * 37 % 101) as i16).collect();
    let mut out: Vec<i16> = Vec::new();
    let mut from = 0;
    for (i, len) in [3usize, 0, 20, 8, 1, 50, 7, 100, 11].iter().enumerate() {
        chunker.push_frame(i as i64 * 10, &encode_samples(&all[from..from + len]));
        from += len;
        while let Some(chunk) = chunker.next_chunk() {
            assert_eq!(chunk.samples.len(), 8);
            out.extend_from_slice(&chunk.samples);
        }
    }
    assert_eq!(from, 200);
    assert_eq!(out, all);
}

#[test]
fn slow_audio_has_no_chunks() {
    let mut chunker = AudioChunker::new(99, 2).unwrap();
    chunker.push_frame(0, &[0; 1000]);
    assert!(chunker.next_chunk().is_none());
}

#[test]
fn payloads_that_fit() {
    let chunker = AudioChunker::new(48000, 2).unwrap();
    assert!(chunker.can_push(0, 4096));
    assert!(!chunker.can_push(i64::MAX, 1 << 20));
    assert!(chunker.can_push(i64::MAX, 0));
}
