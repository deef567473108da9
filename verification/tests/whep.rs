use webrtc_http_media::connection::TransportState;
use webrtc_http_media::mkv_writer::{MkvConfig, MkvWriter};
use webrtc_http_media::sink::{ByteSink, GhostBytes};
use webrtc_http_media::whep::{
    stall_wait_ns, CallbackContext, ReceiveCheck, ReceiveEvent, ReceiveLoop, ReceivedAudio,
    ReceivedVideo, StopReason,
};

fn frame<'a>(y: &'a [u8], u: &'a [u8], v: &'a [u8], timestamp_us: i64) -> ReceivedVideo<'a> {
    // 3x3 with padded luma rows.
    ReceivedVideo {
        width: 3,
        height: 3,
        y_stride: 4,
        u_stride: 2,
        v_stride: 2,
        y_data: y,
        u_data: u,
        v_data: v,
        timestamp_us,
    }
}

const Y: [u8; 12] = [1, 2, 3, 0, 4, 5, 6, 0, 7, 8, 9, 0];
const U: [u8; 4] = [10, 11, 12, 13];
const V: [u8; 4] = [20, 21, 22, 23];
const PACKED: [u8; 17] = [1, 2, 3, 4, 5, 6, 7, 8, 9, 10, 11, 12, 13, 20, 21, 22, 23];

#[test]
fn frames_are_written_as_they_come() {
    let mut ctx = CallbackContext::new(Vec::new());
    let audio = ReceivedAudio {
        sample_rate: 48000,
        num_channels: 2,
        samples_per_channel: 480,
        data: &[1, -1],
    };
    // Audio before the first video frame is dropped.
    assert!(ctx.can_take_audio(&audio));
    assert!(ctx.handle_audio_frame(&audio).unwrap().is_none());
    assert_eq!(ctx.audio_frame_count, 0);

    let first = frame(&Y, &U, &V, 5_000_000);
    assert!(ctx.can_take_video(&first));
    let report = ctx.handle_video_frame(&first).unwrap();
    assert_eq!(report.count, 1);
    assert_eq!(report.timestamp_ms, 0);
    assert!(report.open_error.is_none());
    let report = ctx.handle_audio_frame(&audio).unwrap().unwrap();
    assert_eq!((report.count, report.timestamp_ms), (1, 0));
    let report = ctx.handle_audio_frame(&audio).unwrap().unwrap();
    assert_eq!((report.count, report.timestamp_ms), (2, 10));
    let report = ctx.handle_video_frame(&frame(&Y, &U, &V, 5_033_999)).unwrap();
    assert_eq!((report.count, report.timestamp_ms), (2, 33));
    ctx.flush().unwrap();

    let config = MkvConfig {
        video_width: 3,
        video_height: 3,
        audio_sample_rate: 48000,
        audio_channels: 2,
    };
    let mut expected = MkvWriter::new(Vec::new(), config).unwrap();
    expected.write_video_frame(&PACKED, 0, true).unwrap();
    expected.write_audio_frame(&[1, 0, 0xFF, 0xFF], 0).unwrap();
    expected.write_audio_frame(&[1, 0, 0xFF, 0xFF], 10).unwrap();
    expected.write_video_frame(&PACKED, 33, true).unwrap();
    assert_eq!(ctx.mkv_writer.as_ref().unwrap().writer, expected.writer);

    assert_eq!((ctx.video_width, ctx.video_height), (3, 3));
    assert_eq!((ctx.audio_sample_rate, ctx.audio_channels), (48000, 2));
    assert_eq!(ctx.audio_total_samples, 960);
    let stats = ctx.frame_stats(1, 0);
    assert_eq!((stats.video_count, stats.video_delta), (2, 1));
    assert_eq!((stats.audio_count, stats.audio_delta), (2, 2));
    assert_eq!((stats.last_video_ts, stats.last_audio_ts, stats.av_diff), (33, 10, 23));
}

#[test]
fn rows_outside_a_plane_are_left_out() {
    let mut ctx = CallbackContext::new(Vec::new());
    ctx.handle_video_frame(&frame(&Y[..7], &U, &V[..3], 0)).unwrap();
    let output = &ctx.mkv_writer.as_ref().unwrap().writer;
    let tail = [0x80, 1, 2, 3, 4, 5, 6, 10, 11, 12, 13, 20, 21];
    assert_eq!(&output[output.len() - tail.len()..], &tail[..]);
}

#[test]
fn times_before_the_first_frame_round_to_zero() {
    let mut ctx = CallbackContext::new(Vec::new());
    ctx.handle_video_frame(&frame(&Y, &U, &V, 10_000)).unwrap();
    assert_eq!(ctx.handle_video_frame(&frame(&Y, &U, &V, 9_001)).unwrap().timestamp_ms, 0);
    assert_eq!(ctx.handle_video_frame(&frame(&Y, &U, &V, 8_500)).unwrap().timestamp_ms, -1);
    assert!(!ctx.can_take_video(&frame(&Y, &U, &V, i64::MIN)));
}

/// A sink that fails from the start, or from when it is told to.
struct Pipe {
    broken: bool,
}

impl ByteSink for Pipe {
    type Error = String;

    fn written(&self) -> GhostBytes {
        unreachable!()
    }

    fn flushed(&self) -> bool {
        false
    }

    fn reliable(&self) -> bool {
        false
    }

    fn write_all(&mut self, _data: &[u8]) -> Result<(), String> {
        if self.broken {
            Err("broken pipe".to_string())
        } else {
            Ok(())
        }
    }

    fn flush(&mut self) -> Result<(), String> {
        if self.broken {
            Err("broken pipe".to_string())
        } else {
            Ok(())
        }
    }
}

#[test]
fn without_an_output_frames_are_only_counted() {
    let mut ctx = CallbackContext::new(Pipe { broken: true });
    let report = ctx.handle_video_frame(&frame(&Y, &U, &V, 0)).unwrap();
    assert_eq!(report.open_error, Some("broken pipe".to_string()));
    assert!(!ctx.mkv_writer_initialized);
    let report = ctx.handle_video_frame(&frame(&Y, &U, &V, 40_000)).unwrap();
    assert_eq!((report.count, report.timestamp_ms), (2, 40));
    assert!(report.open_error.is_none());
    let audio =
        ReceivedAudio { sample_rate: 0, num_channels: 0, samples_per_channel: 0, data: &[] };
    assert!(ctx.handle_audio_frame(&audio).unwrap().is_none());
    ctx.flush().unwrap();
}

#[test]
fn write_errors_come_through() {
    let mut ctx = CallbackContext::new(Pipe { broken: false });
    ctx.handle_video_frame(&frame(&Y, &U, &V, 0)).unwrap();
    ctx.mkv_writer.as_mut().unwrap().writer.broken = true;
    assert_eq!(
        ctx.handle_video_frame(&frame(&Y, &U, &V, 1)).err(),
        Some("broken pipe".to_string())
    );
    let audio =
        ReceivedAudio { sample_rate: 8000, num_channels: 1, samples_per_channel: 1, data: &[0] };
    assert_eq!(ctx.handle_audio_frame(&audio).err(), Some("broken pipe".to_string()));
    assert_eq!(ctx.flush(), Err("broken pipe".to_string()));
    let silent =
        ReceivedAudio { sample_rate: 0, num_channels: 1, samples_per_channel: 1, data: &[0] };
    assert!(!ctx.can_take_audio(&silent));
}

#[test]
fn receiving_goes_on_and_ends() {
    let mut streams = ReceiveLoop { video_open: true, audio_open: true };
    let up = Some(TransportState::Connected);
    assert_eq!(streams.check(4_999_999_999, Some(TransportState::Failed)), ReceiveCheck::Wait);
    assert_eq!(streams.check(5_000_000_000, up), ReceiveCheck::Checked);
    assert_eq!(streams.check(5_000_000_000, None), ReceiveCheck::Checked);
    assert_eq!(
        streams.check(5_000_000_000, Some(TransportState::Closed)),
        ReceiveCheck::Stop(StopReason::ConnectionLost)
    );
    assert_eq!(streams.take_event(ReceiveEvent::VideoFrame(true)), None);
    assert_eq!(streams.take_event(ReceiveEvent::AudioFrame(true)), None);
    assert_eq!(
        streams.take_event(ReceiveEvent::VideoFrame(false)),
        Some(StopReason::VideoWriteFailed)
    );
    assert_eq!(
        streams.take_event(ReceiveEvent::AudioFrame(false)),
        Some(StopReason::AudioWriteFailed)
    );
    assert_eq!(streams.take_event(ReceiveEvent::VideoTimeout), Some(StopReason::VideoStalled));
    assert_eq!(streams.take_event(ReceiveEvent::VideoEnded), None);
    assert_eq!(streams.check(0, up), ReceiveCheck::Wait);
    assert_eq!(streams.take_event(ReceiveEvent::AudioEnded), None);
    assert_eq!(streams.check(0, up), ReceiveCheck::Stop(StopReason::StreamsEnded));
}

#[test]
fn video_may_stall_for_five_seconds() {
    assert_eq!(stall_wait_ns(None), None);
    assert_eq!(stall_wait_ns(Some(0)), Some(5_000_000_000));
    assert_eq!(stall_wait_ns(Some(4_999_999_999)), Some(1));
    assert_eq!(stall_wait_ns(Some(5_000_000_000)), Some(0));
    assert_eq!(stall_wait_ns(Some(u64::MAX)), Some(0));
}
