use webrtc_http_media::connection::TransportState;
use webrtc_http_media::whip::{
    can_pace, send_outcome, AudioPacing, CallbackContext, DispatchAction, DispatchEvent, TaskEnd,
    AUDIO_QUEUE_SIZE_MS, LATE_DROP_THRESHOLD_MS,
};

#[test]
fn pacing_counts_from_the_first_frame() {
    let mut ctx = CallbackContext::new();
    assert_eq!(ctx.ensure_pacing_base(700), 700);
    assert_eq!(ctx.ensure_pacing_base(900), 700);
    assert_eq!(ctx.pacing_pts_start_ms, Some(700));
}

#[test]
fn video_waits_until_it_is_due() {
    let mut ctx = CallbackContext::new();
    assert_eq!(ctx.pace_video(1000, 700, 100), 200);
    assert_eq!(ctx.last_video_drift_ms, -200);
    assert_eq!(ctx.pace_video(1000, 700, 300), 0);
    assert_eq!(ctx.last_video_drift_ms, 0);
    // Video is late, and is sent all the same.
    assert_eq!(ctx.pace_video(1000, 700, 5300), 0);
    assert_eq!(ctx.last_video_drift_ms, 5000);
    assert!(can_pace(1000, 700, 0));
    assert!(!can_pace(i64::MIN, 1, 0));
}

#[test]
fn late_audio_is_dropped() {
    assert_eq!(LATE_DROP_THRESHOLD_MS, 150);
    assert_eq!(AUDIO_QUEUE_SIZE_MS, 100);
    let mut ctx = CallbackContext::new();
    assert_eq!(ctx.pace_audio(1000, 700, 100), AudioPacing::Feed(200));
    assert_eq!(ctx.pace_audio(1010, 700, 460), AudioPacing::Feed(0));
    assert_eq!(ctx.last_audio_drift_ms, 150);
    assert_eq!(ctx.pace_audio(1020, 700, 471), AudioPacing::Drop);
    assert_eq!(ctx.last_audio_drift_ms, 151);
    assert_eq!(ctx.first_audio_mkv_timestamp_ms, 1000);
    assert_eq!(ctx.last_audio_mkv_timestamp_ms, 1020);
}

#[test]
fn video_frames_fill_the_planes() {
    let mut ctx = CallbackContext::new();
    let data: Vec<u8> = (1..=17).collect(); // 3x3: Y=9, U=4, V=4
    let mut y = [0u8; 10];
    let mut u = [0u8; 3];
    let mut v = [0u8; 4];
    assert!(ctx.can_feed_video(40, 3, 3));
    let feed = ctx.feed_video_frame(&data, 40, 3, 3, &mut y, &mut u, &mut v);
    assert_eq!(feed.count, 1);
    assert_eq!(feed.timestamp_us, 0);
    assert_eq!(y, [1, 2, 3, 4, 5, 6, 7, 8, 9, 0]);
    assert_eq!(u, [10, 11, 12]);
    assert_eq!(v, [14, 15, 16, 17]);
    // One byte short: the planes stay as they are.
    let feed = ctx.feed_video_frame(&[0; 16], 73, 3, 3, &mut y, &mut u, &mut v);
    assert_eq!(feed.count, 2);
    assert_eq!(feed.timestamp_us, 33_000);
    assert_eq!(u, [10, 11, 12]);
    assert_eq!(ctx.first_video_timestamp_ms, 40);
    assert_eq!(ctx.last_video_timestamp_ms, 73);
    assert!(!ctx.can_feed_video(40, 1 << 16, 1 << 16));
    assert!(!ctx.can_feed_video(i64::MAX, 2, 2));
}

#[test]
fn audio_frames_are_accounted_for() {
    let mut ctx = CallbackContext::new();
    assert_eq!(ctx.begin_audio_frame(480, 1000, 1000), 1);
    ctx.end_audio_frame(7);
    assert_eq!(ctx.begin_audio_frame(480, 1010, 1012), 2);
    ctx.end_audio_frame(3);
    assert_eq!(ctx.audio_total_samples, 960);
    assert_eq!(ctx.first_audio_timestamp_ms, 1000);
    assert_eq!(ctx.last_audio_timestamp_ms, 1010);
    assert_eq!(ctx.last_audio_mkv_timestamp_ms, 1012);
    assert_eq!(ctx.audio_capture_wait_total_ms, 10);
    assert_eq!(ctx.audio_capture_wait_count, 2);
    assert_eq!(ctx.audio_capture_wait_max_ms, 7);
    assert_eq!(ctx.last_audio_capture_wait_ms, 3);
    let stats = ctx.frame_stats(0, 1);
    assert_eq!(stats.video_delta, 0);
    assert_eq!(stats.audio_delta, 1);
    assert_eq!(stats.audio_clock_ms, 10);
    assert_eq!(stats.mkv_audio_elapsed_ms, 12);
    assert_eq!(stats.audio_mkv_diff_ms, 2);
    assert_eq!(stats.audio_capture_wait_avg_ms, 5);
    assert_eq!(stats.av_diff, -1);
}

#[test]
fn statistics_before_the_first_frame() {
    let stats = CallbackContext::new().frame_stats(5, 5);
    assert_eq!(stats.video_delta, 0);
    assert_eq!(stats.audio_delta, 0);
    assert_eq!(stats.audio_clock_ms, -1);
    assert_eq!(stats.mkv_audio_elapsed_ms, -1);
    assert_eq!(stats.audio_mkv_diff_ms, -1);
    assert_eq!(stats.audio_capture_wait_avg_ms, -1);
}

#[test]
fn frames_are_dispatched() {
    let mut ctx = CallbackContext::new();
    assert!(matches!(
        ctx.dispatch(DispatchEvent::StateSeen(Some(TransportState::Connected))),
        DispatchAction::ReadFrame
    ));
    assert!(matches!(ctx.dispatch(DispatchEvent::StateSeen(None)), DispatchAction::ReadFrame));
    assert!(matches!(ctx.dispatch(DispatchEvent::VideoRead), DispatchAction::HandVideo));
    assert!(matches!(ctx.dispatch(DispatchEvent::VideoHanded(true)), DispatchAction::ServeIce));
    assert!(matches!(ctx.dispatch(DispatchEvent::AudioRead), DispatchAction::HandAudio));
    assert!(matches!(ctx.dispatch(DispatchEvent::AudioHanded(true)), DispatchAction::ServeIce));
    assert!(matches!(ctx.dispatch(DispatchEvent::IceServed), DispatchAction::SeeState));
    ctx.dispatch(DispatchEvent::VideoHanded(true));
    ctx.dequeue_video();
    ctx.dequeue_audio();
    assert_eq!((ctx.video_queue_backlog, ctx.video_queue_backlog_max), (1, 2));
    assert_eq!((ctx.audio_queue_backlog, ctx.audio_queue_backlog_max), (0, 1));
}

#[test]
fn dispatching_ends() {
    let mut ctx = CallbackContext::new();
    assert!(matches!(
        ctx.dispatch(DispatchEvent::StateSeen(Some(TransportState::Failed))),
        DispatchAction::Finish(Ok(()))
    ));
    assert!(matches!(
        ctx.dispatch(DispatchEvent::StateSeen(Some(TransportState::Closed))),
        DispatchAction::Finish(Ok(()))
    ));
    assert!(matches!(ctx.dispatch(DispatchEvent::EndOfStream), DispatchAction::Finish(Ok(()))));
    let message = |action| match action {
        DispatchAction::Finish(Err(e)) => e,
        other => panic!("{:?}", other),
    };
    assert_eq!(message(ctx.dispatch(DispatchEvent::ReadFailed("bad".to_string()))), "bad");
    assert_eq!(
        message(ctx.dispatch(DispatchEvent::VideoHanded(false))),
        "Video task terminated unexpectedly"
    );
    assert_eq!(
        message(ctx.dispatch(DispatchEvent::AudioHanded(false))),
        "Audio task terminated unexpectedly"
    );
    assert_eq!(ctx, CallbackContext::new());
}

#[test]
fn first_failure_is_reported() {
    let panicked = || TaskEnd::Panicked("p".to_string());
    let failed = |e: &str| TaskEnd::Failed(e.to_string());
    let err = |e: &str| Err(e.to_string());
    assert_eq!(send_outcome(Ok(()), TaskEnd::Finished, TaskEnd::Finished), Ok(()));
    assert_eq!(send_outcome(err("d"), panicked(), panicked()), err("Video task panicked: p"));
    assert_eq!(send_outcome(err("d"), failed("v"), panicked()), err("Audio task panicked: p"));
    assert_eq!(send_outcome(err("d"), failed("v"), failed("a")), err("d"));
    assert_eq!(send_outcome(Ok(()), failed("v"), failed("a")), err("v"));
    assert_eq!(send_outcome(Ok(()), TaskEnd::Finished, failed("a")), err("a"));
}
