use webrtc_http_media::video_scaler::{
    scale_i420, I420Buffer, VideoScaler, TARGET_HEIGHT, TARGET_WIDTH,
};

#[test]
fn test_scale_if_needed_skips_target_size_frame() {
    let scaler = VideoScaler::new();
    let src = I420Buffer::new(TARGET_WIDTH, TARGET_HEIGHT);

    let scaled = scaler.scale_if_needed(&src);

    assert!(scaled.is_none());
}

#[test]
fn test_scale_if_needed_scales_small_frame() {
    let scaler = VideoScaler::new();
    let mut src = I420Buffer::new(640, 360);
    src.y.fill(16);
    src.u.fill(128);
    src.v.fill(128);

    let scaled = scaler.scale_if_needed(&src).unwrap();

    assert_eq!(scaled.width(), TARGET_WIDTH);
    assert_eq!(scaled.height(), TARGET_HEIGHT);
}

#[test]
fn one_short_side_is_enough() {
    let scaler = VideoScaler::new_with_target(100, 50);
    assert!(scaler.needs_upscale(99, 500));
    assert!(scaler.needs_upscale(1000, 49));
    assert!(!scaler.needs_upscale(100, 50));
    assert!(!scaler.needs_upscale(4000, 3000));
}

#[test]
fn scaling_works_on_a_copy() {
    let mut src = I420Buffer::new(3, 3);
    src.y[8] = 5;
    src.u[3] = 6;
    src.v[0] = 7;
    let job = scale_i420(&src, 30, 20);
    assert_eq!((job.width(), job.height()), (30, 20));
    assert_eq!((job.source.width, job.source.height), (3, 3));
    assert_eq!((job.source.stride_y, job.source.stride_u, job.source.stride_v), (3, 2, 2));
    assert_eq!(job.source.y, vec![0, 0, 0, 0, 0, 0, 0, 0, 5]);
    assert_eq!(job.source.u, vec![0, 0, 0, 6]);
    assert_eq!(job.source.v, vec![7, 0, 0, 0]);
}
