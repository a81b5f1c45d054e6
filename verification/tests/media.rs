use instant_local_stream::config::AppConfig;
use instant_local_stream::media::{
    CaptureSettings, ENCODER_BACKLOG_RESTART_AGE_NANOS, ENCODER_BACKLOG_RESTART_FRAMES,
    EncodedFrameTiming, EncoderInput, EncoderTiming, FrameAction, FrameCaptureMapping,
    FrameCaptureTiming, FramePacer, H264NalKind, MAX_ENCODED_FRAME_AGE_NANOS, MediaError,
    MediaPipeline, VideoCodec, configured_output_fps, first_timestamp,
    h264_level_31_bitrate_compatible, h264_level_31_compatible, h264_nal_kind,
    initial_rtp_timestamp, output_dimensions, plan_encoder, rtp_timestamp_step,
    source_pixel_format_frame_size, video_encode_args, yuv420p_frame_size,
};
use instant_local_stream::shared_capture::{SourceFrame, SourcePixelFormat};

const H264_LEVEL: &str = "3.1";

fn millis(n: u64) -> u64 {
    n * 1_000_000
}

fn has_pair(args: &[String], first: &str, second: &str) -> bool {
    args.windows(2).any(|pair| pair == [first, second])
}

#[test]
fn vp8_encoder_forces_opaque_yuv420p_output() {
    let pipeline = MediaPipeline::with_codec("vp8").unwrap();
    let args = video_encode_args(pipeline.codec, None, None, "1_000_000".to_owned());
    assert!(args.windows(2).any(|pair| pair == ["-pix_fmt", "yuv420p"]));
}

#[test]
fn vp8_encoder_disables_lookahead_and_flushes_low_latency_output() {
    let pipeline = MediaPipeline::with_codec("vp8").unwrap();
    let args = video_encode_args(
        pipeline.codec,
        None,
        Some("30".to_owned()),
        "1_000_000".to_owned(),
    );
    assert!(args.windows(2).any(|pair| pair == ["-lag-in-frames", "0"]));
    assert!(args.windows(2).any(|pair| pair == ["-auto-alt-ref", "0"]));
    assert!(args.windows(2).any(|pair| pair == ["-flush_packets", "1"]));
}

#[test]
fn encoder_readiness_reports_first_frame_and_startup_failure() {
    let mut ready = MediaPipeline::with_codec("vp8").unwrap();
    ready.mark_ready();
    ready.wait_until_ready().unwrap();

    let mut failed = MediaPipeline::with_codec("vp8").unwrap();
    failed.mark_failed("test failure");
    let error = failed.wait_until_ready().unwrap_err();
    assert!(error.message("1ms").contains("test failure"));
}

#[test]
fn per_viewer_rtp_timestamp_resolves_the_source_capture_time() {
    let mut pipeline = MediaPipeline::with_codec("vp8").unwrap();
    let connection_id = 77;
    pipeline.subscribe(connection_id, 1);
    pipeline.record_frame_timing(
        connection_id,
        FrameCaptureMapping {
            rtp_timestamp: 123,
            capture_time_unix_nanos: 456_000_000,
            encoder_delay_ms: 17,
            recorded_at: millis(1),
        },
    );

    assert_eq!(
        pipeline.frame_capture_timing(connection_id, 123),
        Some(FrameCaptureTiming {
            capture_time_unix_nanos: 456_000_000,
            encoder_delay_ms: 17,
        })
    );
    assert_eq!(pipeline.frame_capture_timing(connection_id, 124), None);
}

#[test]
fn encoder_timing_is_recorded_before_output_and_can_be_rolled_back() {
    let now = millis(1_000);
    let mut timing = EncoderTiming::new();
    timing.record_input(now, 123);
    assert_eq!(
        timing.encoded_frame_timing(now).capture_time_unix_nanos,
        Some(123)
    );

    timing.record_input(now, 456);
    timing.discard_input(456);
    assert_eq!(timing.encoded_frame_timing(now).capture_time_unix_nanos, None);
}

#[test]
fn sustained_encoder_backlog_triggers_a_live_edge_restart() {
    let mut pipeline = MediaPipeline::with_codec("vp8").unwrap();
    let timing = EncodedFrameTiming {
        stale: true,
        age_nanos: Some(ENCODER_BACKLOG_RESTART_AGE_NANOS),
        capture_time_unix_nanos: Some(1),
        encoder_delay_ms: Some(ENCODER_BACKLOG_RESTART_AGE_NANOS / 1_000_000),
    };
    let mut consecutive = 0;
    for _ in 1..ENCODER_BACKLOG_RESTART_FRAMES {
        assert!(!pipeline.encoder_backlog_requires_restart(&timing, &mut consecutive));
    }
    assert!(pipeline.encoder_backlog_requires_restart(&timing, &mut consecutive));
    assert_eq!(pipeline.encoder_backlog_restarts(), 1);
    assert_eq!(pipeline.capture_revision, 1);
}

#[test]
fn stale_encoder_frame_threshold_is_sub_second() {
    assert!(MAX_ENCODED_FRAME_AGE_NANOS <= millis(250));
}

#[test]
fn h264_encoder_uses_single_slice_frames() {
    let pipeline = MediaPipeline::with_codec("h264").unwrap();
    let args = video_encode_args(pipeline.codec, None, None, "1_000_000".to_owned());
    assert!(
        args.windows(2)
            .any(|pair| pair == ["-x264-params", "repeat-headers=1:sliced-threads=0"])
    );
}

#[test]
fn h264_encoder_and_sdp_advertise_the_same_conservative_level() {
    let pipeline = MediaPipeline::with_codec("h264").unwrap();
    let low = video_encode_args(
        pipeline.codec,
        Some(720),
        Some("30".to_owned()),
        "1_000_000".to_owned(),
    );
    let high = video_encode_args(
        pipeline.codec,
        Some(1080),
        Some("60".to_owned()),
        "1_000_000".to_owned(),
    );
    assert!(low.windows(2).any(|pair| pair == ["-level:v", H264_LEVEL]));
    assert!(high.windows(2).any(|pair| pair == ["-level:v", H264_LEVEL]));
    assert!(pipeline.sdp_fmtp_line().contains("profile-level-id=42e01f"));
}

#[test]
fn h264_level_31_limits_cover_720p30_but_not_larger_profiles() {
    assert!(h264_level_31_compatible(1280, 720, 30));
    assert!(!h264_level_31_compatible(1280, 720, 60));
    assert!(!h264_level_31_compatible(1920, 1080, 30));
    assert!(h264_level_31_bitrate_compatible(14_000_000));
    assert!(!h264_level_31_bitrate_compatible(14_000_001));
}

#[test]
fn output_fps_never_upsamples_capture_frames() {
    let settings = CaptureSettings::from_config(&AppConfig::default());
    assert_eq!(configured_output_fps(60, &settings).unwrap(), 60);

    let mut faster_output = settings;
    faster_output.output_fps = Some(60);
    assert!(configured_output_fps(30, &faster_output).is_err());
}

#[test]
fn media_yuv420p_frame_size_is_one_and_a_half_bytes_per_pixel() {
    assert_eq!(yuv420p_frame_size(4, 2).unwrap(), 12);
}

#[test]
fn h264_filler_nals_are_not_queued_as_video_frames() {
    assert_eq!(h264_nal_kind(&[0x65, 0x88]), H264NalKind::Picture);
    assert_eq!(
        h264_nal_kind(&[0x67, 0x42]),
        H264NalKind::ParameterOrPrefix
    );
    assert_eq!(h264_nal_kind(&[0x0c, 0x00]), H264NalKind::Discard);
}

#[test]
fn test_pattern_preserves_a_custom_source_aspect_ratio() {
    let mut settings = CaptureSettings::from_config(&AppConfig::default());
    settings.width = 3440;
    settings.height = 1440;
    settings.output_height = Some(720);
    assert_eq!(settings.test_pattern_dimensions(), (1720, 720));
}

#[test]
fn codecs_have_the_mime_types_of_the_negotiation() {
    let codec = VideoCodec::parse("VP8").unwrap();
    assert_eq!(codec.mime_type(), "video/VP8");
    assert_eq!(codec.payload_type(), 96);
    assert_eq!(VideoCodec::parse("vp9").unwrap().mime_type(), "video/VP9");
    assert_eq!(VideoCodec::parse("h264").unwrap().mime_type(), "video/H264");
    assert_eq!(VideoCodec::parse("h264").unwrap().name(), "H.264");
    assert!(VideoCodec::parse("av1").is_err());
}

#[test]
fn first_rtp_timestamps_are_never_zero() {
    assert_eq!(first_timestamp(0), 1);
    assert_eq!(first_timestamp(9), 9);
    assert!(initial_rtp_timestamp() >= 1);
}

#[test]
fn rtp_steps_follow_the_video_clock() {
    assert_eq!(rtp_timestamp_step(1_000_000_000), 90_000);
    assert_eq!(rtp_timestamp_step(33_333_333), 3_000);
    assert_eq!(rtp_timestamp_step(16_666_667), 1_500);
    assert_eq!(rtp_timestamp_step(0), 0);
}

#[test]
fn encoder_refusals_are_named() {
    let mut settings = CaptureSettings::from_config(&AppConfig::default());
    assert_eq!(configured_output_fps(0, &settings), Err(MediaError::SourceFps));
    settings.output_fps = Some(60);
    let error = configured_output_fps(30, &settings).unwrap_err();
    assert_eq!(
        error.message(),
        "output FPS (60) cannot exceed source FPS (30); frame duplication would invalidate capture timing"
    );
    assert_eq!(
        output_dimensions(0, 2, None),
        Err(MediaError::SourceDimensions)
    );
    assert_eq!(
        output_dimensions(2, 2, Some(0)),
        Err(MediaError::OutputHeight)
    );
    assert_eq!(output_dimensions(1920, 1080, Some(720)), Ok((1280, 720)));
    assert_eq!(
        source_pixel_format_frame_size(SourcePixelFormat::Bgra, 4, 2),
        Ok(32)
    );
    assert!(yuv420p_frame_size(3, 2).is_err());

    settings.output_height = Some(1080);
    settings.output_fps = Some(30);
    let refused = plan_encoder(
        VideoCodec::H264,
        1920,
        1080,
        SourcePixelFormat::Yuv420p,
        30,
        &settings,
    );
    assert_eq!(
        refused.unwrap_err().message(),
        "requested H.264 output 1920x1080 at 30 FPS exceeds constrained-baseline level 3.1"
    );
}

#[test]
fn planned_encoders_read_the_raw_frames() {
    let mut settings = CaptureSettings::from_config(&AppConfig::default());
    settings.output_height = Some(720);
    settings.output_fps = Some(30);
    settings.bitrate = 4_000_000;
    let plan = plan_encoder(
        VideoCodec::Vp8,
        1920,
        1080,
        SourcePixelFormat::Yuv420p,
        60,
        &settings,
    )
    .unwrap();
    assert_eq!(plan.frame_size, 1920 * 1080 * 3 / 2);
    assert_eq!(plan.output_fps, 30);
    assert!(has_pair(&plan.args, "-video_size", "1920x1080"));
}

#[test]
fn encoder_input_is_paced_and_checked() {
    let settings = CaptureSettings::from_config(&AppConfig::default());
    let plan = plan_encoder(
        VideoCodec::Vp8,
        4,
        2,
        SourcePixelFormat::Yuv420p,
        60,
        &settings,
    )
    .unwrap();
    let mut input = EncoderInput::new(&plan, millis(16), millis(100));
    let mut frame = SourceFrame {
        width: 4,
        height: 2,
        pixel_format: SourcePixelFormat::Yuv420p,
        captured_at_unix_nanos: 5,
        data: std::sync::Arc::new(vec![0; 12]),
    };
    assert_eq!(input.accepts(&frame, millis(100)), Ok(true));
    input.written(millis(100));
    assert_eq!(input.accepts(&frame, millis(101)), Ok(false));
    frame.width = 6;
    assert!(input.accepts(&frame, millis(200)).is_err());
}

#[test]
fn pacing_waits_for_the_next_frame() {
    let mut pacer = FramePacer::new(millis(10), millis(100));
    let wait = pacer.wait_after_frame(millis(100));
    assert_eq!(wait, Some(millis(10)));
    pacer.reset_to_now(millis(500));
}

#[test]
fn late_frames_are_skipped() {
    let mut pipeline = MediaPipeline::with_codec("vp8").unwrap();
    let mut consecutive = 0;
    assert_eq!(
        pipeline.on_encoded_frame(millis(1), &mut consecutive),
        FrameAction::Skip
    );
    pipeline.activate();
    assert_eq!(
        pipeline.on_encoded_frame(millis(2), &mut consecutive),
        FrameAction::Deliver {
            capture_time_unix_nanos: None,
            encoder_delay_ms: None
        }
    );
    pipeline.timing.record_input(millis(10), 42);
    assert_eq!(
        pipeline.on_encoded_frame(millis(400), &mut consecutive),
        FrameAction::Skip
    );
    pipeline.timing.record_input(millis(400), 43);
    assert_eq!(
        pipeline.on_encoded_frame(millis(410), &mut consecutive),
        FrameAction::Deliver {
            capture_time_unix_nanos: Some(43),
            encoder_delay_ms: Some(10)
        }
    );
}

#[test]
fn viewers_receive_the_newest_frame_with_its_timestamp() {
    let mut pipeline = MediaPipeline::with_codec("vp8").unwrap();
    pipeline.subscribe(5, 1000);
    pipeline.write_frame(vec![1], 33_333_333, Some(7), Some(3));
    pipeline.write_frame(vec![2], 33_333_333, Some(8), Some(4));
    let first = pipeline.next_sample(5, millis(1)).unwrap();
    assert_eq!(first.sample.data, vec![2]);
    assert_eq!(first.rtp_timestamp, 1000);
    assert!(pipeline.next_sample(5, millis(1)).is_none());
    assert_eq!(
        pipeline.frame_capture_timing(5, 1000).unwrap().capture_time_unix_nanos,
        8
    );
    pipeline.unsubscribe(5);
    assert!(pipeline.next_sample(5, millis(2)).is_none());
}

#[test]
fn pipeline_status_follows_its_life() {
    let mut pipeline = MediaPipeline::with_codec("vp9").unwrap();
    assert_eq!(pipeline.status(), "waiting");
    pipeline.activate();
    assert_eq!(pipeline.status(), "streaming");
    pipeline.record_result(None);
    assert_eq!(pipeline.status(), "stopped");
    pipeline.record_result(Some("broken".to_owned()));
    assert_eq!(pipeline.status(), "error");
    assert_eq!(pipeline.failure().as_deref(), Some("broken"));
}

#[test]
fn rtp_timestamps_wrap_around() {
    let mut pipeline = MediaPipeline::with_codec("vp8").unwrap();
    pipeline.subscribe(5, u32::MAX);
    pipeline.write_frame(vec![1], 33_333_333, None, None);
    assert_eq!(
        pipeline.next_sample(5, millis(1)).unwrap().rtp_timestamp,
        u32::MAX
    );
    pipeline.write_frame(vec![2], 33_333_333, None, None);
    assert_eq!(pipeline.next_sample(5, millis(1)).unwrap().rtp_timestamp, 2_999);
}

#[test]
fn a_late_pacer_builds_up_no_debt() {
    let mut pacer = FramePacer::new(millis(10), millis(100));
    assert_eq!(pacer.wait_after_frame(millis(500)), None);
    assert_eq!(pacer.wait_after_frame(millis(500)), Some(millis(10)));
    let mut pacer = FramePacer::new(millis(10), millis(100));
    assert_eq!(pacer.wait_after_frame(millis(115)), None);
    assert_eq!(pacer.wait_after_frame(millis(115)), Some(millis(5)));
}
