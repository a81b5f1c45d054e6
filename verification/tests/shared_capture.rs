use std::sync::Arc;

use instant_local_stream::capture::CaptureError;
use instant_local_stream::media::CaptureSettings;
use instant_local_stream::shared_capture::{
    CaptureFormat, FirstFrame, Received, SharedCapture, SharedCaptureError, SourcePixelFormat,
    ffmpeg_args, pack_dimensions, raw_capture_filter, read_failure, rest_after_frame,
    target_dimensions, target_dimensions_from_source, target_format, unpack_dimensions,
    yuv420p_frame_size,
};
use instant_local_stream::window_reader::{
    Candidate, CapturedWindowFrame, FirstSurface, RunningStep, StartingReader, StartupStep,
    WindowFrame, WindowReader, WindowUpdate, exact_candidate, fitted_candidate, report_not_ready,
    resize_rgba, restored_surface_is_stale,
};
use instant_local_stream::window_resize::Dimensions;

fn size(width: u32, height: u32) -> Dimensions {
    Dimensions { width, height }
}

fn publish(capture: &mut SharedCapture, data: Vec<u8>, at: u64, generation: u64) -> bool {
    let format = capture.format;
    capture.publish_frame_at_for_generation(format, Arc::new(data), at, generation)
}

fn test_settings() -> CaptureSettings {
    CaptureSettings {
        source_kind: "monitor".to_owned(),
        source_index: 0,
        source_native_id: None,
        draw_mouse: true,
        width: 1_920,
        height: 1_080,
        fps: 60,
        output_height: None,
        output_fps: None,
        bitrate: 1,
        quality_mode: "manual".to_owned(),
        bitrate_mode: "fixed".to_owned(),
        adaptive_quality_ceiling: "source".to_owned(),
        adaptive_fps_ceiling: "source".to_owned(),
        max_quality_groups: "1".to_owned(),
        latency_preference: "low".to_owned(),
        audio_mode: "off".to_owned(),
        excluded_audio_processes: Vec::new(),
    }
}

#[test]
fn target_dimensions_scale_to_the_requested_height() {
    let mut settings = test_settings();
    settings.width = 1_920;
    settings.height = 1_080;
    settings.output_height = Some(720);
    assert_eq!(
        target_dimensions_from_source(&settings, size(1_920, 1_080)).unwrap(),
        size(1_280, 720)
    );
}

#[test]
fn test_source_uses_test_pattern_dimensions() {
    let mut settings = test_settings();
    settings.source_kind = "test".to_owned();
    settings.output_height = Some(360);
    assert_eq!(
        target_dimensions(&settings, Err(CaptureError::MissingMonitor)).unwrap(),
        size(640, 360)
    );
}

#[test]
fn diagnostic_test_pattern_contains_the_tone_gate_marker() {
    let mut settings = test_settings();
    settings.source_kind = "test".to_owned();
    settings.audio_mode = "test".to_owned();
    let args = ffmpeg_args(&settings, 1_280, 720, 60, Vec::new());
    let filter = args
        .windows(2)
        .find_map(|pair| (pair[0] == "-vf").then_some(pair[1].as_str()))
        .expect("diagnostic test pattern should have a video marker filter");
    assert!(filter.contains("drawbox="));
    assert!(filter.contains("color=lime@0.9"));
    assert!(filter.contains("enable=lt(mod(time(0)"));
}

#[test]
fn target_dimensions_preserve_an_ultrawide_source_ratio() {
    let mut settings = test_settings();
    settings.output_height = Some(1080);
    assert_eq!(
        target_dimensions_from_source(&settings, size(3440, 1440)).unwrap(),
        size(2580, 1080)
    );
}

#[test]
fn raw_capture_filter_preserves_aspect_with_an_exact_frame_canvas() {
    let filter = raw_capture_filter(1_280, 720);
    assert!(filter.contains("scale=1280:720:force_original_aspect_ratio=decrease"));
    assert!(filter.contains("pad=1280:720"));
    assert!(filter.ends_with("setsar=1"));
}

#[test]
fn shared_capture_yuv420p_frame_size_is_one_and_a_half_bytes_per_pixel() {
    assert_eq!(yuv420p_frame_size(4, 2).unwrap(), 12);
}

#[test]
fn detached_reader_cannot_publish_or_fail_a_new_generation() {
    let format = CaptureFormat {
        width: 4,
        height: 2,
        fps: 30,
        pixel_format: SourcePixelFormat::Yuv420p,
    };
    let mut capture = SharedCapture::new(format);
    assert!(publish(&mut capture, vec![1_u8; 12], 5, 1));
    capture.advance_capture_generation();

    assert!(!publish(&mut capture, vec![2_u8; 12], 6, 1));
    capture.finish_reader_for_generation(1, Some("stale failure".to_owned()));

    let latest = &capture.latest;
    assert_eq!(latest.sequence, 1);
    assert_eq!(latest.frame.as_ref().unwrap().data[0], 1);
    assert!(!latest.ended);
    assert!(latest.failure.is_none());
}

#[test]
fn repeated_window_frame_gets_a_fresh_publication_timestamp() {
    let format = CaptureFormat {
        width: 2,
        height: 2,
        fps: 30,
        pixel_format: SourcePixelFormat::Bgra,
    };
    let mut capture = SharedCapture::new(format);
    let captured = CapturedWindowFrame {
        data: Arc::new(vec![1_u8; 16]),
        captured_at_unix_nanos: 123,
    };

    let generation = capture.generation;
    assert!(publish(
        &mut capture,
        captured.data.to_vec(),
        captured.captured_at_unix_nanos,
        generation
    ));
    let mut reader = WindowReader {
        format,
        generation,
        latest: captured,
        was_minimized: false,
    };
    assert_eq!(
        reader.step(&mut capture, Some(true), true, 456),
        RunningStep::Repeated
    );

    let latest = &capture.latest;
    assert_eq!(latest.sequence, 2);
    assert_ne!(latest.frame.as_ref().unwrap().captured_at_unix_nanos, 123);
    assert_eq!(latest.frame.as_ref().unwrap().data.as_slice(), &[1_u8; 16]);
}

#[test]
fn restore_rejects_a_queued_minimized_surface() {
    assert!(restored_surface_is_stale(
        true,
        Some(size(1_280, 720)),
        size(640, 96)
    ));
    assert!(!restored_surface_is_stale(
        true,
        Some(size(1_280, 720)),
        size(1_280, 720)
    ));
    assert!(!restored_surface_is_stale(
        false,
        Some(size(1_280, 720)),
        size(640, 96)
    ));
}

#[test]
fn window_dimension_observations_are_scoped_to_the_capture_generation() {
    let format = CaptureFormat {
        width: 800,
        height: 600,
        fps: 30,
        pixel_format: SourcePixelFormat::Bgra,
    };
    let mut capture = SharedCapture::new(format);
    capture.generation = 4;
    capture.observed.generation = 4;

    capture.record_observed_source_dimensions(4, size(1200, 700));
    assert_eq!(unpack_dimensions(capture.observed.packed), size(1200, 700));
    capture.advance_capture_generation();
    capture.record_observed_source_dimensions(4, size(300, 200));
    assert_eq!(unpack_dimensions(capture.observed.packed), size(1200, 700));
    capture.record_observed_source_dimensions(5, size(1400, 900));
    assert_eq!(unpack_dimensions(capture.observed.packed), size(1400, 900));
}

#[test]
fn new_subscriber_skips_a_cached_frame_from_before_its_creation() {
    let format = CaptureFormat {
        width: 4,
        height: 2,
        fps: 30,
        pixel_format: SourcePixelFormat::Yuv420p,
    };
    let mut capture = SharedCapture::new(format);
    publish(&mut capture, vec![1_u8; 12], 5, 1);
    let mut subscription = capture.subscribe();
    assert!(matches!(subscription.recv(&capture), Received::Waiting));
    publish(&mut capture, vec![2_u8; 12], 6, 1);

    match subscription.recv(&capture) {
        Received::Frame(frame) => assert_eq!(frame.data.as_slice(), &[2_u8; 12]),
        other => panic!("{other:?}"),
    }
}

#[test]
fn primary_subscriber_can_consume_the_cached_initial_frame() {
    let format = CaptureFormat {
        width: 4,
        height: 2,
        fps: 30,
        pixel_format: SourcePixelFormat::Yuv420p,
    };
    let mut capture = SharedCapture::new(format);
    publish(&mut capture, vec![7_u8; 12], 5, 1);
    let mut subscription = capture.subscribe_including_latest();

    match subscription.recv(&capture) {
        Received::Frame(frame) => assert_eq!(frame.data.as_slice(), &[7_u8; 12]),
        other => panic!("{other:?}"),
    }
}

#[test]
fn readiness_waits_for_a_frame_from_the_new_producer_generation() {
    let format = CaptureFormat {
        width: 4,
        height: 2,
        fps: 30,
        pixel_format: SourcePixelFormat::Yuv420p,
    };
    let mut capture = SharedCapture::new(format);
    publish(&mut capture, vec![1_u8; 12], 5, 1);
    let previous_sequence = capture.latest.sequence;
    assert!(matches!(
        capture.wait_for_new_frame(previous_sequence, false),
        FirstFrame::Waiting
    ));
    publish(&mut capture, vec![2_u8; 12], 6, 1);

    assert!(matches!(
        capture.wait_for_new_frame(previous_sequence, false),
        FirstFrame::Ready
    ));
}

#[test]
fn readers_take_the_newest_frame() {
    let format = CaptureFormat {
        width: 1,
        height: 1,
        fps: 30,
        pixel_format: SourcePixelFormat::Bgra,
    };
    let mut capture = SharedCapture::new(format);
    let mut subscription = capture.subscribe();
    publish(&mut capture, vec![1; 4], 5, 1);
    publish(&mut capture, vec![2; 4], 6, 1);
    match subscription.recv(&capture) {
        Received::Frame(frame) => assert_eq!(frame.data[0], 2),
        other => panic!("{other:?}"),
    }
    capture.finish_reader(Some("gone".to_owned()));
    match subscription.recv(&capture) {
        Received::Failed(error) => assert_eq!(error, "shared FFmpeg capture failed: gone"),
        other => panic!("{other:?}"),
    }
    capture.finish_reader(None);
    assert!(matches!(subscription.recv(&capture), Received::Ended));
}

#[test]
fn dimensions_survive_packing() {
    let dimensions = size(3_840, 2_160);
    assert_eq!(pack_dimensions(dimensions), 0x0F00_0000_0870);
    assert_eq!(unpack_dimensions(pack_dimensions(dimensions)), dimensions);
    assert_eq!(
        unpack_dimensions(pack_dimensions(size(u32::MAX, u32::MAX))),
        size(u32::MAX, u32::MAX)
    );
}

#[test]
fn a_stopped_capture_is_not_restarted() {
    let format = CaptureFormat {
        width: 2,
        height: 2,
        fps: 30,
        pixel_format: SourcePixelFormat::Bgra,
    };
    let mut capture = SharedCapture::new(format);
    assert_eq!(capture.begin_restart(), Ok(0));
    assert!(capture.take_format(format).is_ok());
    assert_eq!(capture.backend_name(), "starting");
    assert!(
        capture
            .startup_failure()
            .contains("expected=2x2, observed=2x2")
    );
    capture.stop();
    assert_eq!(
        capture.begin_restart(),
        Err(SharedCaptureError::AlreadyStopped)
    );
    assert_eq!(
        capture.take_format(format),
        Err(SharedCaptureError::StoppedMeanwhile)
    );
    match capture.wait_for_new_frame(0, false) {
        FirstFrame::Failed(error) => {
            assert_eq!(error, "capture producer stopped before a frame was available");
        }
        other => panic!("{other:?}"),
    }
}

#[test]
fn small_and_minimized_windows_have_no_format() {
    let mut settings = test_settings();
    settings.source_kind = "window".to_owned();
    settings.source_native_id = Some(5);
    let refused = target_format(&settings, true, true, Ok(size(800, 600))).unwrap_err();
    assert_eq!(refused.message(), SharedCaptureError::MinimizedWindow.message());
    let refused = target_format(&settings, true, false, Ok(size(1, 600))).unwrap_err();
    assert_eq!(refused.message(), SharedCaptureError::SmallWindow.message());
    let format = target_format(&settings, true, false, Ok(size(801, 600))).unwrap();
    assert_eq!(format.pixel_format, SourcePixelFormat::Bgra);
    settings.source_kind = "monitor".to_owned();
    let format = target_format(&settings, true, false, Ok(size(801, 601))).unwrap();
    assert_eq!((format.width % 2, format.height % 2), (0, 0));
    assert_eq!(format.pixel_format, SourcePixelFormat::Yuv420p);
    assert!(target_format(&settings, true, false, Err(CaptureError::MissingMonitor)).is_err());
}

#[test]
fn producers_rest_until_the_frame_is_over() {
    assert_eq!(rest_after_frame(100, 30), 70);
    assert_eq!(rest_after_frame(100, 130), 0);
    assert_eq!(
        read_failure(true, "broken pipe"),
        "FFmpeg ended before a complete raw frame was available"
    );
    assert_eq!(read_failure(false, "broken pipe"), "broken pipe");
}

#[test]
fn windows_are_fitted_into_the_frame() {
    let pixels = vec![10, 20, 30, 40];
    assert_eq!(
        resize_rgba(&pixels, size(1, 1), size(1, 1)).unwrap(),
        vec![10, 20, 30, 40]
    );
    assert_eq!(
        resize_rgba(&vec![1, 2, 3, 4, 5, 6, 7, 8], size(2, 1), size(2, 2)).unwrap(),
        vec![1, 2, 3, 4, 5, 6, 7, 8, 0, 0, 0, 255, 0, 0, 0, 255]
    );
    assert!(resize_rgba(&pixels, size(0, 1), size(1, 1)).is_none());
    assert!(resize_rgba(&pixels, size(2, 1), size(1, 1)).is_none());
}

#[test]
fn a_window_reader_starts_with_an_exact_surface() {
    let format = CaptureFormat {
        width: 2,
        height: 2,
        fps: 30,
        pixel_format: SourcePixelFormat::Bgra,
    };
    let mut capture = SharedCapture::new(format);
    assert!(StartingReader::begin(format, 1, Some(size(3, 2))).is_none());
    let starting = StartingReader::begin(format, 1, Some(size(2, 2))).unwrap();
    assert_eq!(starting.step(&capture, true, false), StartupStep::GiveUp);
    assert_eq!(starting.step(&capture, false, true), StartupStep::Sleep);
    assert_eq!(starting.step(&capture, false, false), StartupStep::Wait);
    let frame = WindowFrame {
        width: 2,
        height: 2,
        source: size(2, 2),
        pixels: vec![9; 16],
    };
    let update = exact_candidate(format, frame, 77);
    assert!(matches!(&update, WindowUpdate::Surface(_)));
    let mut reader = match starting.on_update(&mut capture, update, false, false) {
        FirstSurface::Running(reader) => reader,
        other => panic!("{other:?}"),
    };
    assert_eq!(capture.latest.sequence, 1);

    let minimized = WindowUpdate::Surface(Candidate {
        frame: CapturedWindowFrame {
            data: Arc::new(vec![3; 16]),
            captured_at_unix_nanos: 80,
        },
        source: size(2, 2),
    });
    reader.on_update(&mut capture, minimized, true, false, None, 90);
    assert_eq!(capture.latest.frame.as_ref().unwrap().data[0], 9);
    assert_eq!(
        reader.step(&mut capture, Some(false), false, 95),
        RunningStep::Quit
    );
}

#[test]
fn surfaces_of_another_size_are_scaled_or_reported() {
    let format = CaptureFormat {
        width: 2,
        height: 2,
        fps: 30,
        pixel_format: SourcePixelFormat::Bgra,
    };
    let frame = || WindowFrame {
        width: 1,
        height: 1,
        source: size(1, 1),
        pixels: vec![1, 2, 3, 4],
    };
    match exact_candidate(format, frame(), 5) {
        WindowUpdate::OtherSize(other) => assert_eq!(other, size(1, 1)),
        other => panic!("{other:?}"),
    }
    match fitted_candidate(format, frame(), 5) {
        WindowUpdate::Surface(candidate) => assert_eq!(candidate.frame.data.len(), 16),
        other => panic!("{other:?}"),
    }
    let mut capture = SharedCapture::new(format);
    report_not_ready(&mut capture, 1);
    assert_eq!(
        capture.failure().as_deref(),
        Some("Windows Graphics Capture did not become ready")
    );
}
