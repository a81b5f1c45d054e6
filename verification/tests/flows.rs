use std::sync::Arc;

use instant_local_stream::audio::AudioPipeline;
use instant_local_stream::cli::{StartArgs, ValidateArgs, validated_config};
use instant_local_stream::config::{AppConfig, ConfigArgs, ConfigErrorKind};
use instant_local_stream::groups::reconfiguration::StartedGroup;
use instant_local_stream::groups::{GroupLifecycle, TranscodeGroup, TranscodeGroups};
use instant_local_stream::media::output::OutputStep;
use instant_local_stream::media::{CaptureSettings, EncoderLoop, MediaPipeline};
use instant_local_stream::network::{UploadProbeReader, UploadSpeedTestProgress};
use instant_local_stream::packaging::candidate_paths;
use instant_local_stream::preview::preview_snapshot;
use instant_local_stream::profile::group_settings;
use instant_local_stream::sessions::{OfferRefusal, Sessions, offering_client};
use instant_local_stream::shared_capture::{
    CaptureFormat, CaptureSlot, SharedCapture, SourceFrame, SourcePixelFormat,
};
use instant_local_stream::ui::host::HostModel;
use instant_local_stream::ui::previews::{PreviewBoard, PreviewKey, TestPreviewSignature};
use instant_local_stream::web::{index_without_token, resolution_failure};
use instant_local_stream::window_resize::{
    CaptureDimensions, Dimensions, WatcherChange, WindowResizeDebouncer, WindowResizeEvent,
    attempt_is_notable, observe_window_resize, source_identity, sync_window_resize_watcher,
};

const NOW: u64 = 100_000_000_000;

fn size(width: u32, height: u32) -> Dimensions {
    Dimensions { width, height }
}

fn arguments(codec: &str) -> ConfigArgs {
    ConfigArgs {
        port: None,
        bind: "lan".to_owned(),
        http_port: 8475,
        media_ports: "40000".to_owned(),
        advertise_host: None,
        token: Some("Ab12Cd34Ef56".to_owned()),
        max_viewers: 8,
        source: "test:0".to_owned(),
        source_native_id: None,
        draw_mouse: true,
        codec: codec.to_owned(),
        quality: Some("720p".to_owned()),
        fps_preset: Some("30".to_owned()),
        width: None,
        height: None,
        fps: None,
        bitrate: 6_000_000,
        quality_mode: "manual".to_owned(),
        bitrate_mode: "fixed".to_owned(),
        adaptive_quality_ceiling: "source".to_owned(),
        adaptive_fps_ceiling: "source".to_owned(),
        max_quality_groups: "1".to_owned(),
        latency_preference: "balanced".to_owned(),
        audio: Some("off".to_owned()),
        exclude_audio_process: Vec::new(),
    }
}

#[test]
fn h264_parameters_take_no_time() {
    let mut pipeline = MediaPipeline::with_codec("h264").unwrap();
    let mut backlog = 0;
    pipeline.subscribe(5, 900);
    pipeline.activate();
    assert_eq!(
        pipeline.on_h264_unit(vec![0x67, 1], 33_333_333, NOW, &mut backlog),
        OutputStep::Next
    );
    assert_eq!(
        pipeline.on_h264_unit(vec![0x0c], 33_333_333, NOW, &mut backlog),
        OutputStep::Next
    );
    pipeline.timing.record_input(NOW, 77);
    assert_eq!(
        pipeline.on_h264_unit(vec![0x65, 2], 33_333_333, NOW, &mut backlog),
        OutputStep::Pace
    );
    let parameters = pipeline.next_sample(5, NOW).unwrap();
    assert_eq!(parameters.sample.data, vec![0x67, 1]);
    assert_eq!(parameters.sample.duration_nanos, 0);
    let picture = pipeline.next_sample(5, NOW).unwrap();
    assert_eq!(picture.sample.data, vec![0x65, 2]);
    assert_eq!(picture.rtp_timestamp, parameters.rtp_timestamp);
    assert!(pipeline.next_sample(5, NOW).is_none());
}

#[test]
fn late_frames_are_drained() {
    let mut pipeline = MediaPipeline::with_codec("vp8").unwrap();
    let mut backlog = 0;
    pipeline.subscribe(5, 900);
    pipeline.activate();
    pipeline.timing.record_input(NOW - 300_000_000, 77);
    assert_eq!(
        pipeline.on_frame(vec![1], 33_333_333, NOW, &mut backlog),
        OutputStep::Drain
    );
    assert!(pipeline.next_sample(5, NOW).is_none());
    assert_eq!(pipeline.stale_encoded_frames(), 1);
    assert_eq!(pipeline.encoder_delay_ms(), Some(300));
}

#[test]
fn encoders_run_until_their_settings_change() {
    let mut pipeline = MediaPipeline::with_codec("vp8").unwrap();
    let revision = pipeline.capture_revision;
    assert!(pipeline.encoder_continues(revision));
    assert_eq!(pipeline.after_encoder(revision), EncoderLoop::Return);
    pipeline.reconfigure(CaptureSettings::from_config(&AppConfig::default()));
    assert!(!pipeline.encoder_continues(revision));
    assert_eq!(pipeline.after_encoder(revision), EncoderLoop::Restart);
    assert!(pipeline.watcher_waits(0, false));
    assert!(!pipeline.watcher_waits(0, true));
    pipeline.timing.record_input(NOW, 1);
    pipeline.begin_encoder();
    assert!(pipeline.timing.submitted_frames.is_empty());
    pipeline.request_stop();
    assert_eq!(pipeline.after_encoder(revision), EncoderLoop::Stop);
    assert_eq!(pipeline.codec_id(), "vp8");
}

#[test]
fn started_encoders_replace_those_of_the_old_settings() {
    let settings = CaptureSettings::from_config(&AppConfig::default());
    let mut groups = TranscodeGroups::with_factory(
        vec![
            TranscodeGroup::active(0, 10, "vp8", settings.clone(), NOW),
            TranscodeGroup::active(1, 11, "vp8", group_settings(&settings, 1), NOW),
        ],
        None,
    );
    let mut next = settings.clone();
    next.output_height = Some(720);
    let wanted = groups.replacements_for(&next);
    assert_eq!(wanted.len(), 2);
    assert_eq!(wanted[0].settings.output_height, Some(720));
    let started = vec![
        StartedGroup {
            group_id: 0,
            media: 20,
        },
        StartedGroup {
            group_id: 1,
            media: 21,
        },
    ];
    let outcome = groups.commit_restart(&next, &started, NOW);
    assert_eq!(outcome.stopped, vec![10, 11]);
    assert_eq!(groups.media_by_id(0), Some(20));
    assert_eq!(groups.media_by_id(1), Some(21));
    assert_eq!(groups.groups[1].lifecycle, GroupLifecycle::Active);
}

#[test]
fn configurations_come_from_the_command_line() {
    let config = AppConfig::from_cli(Some(StartArgs {
        config: arguments("vp9"),
    }))
    .unwrap();
    assert_eq!(config.codec, "vp9");
    assert_eq!(config.output_height(), Some(720));
    assert_eq!(config.output_fps(), Some(30));
    assert_eq!(config.token, "Ab12Cd34Ef56");
    assert_eq!(config.media_bind_host(), "0.0.0.0");
    let refused = validated_config(
        AppConfig::default(),
        ValidateArgs {
            config: arguments("av1"),
        },
    );
    assert_eq!(refused.unwrap_err().kind, ConfigErrorKind::Codec);
    assert_eq!(AppConfig::from_cli(None).unwrap().codec, "auto");
}

#[test]
fn offers_need_a_client_and_a_codec_it_decodes() {
    assert_eq!(offering_client(Some(" viewer ")), Ok("viewer"));
    assert_eq!(offering_client(None), Err(OfferRefusal::MissingClientId));
    assert_eq!(
        Sessions::check_media_codec("H.264", "v=0\r\n"),
        Some(OfferRefusal::UnsupportedH264)
    );
    assert_eq!(Sessions::check_media_codec("VP8", "v=0\r\n"), None);
    assert!(resolution_failure("host").contains("host"));
    assert_eq!(
        index_without_token(),
        "A stream token is required in the URL"
    );
}

#[test]
fn audio_inputs_are_closed_by_a_new_revision() {
    let mut audio = AudioPipeline::new();
    audio.activate();
    let revision = audio.revision;
    assert!(audio.keeps_input(revision));
    assert!(!audio.retry_is_due(revision, false));
    assert!(audio.retry_is_due(revision, true));
    audio.deactivate();
    assert!(!audio.keeps_input(revision));
    assert!(audio.retry_is_due(revision, false));
    audio.finish(Some("worker stopped".to_owned()));
    assert_eq!(audio.failure().as_deref(), Some("worker stopped"));
}

#[test]
fn upload_progress_is_reported_in_intervals() {
    let mut reader = UploadProbeReader::new(1_000_000);
    assert_eq!(reader.report_progress(250_000_000, 500_000_000), None);
    reader.read(1_000_000);
    assert_eq!(reader.report_progress(249_999_999, 500_000_000), None);
    assert_eq!(
        reader.report_progress(250_000_000, 500_000_000),
        Some(UploadSpeedTestProgress {
            upload_bps: 16_000_000
        })
    );
}

#[test]
fn resizes_are_looked_for_on_captured_windows() {
    let mut settings = CaptureSettings::from_config(&AppConfig::default());
    settings.source_kind = "window".to_owned();
    settings.source_native_id = Some(42);
    let capture = Some(CaptureDimensions {
        source: size(800, 600),
        observed: size(800, 600),
    });
    let mut debouncer = WindowResizeDebouncer::new();
    assert_eq!(
        observe_window_resize(
            &mut debouncer,
            true,
            &settings,
            false,
            capture,
            Some(size(1200, 700)),
            true,
            NOW
        ),
        Some(size(1200, 700))
    );
    assert_eq!(
        observe_window_resize(
            &mut debouncer,
            true,
            &settings,
            true,
            capture,
            Some(size(1300, 700)),
            true,
            NOW
        ),
        None
    );
    assert_eq!(debouncer, WindowResizeDebouncer::new());
    let identity = source_identity(&settings);
    assert_eq!(
        sync_window_resize_watcher(&settings, None, false),
        WatcherChange::Start(identity)
    );
    assert_eq!(
        sync_window_resize_watcher(&settings, Some(identity), true),
        WatcherChange::Keep
    );
    settings.source_kind = "monitor".to_owned();
    assert_eq!(
        sync_window_resize_watcher(&settings, Some(identity), true),
        WatcherChange::Remove
    );
    assert_eq!(WindowResizeEvent::MoveSizeEnd.quiet_time(), 40_000_000);
    assert_eq!(WindowResizeEvent::LocationChange.quiet_time(), 120_000_000);
    assert!(attempt_is_notable(20) && !attempt_is_notable(21));
}

#[test]
fn one_capture_runs_at_a_time() {
    let mut slot = CaptureSlot::new();
    assert_eq!(slot.install(5), Ok(()));
    assert_eq!(slot.install(6), Err("shared capture is already running"));
    assert_eq!(slot.current(), Some(5));
    assert_eq!(slot.take(), Some(5));
    assert_eq!(slot.install(6), Ok(()));
}

#[test]
fn captures_are_pictured_with_their_settings() {
    let settings = CaptureSettings::from_config(&AppConfig::default());
    assert!(preview_snapshot(&settings, None).is_none());
    let mut capture = SharedCapture::new(CaptureFormat {
        width: 1,
        height: 1,
        fps: 30,
        pixel_format: SourcePixelFormat::Bgra,
    });
    capture.begin_producer(Some("test"));
    assert_eq!(capture.backend_name(), "test");
    assert_eq!(capture.source_pixel_format(), SourcePixelFormat::Bgra);
    assert!(capture.latest_frame_snapshot().is_none());
    let frame = SourceFrame {
        width: 1,
        height: 1,
        pixel_format: SourcePixelFormat::Bgra,
        captured_at_unix_nanos: 3,
        data: Arc::new(vec![0; 4]),
    };
    let snapshot = preview_snapshot(&settings, Some(frame)).unwrap();
    assert_eq!(snapshot.frame.captured_at_unix_nanos, 3);
    assert_eq!(snapshot.settings.fps, settings.fps);
}

#[test]
fn failed_pictures_are_retried_later() {
    let mut board = PreviewBoard::new();
    let scope = board.scope;
    let epoch = board.epoch;
    let source = instant_local_stream::capture::CaptureSourceInfo {
        kind: "monitor".to_owned(),
        index: 0,
        native_id: None,
        width: 1_920,
        height: 1_080,
        fps: Some(60),
        pid: None,
        name: "Display".to_owned(),
    };
    let key = PreviewKey::for_source(&source);
    board.preview_requested(&source);
    board.source_failed(scope, epoch, key.clone(), false, NOW);
    assert_eq!(board.retry_after.get(&key), Some(&(NOW + 2_000_000_000)));
    board.source_failed(scope, epoch, key.clone(), true, NOW);
    assert_eq!(board.failed_epoch.get(&key), Some(&epoch));
    assert!(board.in_flight.get(&key).is_none());
}

#[test]
fn test_patterns_are_asked_for_once() {
    let mut board = PreviewBoard::new();
    let signature = TestPreviewSignature {
        width: 1_280,
        height: 720,
        fps: 30,
    };
    let scope = board.ensure_test_pattern_preview(signature).unwrap();
    board.test_pattern_requested(scope, signature);
    assert_eq!(board.ensure_test_pattern_preview(signature), None);
    assert!(board.test_pattern_ready(scope, signature));
    assert_eq!(board.test_loaded, Some(signature));
    board.forget_test_pattern();
    assert_eq!(board.test_loaded, None);
    board.test_pattern_failed(scope, signature, "no encoder".to_owned());
    assert_eq!(board.ensure_test_pattern_preview(signature), None);
}

#[test]
fn viewer_limits_are_sent_once() {
    let mut model = HostModel::new(AppConfig::default(), None, None);
    assert!(!model.status.is_running());
    assert!(model.max_viewers_pending());
    model.max_viewers_sent();
    assert!(!model.max_viewers_pending());
    model.config.max_viewers = 3;
    assert!(model.max_viewers_pending());
    model.network_worker_stopped();
    assert!(model.network_test_error.is_some());
    assert!(!candidate_paths().is_empty());
}
