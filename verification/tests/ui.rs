use std::sync::Arc;

use instant_local_stream::capture::{CaptureSourceInfo, SourceKind};
use instant_local_stream::config::AppConfig;
use instant_local_stream::media::CaptureSettings;
use instant_local_stream::network::UploadSpeedTestProgress;
use instant_local_stream::preview::CapturePreviewSnapshot;
use instant_local_stream::shared_capture::{SourceFrame, SourcePixelFormat};
use instant_local_stream::table::Table;
use instant_local_stream::ui::host::{
    ClickResult, CommandReply, HostModel, HostStatus, PrimaryAction, ServerRestart, StartHint,
    UiEvent, await_previous_server, port_digits, server_ended_event, start_stream_event,
    stop_stream_event,
};
use instant_local_stream::ui::labels::{
    bitrate_label, bitrate_mode_label, codec_label, empty_list_hint, fps_label, fps_option_label, fps_options,
    latency_preference_label, quality_label, quality_mode_label, quality_option_label,
    quality_options, selected_fps_label, selected_quality_label, source_size_label,
};
use instant_local_stream::ui::previews::{
    Arrival, CachedPreview, LivePreviewError, MAX_CACHED_PREVIEWS, PreviewBoard, PreviewDecision, PreviewKey,
    SOURCE_EVENT_DEBOUNCE_NANOS, SOURCE_REFRESH_INTERVAL_NANOS, SelectionState, SourceRefresh,
    TestPreviewSignature, live_preview, picture_order, preview_request_needed, prune_preview_cache,
    source_signature_matches, test_preview_request_needed,
};
use instant_local_stream::ui::selection::{
    SourceTab, ViewerUrlMode, WindowPresence, add_default_exclusions, audio_mode_for_tab,
    available_audio_processes, choose_test_pattern, custom_viewer_host, find_selected,
    initial_viewer_url_state, is_excluded, leave_test_pattern, remove_exclusion, replace_sources_for_kind,
    retain_selected_native_source, retain_temporarily_unenumerated_windows, select_source,
    server_bootstrap_config, snapshot_matches_source, source_index_should_update,
    source_selection_is_valid, tab_for_kind,
};
use instant_local_stream::ui::settings::{
    SourceDetails, choose_audio, choose_fps, choose_quality, settings_update, shown_fps,
    shown_quality, source_details,
};
use instant_local_stream::ui::thumbnail::{
    baked_test_pattern_thumbnail, fits_in_memory, rgb_to_rgba,
};
use instant_local_stream::window_resize::Dimensions;

/// A picture of two pixels without transparency.
const RGB_PNG: [u8; 72] = [
    137, 80, 78, 71, 13, 10, 26, 10, 0, 0, 0, 13, 73, 72, 68, 82, 0, 0, 0, 2, 0, 0, 0, 1, 8, 2, 0,
    0, 0, 123, 64, 232, 221, 0, 0, 0, 15, 73, 68, 65, 84, 120, 156, 99, 224, 18, 145, 211, 48, 178,
    1, 0, 2, 55, 0, 211, 91, 86, 81, 216, 0, 0, 0, 0, 73, 69, 78, 68, 174, 66, 96, 130,
];

/// A picture of two pixels with transparency.
const RGBA_PNG: [u8; 74] = [
    137, 80, 78, 71, 13, 10, 26, 10, 0, 0, 0, 13, 73, 72, 68, 82, 0, 0, 0, 2, 0, 0, 0, 1, 8, 6, 0,
    0, 0, 244, 34, 127, 138, 0, 0, 0, 17, 73, 68, 65, 84, 120, 156, 99, 224, 18, 145, 211, 48, 178,
    113, 11, 0, 0, 4, 185, 1, 105, 3, 157, 86, 55, 0, 0, 0, 0, 73, 69, 78, 68, 174, 66, 96, 130,
];

fn millis(n: u64) -> u64 {
    n * 1_000_000
}

fn size(width: u32, height: u32) -> Dimensions {
    Dimensions { width, height }
}

fn display(index: usize) -> CaptureSourceInfo {
    CaptureSourceInfo {
        kind: "monitor".to_owned(),
        index,
        native_id: None,
        width: 1_920,
        height: 1_080,
        fps: Some(60),
        pid: None,
        name: format!("Display {index}"),
    }
}

fn window(native_id: u64, name: &str) -> CaptureSourceInfo {
    CaptureSourceInfo {
        kind: "window".to_owned(),
        index: 3,
        native_id: Some(native_id),
        width: 800,
        height: 600,
        fps: Some(60),
        pid: Some(100),
        name: name.to_owned(),
    }
}

fn cached(source: &CaptureSourceInfo, epoch: u64, last_used: u64) -> CachedPreview {
    CachedPreview {
        texture: last_used,
        captured_epoch: epoch,
        source_size: size(source.width, source.height),
        source_name: source.name.clone(),
        last_used,
    }
}

fn nothing_selected() -> SelectionState {
    SelectionState {
        selected: false,
        kind: "monitor".to_owned(),
        index: 0,
        native_id: None,
        presence: WindowPresence {
            exists: false,
            is_element: false,
        },
        display_non_window_elements: false,
    }
}

#[test]
fn native_preview_cache_key_ignores_z_order_and_size_but_validates_process() {
    let source = CaptureSourceInfo {
        kind: "window".to_owned(),
        index: 2,
        native_id: Some(42),
        width: 800,
        height: 600,
        fps: Some(60),
        pid: Some(100),
        name: "Editor: document".to_owned(),
    };
    let key = PreviewKey::for_source(&source);

    let mut reordered = source.clone();
    reordered.index = 99;
    assert_eq!(key, PreviewKey::for_source(&reordered));

    let mut reused_handle = source.clone();
    reused_handle.pid = Some(200);
    assert_ne!(key, PreviewKey::for_source(&reused_handle));

    let mut resized = source;
    resized.width = 1_024;
    assert_eq!(key, PreviewKey::for_source(&resized));
    assert!(!source_signature_matches(
        "Editor: document",
        size(800, 600),
        &resized
    ));

    let renamed = CaptureSourceInfo {
        width: 800,
        name: "Editor: other document".to_owned(),
        ..resized
    };
    assert_eq!(key, PreviewKey::for_source(&renamed));
    assert!(!source_signature_matches(
        "Editor: document",
        size(800, 600),
        &renamed
    ));
}

#[test]
fn preview_request_is_cache_inflight_and_retry_aware() {
    assert!(preview_request_needed(None, 1, false, false));
    assert!(!preview_request_needed(Some(1), 1, false, false));
    assert!(preview_request_needed(Some(1), 2, false, false));
    assert!(!preview_request_needed(None, 1, true, false));
    assert!(!preview_request_needed(None, 1, false, true));
}

#[test]
fn failed_test_preview_waits_for_settings_change_or_manual_reset() {
    let original = TestPreviewSignature {
        width: 1_920,
        height: 1_080,
        fps: 60,
    };
    let changed = TestPreviewSignature {
        fps: 30,
        ..original
    };

    assert!(!test_preview_request_needed(
        None,
        None,
        Some(original),
        1,
        original
    ));
    assert!(test_preview_request_needed(
        None,
        None,
        Some(original),
        1,
        changed
    ));
    assert!(test_preview_request_needed(None, None, None, 2, original));
}

#[test]
fn preview_cache_has_a_hard_bound_and_keeps_protected_entries() {
    let started = 0;
    let mut cache = Table::new();
    let mut keys = Vec::new();
    for index in 0..(MAX_CACHED_PREVIEWS + 2) {
        let source = CaptureSourceInfo {
            kind: "monitor".to_owned(),
            index,
            native_id: None,
            width: 1_920,
            height: 1_080,
            fps: Some(60),
            pid: None,
            name: format!("Display {index}"),
        };
        let key = PreviewKey::for_source(&source);
        cache.insert(
            key.clone(),
            CachedPreview {
                texture: index as u64,
                captured_epoch: 1,
                source_size: size(source.width, source.height),
                source_name: source.name.clone(),
                last_used: started + millis(index as u64),
            },
        );
        keys.push(key);
    }
    let protected = vec![keys[0].clone()];

    let dropped = prune_preview_cache(&mut cache, MAX_CACHED_PREVIEWS, &protected);

    assert_eq!(cache.len(), MAX_CACHED_PREVIEWS);
    assert!(cache.contains(&keys[0]));
    assert!(!cache.contains(&keys[1]));
    assert!(!cache.contains(&keys[2]));
    assert_eq!(dropped.len(), 2);
    assert!(dropped.contains(&1) && dropped.contains(&2));
}

#[test]
fn reselecting_the_same_native_window_keeps_its_legacy_index_stable() {
    assert!(!source_index_should_update(
        "window",
        Some(42),
        "window",
        Some(42)
    ));
    assert!(source_index_should_update(
        "window",
        Some(42),
        "window",
        Some(99)
    ));
    assert!(source_index_should_update(
        "monitor",
        None,
        "window",
        Some(42)
    ));
}

#[test]
fn live_snapshot_must_match_the_requested_native_source() {
    let mut config = AppConfig::default();
    config.source.kind = "window".to_owned();
    config.source.index = 7;
    config.source.native_id = Some(42);
    let snapshot = CapturePreviewSnapshot {
        settings: CaptureSettings::from_config(&config),
        frame: SourceFrame {
            width: 2,
            height: 2,
            pixel_format: SourcePixelFormat::Bgra,
            captured_at_unix_nanos: 0,
            data: Arc::new(vec![0_u8; 16]),
        },
    };
    let source = CaptureSourceInfo {
        kind: "window".to_owned(),
        index: 99,
        native_id: Some(42),
        width: 800,
        height: 600,
        fps: Some(60),
        pid: Some(100),
        name: "Selected".to_owned(),
    };

    assert!(snapshot_matches_source(&snapshot, &source));
    let other = CaptureSourceInfo {
        native_id: Some(99),
        ..source
    };
    assert!(!snapshot_matches_source(&snapshot, &other));
}

#[test]
fn per_kind_discovery_preserves_the_other_source_class() {
    let monitor = CaptureSourceInfo {
        kind: "monitor".to_owned(),
        index: 0,
        native_id: None,
        width: 1_920,
        height: 1_080,
        fps: Some(60),
        pid: None,
        name: "Display".to_owned(),
    };
    let old_window = CaptureSourceInfo {
        kind: "window".to_owned(),
        index: 0,
        native_id: Some(42),
        width: 800,
        height: 600,
        fps: Some(60),
        pid: Some(100),
        name: "Old window".to_owned(),
    };
    let new_window = CaptureSourceInfo {
        name: "New window".to_owned(),
        ..old_window.clone()
    };
    let mut sources = vec![monitor.clone(), old_window];

    replace_sources_for_kind(&mut sources, "window", vec![new_window.clone()]);

    assert_eq!(sources.len(), 2);
    assert!(sources.iter().any(|source| source.name == monitor.name));
    assert!(sources.iter().any(|source| source.name == new_window.name));
    assert!(!sources.iter().any(|source| source.name == "Old window"));
}

#[test]
fn stream_start_requires_an_explicit_valid_source_selection() {
    let monitor = CaptureSourceInfo {
        kind: "monitor".to_owned(),
        index: 0,
        native_id: None,
        width: 1_920,
        height: 1_080,
        fps: Some(60),
        pid: None,
        name: "Display".to_owned(),
    };
    assert!(!source_selection_is_valid(
        false,
        "monitor",
        0,
        None,
        &vec![monitor.clone()]
    ));
    assert!(!source_selection_is_valid(
        true,
        "monitor",
        1,
        None,
        &vec![monitor.clone()]
    ));
    assert!(source_selection_is_valid(
        true,
        "monitor",
        0,
        None,
        &vec![monitor]
    ));
    assert!(source_selection_is_valid(true, "test", 0, None, &vec![]));
}

#[test]
fn window_selection_uses_native_identity_when_enumeration_order_changes() {
    let selected = CaptureSourceInfo {
        kind: "window".to_owned(),
        index: 7,
        native_id: Some(42),
        width: 800,
        height: 600,
        fps: Some(60),
        pid: Some(100),
        name: "Selected".to_owned(),
    };
    let unrelated = CaptureSourceInfo {
        kind: "window".to_owned(),
        index: 2,
        native_id: Some(99),
        width: 800,
        height: 600,
        fps: Some(60),
        pid: Some(200),
        name: "Unrelated".to_owned(),
    };

    assert!(source_selection_is_valid(
        true,
        "window",
        unrelated.index,
        selected.native_id,
        &vec![unrelated, selected]
    ));
}

#[test]
fn minimized_selected_window_is_retained_when_enumeration_hides_it() {
    let selected = CaptureSourceInfo {
        kind: "window".to_owned(),
        index: 3,
        native_id: Some(42),
        width: 800,
        height: 600,
        fps: Some(60),
        pid: Some(100),
        name: "Selected".to_owned(),
    };
    let mut refreshed = Vec::new();

    retain_selected_native_source(
        &mut refreshed,
        &vec![selected],
        true,
        "window",
        Some(42),
        WindowPresence {
            exists: true,
            is_element: false,
        },
        false,
    );

    assert_eq!(refreshed.len(), 1);
    assert_eq!(refreshed[0].native_id, Some(42));
}

#[test]
fn temporarily_unenumerated_windows_remain_in_the_carousel() {
    let retained = CaptureSourceInfo {
        kind: "window".to_owned(),
        index: 3,
        native_id: Some(42),
        width: 800,
        height: 600,
        fps: Some(60),
        pid: Some(100),
        name: "Background window".to_owned(),
    };
    let closed = CaptureSourceInfo {
        native_id: Some(99),
        name: "Closed window".to_owned(),
        ..retained.clone()
    };
    let mut refreshed = Vec::new();

    retain_temporarily_unenumerated_windows(
        &mut refreshed,
        &vec![retained, closed],
        true,
        &vec![42],
        &vec![],
    );

    assert_eq!(refreshed.len(), 1);
    assert_eq!(refreshed[0].native_id, Some(42));
}

#[test]
fn ui_server_bootstrap_never_trusts_a_persisted_window_handle() {
    let mut config = AppConfig::default();
    config.source.kind = "window".to_owned();
    config.source.index = 7;
    config.source.native_id = Some(42);
    config.audio_mode = "window".to_owned();

    let bootstrap = server_bootstrap_config(&config);

    assert_eq!(bootstrap.source.kind, "test");
    assert_eq!(bootstrap.source.native_id, None);
    assert_eq!(bootstrap.audio_mode, "off");
    assert_eq!(bootstrap.http_port, config.http_port);
    assert_eq!(bootstrap.token, config.token);
}

#[test]
fn custom_viewer_host_accepts_a_host_without_a_url_scheme() {
    assert_eq!(
        custom_viewer_host("stream.example.com"),
        Some("stream.example.com".to_owned())
    );
    assert!(custom_viewer_host("http://stream.example.com").is_none());
    assert!(custom_viewer_host("https://stream.example.com").is_none());
    assert!(custom_viewer_host("stream.example.com/viewer").is_none());
    assert!(custom_viewer_host(" stream.example.com").is_none());
    assert!(custom_viewer_host("stream .example.com").is_none());
}

#[test]
fn settings_labels_standardize_automatic_as_auto() {
    assert_eq!(quality_mode_label("adaptive"), "Auto");
    assert_eq!(bitrate_mode_label("automatic"), "Auto");
    assert_eq!(bitrate_mode_label("fixed"), "Manual");
    assert_eq!(codec_label("auto"), "Auto");
    assert_eq!(latency_preference_label("low"), "Low");
}

#[test]
fn default_share_settings_choose_public_mode() {
    let config = AppConfig::default();

    let (mode, custom_host, public_ipv4) = initial_viewer_url_state(&config, None);

    assert_eq!(mode, ViewerUrlMode::Public);
    assert!(custom_host.is_empty());
    assert!(public_ipv4.is_none());
}

#[test]
fn stream_failure_keeps_the_server_available_for_retry() {
    let failed = HostStatus::StreamFailed("capture unavailable".to_owned());

    assert!(failed.server_alive());
    assert!(!failed.stream_active());
    assert!(failed.label().contains("capture unavailable"));

    assert!(!HostStatus::Failed("bind failed".to_owned()).server_alive());
}

#[test]
fn bitrate_labels_are_human_readable() {
    assert_eq!(bitrate_label(14_000_000), "14.0 Mbps");
    assert_eq!(bitrate_label(750_000), "750 Kbps");
}

#[test]
fn labels_name_the_presets() {
    assert_eq!(quality_label("1080p"), "1080p HD");
    assert_eq!(quality_label("source"), "Source");
    assert_eq!(fps_label("60"), "60 FPS");
    assert_eq!(quality_label("2160p"), "2160p 4K");
    assert_eq!(
        selected_quality_label("source", Some((1_920, 1_080))),
        "Source · 1920 × 1080"
    );
    assert_eq!(
        quality_option_label("source", Some((1_920, 1_080))),
        "Source · 1920 × 1080"
    );
    assert_eq!(selected_fps_label("source", Some(60)), "Source · 60 FPS");
    assert_eq!(fps_option_label("source", Some(60)), "Source · 60 FPS");
    assert!(source_size_label(1_920, 1_080, Some(60)).contains("60"));
    assert!(quality_options(false, Some(1_080)).contains(&"1080p"));
    assert!(!quality_options(false, Some(1_080)).contains(&"1440p"));
    assert!(!fps_options(false, Some(60)).contains(&"120"));
}

#[test]
fn a_failed_stream_can_be_started_again() {
    let mut model = HostModel::new(AppConfig::default(), None, None);
    model.on_event(UiEvent::ServerReady, 0);
    model.source_selected = true;
    assert_eq!(
        model.primary_action(true, false),
        PrimaryAction::StartStream {
            enabled: true,
            hint: StartHint::Start
        }
    );
    assert_eq!(model.click_primary(), ClickResult::StartStream);
    model.on_event(UiEvent::StreamFailed("no device".to_owned()), 0);
    assert!(model.status.label().contains("no device"));
    assert_eq!(
        model.primary_action(true, false),
        PrimaryAction::StartStream {
            enabled: true,
            hint: StartHint::Start
        }
    );
    model.on_event(UiEvent::Failed("port in use".to_owned()), 0);
    assert_eq!(model.primary_action(true, false), PrimaryAction::RetryServer);
}

#[test]
fn a_minimized_window_has_to_be_restored_first() {
    let mut model = HostModel::new(AppConfig::default(), None, None);
    model.on_event(UiEvent::ServerReady, 0);
    assert_eq!(
        model.primary_action(true, true),
        PrimaryAction::StartStream {
            enabled: false,
            hint: StartHint::RestoreWindow
        }
    );
    assert_eq!(
        model.primary_action(false, false),
        PrimaryAction::StartStream {
            enabled: false,
            hint: StartHint::SelectSource
        }
    );
    assert!(!StartHint::SelectSource.text().is_empty());
}

#[test]
fn replies_become_events() {
    assert!(matches!(
        start_stream_event(CommandReply::Done),
        UiEvent::StreamStarted
    ));
    match start_stream_event(CommandReply::Refused("no capture".to_owned())) {
        UiEvent::StreamFailed(error) => assert!(error.contains("no capture")),
        other => panic!("{other:?}"),
    }
    assert!(matches!(
        stop_stream_event(CommandReply::Done),
        UiEvent::StreamStopped
    ));
    match server_ended_event(Some("bind failed".to_owned())) {
        UiEvent::Failed(error) => assert!(error.contains("bind failed")),
        other => panic!("{other:?}"),
    }
    assert_eq!(await_previous_server(true, true, false), ServerRestart::Start);
    assert_eq!(await_previous_server(false, true, true), ServerRestart::GiveUp);
    assert_eq!(await_previous_server(false, true, false), ServerRestart::Wait);
}

#[test]
fn ports_are_read_from_digits() {
    assert_eq!(port_digits("8a4b7c5"), "8475");
    let mut model = HostModel::new(AppConfig::default(), None, None);
    model.port_input = "9000".to_owned();
    assert_eq!(model.port_input_value(), Some(9000));
    assert!(model.port_change_pending());
    model.apply_port(9000);
    assert_eq!(model.config.http_port, 9000);
    model.port_input = "0".to_owned();
    assert_eq!(model.port_input_value(), None);
}

#[test]
fn upload_tests_recommend_a_viewer_limit() {
    let mut model = HostModel::new(AppConfig::default(), None, None);
    assert!(model.network_test_inflight);
    assert!(!model.start_upload_speed_test());
    model.on_event(
        UiEvent::UploadSpeedTestProgress(UploadSpeedTestProgress {
            upload_bps: 50_000_000,
        }),
        7,
    );
    model.on_event(UiEvent::UploadSpeedTestFinished(Ok(100_000_000)), 7);
    assert_eq!(model.host_network_test.unwrap().upload_bps, 100_000_000);
    assert_eq!(model.host_network_test.unwrap().tested_at_unix_secs, 7);
    assert!(!model.network_test_inflight);
    assert!(model.upload_speed_label().unwrap().contains("100.0 Mbps"));
    assert!(model.start_upload_speed_test());
    model.on_event(UiEvent::UploadSpeedTestFinished(Err("refused".to_owned())), 8);
    assert!(model.network_test_error.is_some());
}

#[test]
fn the_chosen_source_is_selected() {
    let mut config = AppConfig::default();
    let source = window(42, "Editor");
    select_source(&mut config, &source);
    assert_eq!(
        find_selected(
            &vec![display(0), source],
            &config.source.kind,
            config.source.index,
            config.source.native_id
        ),
        Some(1)
    );
    choose_test_pattern(&mut config);
    assert_eq!(config.source.kind, "test");
    leave_test_pattern(&mut config, &vec![display(0)], "monitor");
    assert_eq!(config.source.kind, "monitor");
    assert_eq!(tab_for_kind("window"), SourceTab::Windows);
    assert_eq!(audio_mode_for_tab(SourceTab::Windows), "window");
}

#[test]
fn exclusions_take_running_defaults() {
    let available = available_audio_processes(&vec![
        window(1, "Discord: chat"),
        window(2, "Editor: text"),
        window(3, "Discord: call"),
    ]);
    assert_eq!(available.len(), 2);
    let mut excluded = Vec::new();
    add_default_exclusions(&mut excluded, &available);
    assert!(is_excluded(&excluded, "discord"));
    assert!(!is_excluded(&excluded, "Editor"));
}

#[test]
fn a_removed_exclusion_is_gone_wherever_it_stood() {
    let mut names = ["a", "B", "a", "A"].map(str::to_owned).to_vec();
    remove_exclusion(&mut names, "a");
    assert_eq!(names, ["B", "A"]);
    remove_exclusion(&mut names, "c");
    assert_eq!(names, ["B", "A"]);
}

#[test]
fn the_selected_card_is_pictured_first() {
    assert_eq!(picture_order(&vec![false, false, true, false]), [2, 0, 1, 3]);
    assert_eq!(picture_order(&vec![true, false, true]), [0, 2, 1]);
    assert!(picture_order(&vec![]).is_empty());
    let mut many = vec![false; MAX_CACHED_PREVIEWS + 10];
    many[MAX_CACHED_PREVIEWS + 5] = true;
    let order = picture_order(&many);
    assert_eq!(order.len(), MAX_CACHED_PREVIEWS);
    assert_eq!(order[..3], [MAX_CACHED_PREVIEWS + 5, 0, 1]);
    assert_eq!(order[MAX_CACHED_PREVIEWS - 1], MAX_CACHED_PREVIEWS - 2);
}

#[test]
fn empty_lists_of_sources_say_why() {
    let hint = |failed, searching| empty_list_hint(failed, searching, SourceKind::Monitor);
    assert_eq!(hint(true, true), "Source scan failed. Retrying automatically…");
    assert_eq!(hint(false, true), "Looking for capture sources…");
    assert_eq!(hint(false, false), "No displays were found.");
    assert_eq!(
        empty_list_hint(false, false, SourceKind::Window),
        "No capturable windows were found."
    );
}

#[test]
fn answers_of_an_old_scope_are_ignored() {
    let mut board = PreviewBoard::new();
    let scope = board.scope;
    let source = display(0);
    assert_eq!(
        board.ensure_source_preview(&source, false, false, millis(1)),
        PreviewDecision::Capture
    );
    board.preview_requested(&source);
    assert_eq!(
        board.ensure_source_preview(&source, false, false, millis(1)),
        PreviewDecision::Nothing
    );
    let next = board.begin_preview_scope();
    assert_ne!(scope, next);
    let (arrival, _) = board.source_ready(
        scope,
        PreviewKey::for_source(&source),
        cached(&source, board.epoch, 1),
        &nothing_selected(),
        &vec![],
    );
    assert_eq!(arrival, Arrival::Ignored);
    assert_eq!(board.cache.len(), 0);
}

#[test]
fn discoveries_replace_the_sources_of_their_kind() {
    let mut board = PreviewBoard::new();
    let generation = board.next_discovery(SourceKind::Monitor).unwrap();
    board.discovery_started(SourceKind::Monitor, generation);
    assert_eq!(board.next_discovery(SourceKind::Monitor), None);
    board.sources_discovered(
        generation,
        SourceKind::Monitor,
        vec![display(0), display(1)],
        &nothing_selected(),
        &vec![],
        &vec![],
    );
    assert_eq!(board.sources.len(), 2);
    let generation = board.next_discovery(SourceKind::Monitor).unwrap();
    board.discovery_started(SourceKind::Monitor, generation);
    board.source_discovery_failed(generation, SourceKind::Monitor, "no display".to_owned());
    assert!(board.source_error.unwrap().contains("no display"));
}

fn discover_displays(board: &mut PreviewBoard, count: usize) -> Vec<u64> {
    let generation = board.next_discovery(SourceKind::Monitor).unwrap();
    board.discovery_started(SourceKind::Monitor, generation);
    board.sources_discovered(
        generation,
        SourceKind::Monitor,
        (0..count).map(display).collect(),
        &nothing_selected(),
        &vec![],
        &vec![],
    )
}

fn deliver(board: &mut PreviewBoard, index: usize, last_used: u64) -> Vec<u64> {
    let source = display(index);
    let (arrival, released) = board.source_ready(
        board.scope,
        PreviewKey::for_source(&source),
        cached(&source, board.epoch, last_used),
        &nothing_selected(),
        &vec![],
    );
    assert_eq!(arrival, Arrival::Inserted);
    released
}

#[test]
fn the_picture_least_recently_shown_leaves() {
    let mut board = PreviewBoard::new();
    discover_displays(&mut board, MAX_CACHED_PREVIEWS + 1);
    for index in 0..MAX_CACHED_PREVIEWS {
        assert!(deliver(&mut board, index, 1 + index as u64).is_empty());
    }
    board.preview_shown(&PreviewKey::for_source(&display(0)), 1_000);
    board.preview_shown(&PreviewKey::for_source(&window(9, "none")), 1_000);
    assert_eq!(board.cache.len(), MAX_CACHED_PREVIEWS);
    let shown = board.cache.get(&PreviewKey::for_source(&display(0))).unwrap();
    assert_eq!((shown.last_used, shown.texture), (1_000, 1));

    assert_eq!(deliver(&mut board, MAX_CACHED_PREVIEWS, 1_001), vec![2]);
    assert!(board.cache.get(&PreviewKey::for_source(&display(0))).is_some());
    assert!(board.cache.get(&PreviewKey::for_source(&display(1))).is_none());
}

#[test]
fn pictures_of_lost_sources_are_released() {
    let mut board = PreviewBoard::new();
    assert!(discover_displays(&mut board, 3).is_empty());
    for index in 0..3 {
        deliver(&mut board, index, 10 + index as u64);
    }
    let mut released = discover_displays(&mut board, 1);
    released.sort();
    assert_eq!(released, vec![11, 12]);
    assert_eq!(board.cache.len(), 1);
}

#[test]
fn sources_are_refreshed_in_intervals() {
    let mut refresh = SourceRefresh::new(0);
    let first = refresh.is_due(false, 0);
    assert!(first || !refresh.is_due(false, 1));
    let mut refresh = SourceRefresh::new(0);
    assert!(refresh.is_due(false, SOURCE_REFRESH_INTERVAL_NANOS * 2));
    assert!(!refresh.is_due(true, SOURCE_REFRESH_INTERVAL_NANOS * 2 + 1));
    assert!(refresh.is_due(
        false,
        SOURCE_REFRESH_INTERVAL_NANOS * 2 + 1 + SOURCE_EVENT_DEBOUNCE_NANOS
    ));
}

#[test]
fn baked_pictures_become_thumbnails() {
    let thumbnail = baked_test_pattern_thumbnail(&RGB_PNG).unwrap();
    assert_eq!((thumbnail.width, thumbnail.height), (2, 1));
    assert_eq!(thumbnail.rgba, vec![10, 20, 30, 255, 40, 50, 60, 255]);
    assert!(baked_test_pattern_thumbnail(&RGBA_PNG).is_none());
    assert!(baked_test_pattern_thumbnail(&RGB_PNG[..30]).is_none());
    assert!(baked_test_pattern_thumbnail(&[]).is_none());
    assert!(fits_in_memory(&RGB_PNG) && fits_in_memory(&[]));
    let mut large = RGB_PNG.to_vec();
    large[16..24].copy_from_slice(&[0x7f, 0xff, 0xff, 0xff, 0, 0, 0, 1]);
    assert!(!fits_in_memory(&large));
    large[16..24].copy_from_slice(&[0, 0, 0x20, 1, 0, 0, 0x20, 0]);
    assert!(fits_in_memory(&large));
    assert!(baked_test_pattern_thumbnail(&large).is_none());
    assert_eq!(rgb_to_rgba(&vec![1, 2, 3]), vec![1, 2, 3, 255]);
}

#[test]
fn each_mode_keeps_its_own_presets() {
    let mut config = AppConfig::default();
    config.quality_mode = "manual".to_owned();
    choose_quality(&mut config, "720p".to_owned());
    choose_fps(&mut config, "30".to_owned());
    config.quality_mode = "adaptive".to_owned();
    choose_quality(&mut config, "1080p".to_owned());
    choose_fps(&mut config, "60".to_owned());
    assert_eq!(shown_quality(&config), "1080p");
    assert_eq!(shown_fps(&config), "60");
    config.quality_mode = "manual".to_owned();
    assert_eq!(shown_quality(&config), "720p");
    assert_eq!(shown_fps(&config), "30");
    choose_audio(&mut config, "system", true);
    assert_eq!(config.audio_mode, "system");
    choose_audio(&mut config, "system", false);
    assert_eq!(config.audio_mode, "off");
}

#[test]
fn details_are_those_of_the_selected_source() {
    let mut config = AppConfig::default();
    select_source(&mut config, &display(1));
    let sources = vec![display(0), display(1)];
    assert_eq!(
        source_details(false, &config, &sources),
        Some(SourceDetails {
            width: 1_920,
            height: 1_080,
            fps: Some(60)
        })
    );
    assert_eq!(source_details(false, &config, &vec![display(0)]), None);
    choose_test_pattern(&mut config);
    config.quality_mode = "manual".to_owned();
    config.quality = "720p".to_owned();
    config.fps_preset = "30".to_owned();
    let details = source_details(true, &config, &vec![]).unwrap();
    assert_eq!((details.height, details.fps), (720, Some(30)));
}

#[test]
fn running_streams_are_told_of_changes() {
    let mut config = AppConfig::default();
    let before = CaptureSettings::from_config(&config);
    assert!(settings_update(&HostStatus::Running, &config, &before).is_none());
    config.draw_mouse = !config.draw_mouse;
    let update = settings_update(&HostStatus::Running, &config, &before).unwrap();
    assert_eq!(update.draw_mouse, config.draw_mouse);
    assert!(settings_update(&HostStatus::Ready, &config, &before).is_none());
}

#[test]
fn live_pictures_show_their_own_source() {
    let mut config = AppConfig::default();
    select_source(&mut config, &window(42, "Editor"));
    let snapshot = Some(CapturePreviewSnapshot {
        settings: CaptureSettings::from_config(&config),
        frame: SourceFrame {
            width: 1,
            height: 1,
            pixel_format: SourcePixelFormat::Bgra,
            captured_at_unix_nanos: 0,
            data: Arc::new(vec![3, 2, 1, 255]),
        },
    });
    let picture = live_preview(&snapshot, &window(42, "Editor"), 320, 180).unwrap();
    assert_eq!(picture.rgba, vec![1, 2, 3, 255]);
    assert_eq!(
        live_preview(&snapshot, &window(43, "Other"), 320, 180).unwrap_err(),
        LivePreviewError::OtherSource
    );
    assert_eq!(
        live_preview(&None, &window(42, "Editor"), 320, 180).unwrap_err(),
        LivePreviewError::NoFrame
    );
    assert!(matches!(
        live_preview(&snapshot, &window(42, "Editor"), 0, 180).unwrap_err(),
        LivePreviewError::Frame(_)
    ));
}
