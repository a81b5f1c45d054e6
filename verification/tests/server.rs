use std::collections::VecDeque;

use instant_local_stream::adaptive::BitrateController;
use instant_local_stream::config::AppConfig;
use instant_local_stream::control::{
    HostAction, HostCommand, StreamState, WorkerPhase, recovery_failure,
};
use instant_local_stream::groups::codecs::{
    ViewerBootstrap, choose_codec, discover_host_codecs, viewer_supported_codecs,
};
use instant_local_stream::groups::joining::JoinStep;
use instant_local_stream::groups::observing::{FallbackStep, ObserveStep};
use instant_local_stream::groups::tuning::ViewerRecord;
use instant_local_stream::groups::{
    Activation, ClientGroupState, CodecPolicy, GroupAssignment, GroupLifecycle, StartRefusal,
    TranscodeGroup, TranscodeGroups,
};
use instant_local_stream::media::{CaptureSettings, MediaPipeline};
use instant_local_stream::metrics::{
    EXTREME_DROPPED_FRAME_THRESHOLD, FREEZE_DOWNGRADE_THRESHOLD, MAX_METRIC_SAMPLES_PER_VIEWER,
    MIN_VIEWER_METRIC_INTERVAL_NANOS, MetricSample, ViewerMetrics, ViewerStats, Visibility,
    playback_requires_downgrade,
};
use instant_local_stream::offer_gates::OfferGates;
use instant_local_stream::profile::{
    capture_format_changed, capture_input_changed, group_settings, uses_group_adaptation,
    uses_single_group_bitrate_adaptation,
};
use instant_local_stream::sdp::offer_supports_h264_level_31;
use instant_local_stream::sessions::{
    ClosedConnection, MediaBinding, OfferRefusal, PeerState, Sessions, SocketDecision, client_name,
};
use instant_local_stream::settings_change::{
    ChangeAction, ChangeFailure, ChangeOutcome, ChangeStage, RestartReason, SettingsChange,
    SettingsVersion,
};
use instant_local_stream::shared_capture::CaptureSlot;
use instant_local_stream::status::{
    AudioReport, CaptureHealth, GroupHealth, MediaReport, StatusSnapshot,
    authoritative_assignment_payload, status_for_client, status_snapshot, stream_failure,
};
use instant_local_stream::udp_mux::{PeerAddress, UdpMux};
use instant_local_stream::web::{
    SessionAnswer, network_probe_payload, redacted_viewer_url, resolve_media_candidate, session,
    status_is_open, web_asset,
};
use instant_local_stream::window_resize::{
    Dimensions, RestartDecision, WINDOW_RESIZE_RECOVERY_RETRY_DELAY_NANOS,
    WINDOW_RESIZE_RESTART_ATTEMPTS, WINDOW_RESIZE_RETRY_DELAY_NANOS,
    WINDOW_RESIZE_SAFETY_SETTLE_TIME_NANOS, WindowResizeDebouncer, WindowSourceIdentity,
    prepare_window_capture_restart, window_resize_retry_delay,
};

const NOW: u64 = 100_000_000_000;

fn millis(n: u64) -> u64 {
    n * 1_000_000
}

fn secs(n: u64) -> u64 {
    n * 1_000_000_000
}

fn size(width: u32, height: u32) -> Dimensions {
    Dimensions { width, height }
}

fn codecs(names: &[&str]) -> Vec<String> {
    names.iter().map(|name| name.to_string()).collect()
}

fn address(ip: [u8; 4], port: u16) -> PeerAddress {
    PeerAddress {
        is_v6: false,
        ip: u128::from(u32::from_be_bytes(ip)),
        port,
        flow_info: 0,
        scope_id: 0,
    }
}

fn two_groups(settings: &CaptureSettings) -> TranscodeGroups {
    TranscodeGroups::with_factory(
        vec![
            TranscodeGroup::active(0, 10, "vp8", settings.clone(), NOW),
            TranscodeGroup::active(1, 11, "vp8", group_settings(settings, 1), NOW),
        ],
        None,
    )
}

struct Host {
    config: AppConfig,
    stream: StreamState,
    sessions: Sessions,
    groups: TranscodeGroups,
    settings: CaptureSettings,
}

fn test_state() -> Host {
    let config = AppConfig::default();
    let settings = CaptureSettings::from_config(&config);
    let groups = TranscodeGroups::with_factory(
        vec![TranscodeGroup::stopped(0, settings.clone(), "vp8", NOW)],
        None,
    );
    Host {
        sessions: Sessions::new(config.token.clone(), 8),
        stream: StreamState::new(),
        config,
        groups,
        settings,
    }
}

fn snapshot(host: &Host) -> StatusSnapshot {
    status_snapshot(
        &host.config,
        host.stream,
        &host.sessions,
        &host.groups,
        &host.settings,
        None,
        &None,
        &None,
        &AudioReport {
            status: "off",
            failure: None,
        },
    )
}

fn sample(bitrate: f64, available: Option<f64>, dropped: u64, freezes: u64) -> MetricSample {
    MetricSample {
        captured_at: NOW,
        rtt_ms: 20.0_f64.to_bits(),
        jitter_ms: 5.0_f64.to_bits(),
        loss_rate: 0.0_f64.to_bits(),
        bitrate_bps: bitrate.to_bits(),
        available_incoming_bitrate_bps: available.map(f64::to_bits),
        frames_dropped: dropped,
        freeze_count: freezes,
        visibility: Visibility::Visible,
    }
}

fn five_samples(
    bitrate: f64,
    available: Option<f64>,
    dropped: u64,
    freezes: u64,
) -> VecDeque<MetricSample> {
    (0..5)
        .map(|_| sample(bitrate, available, dropped, freezes))
        .collect()
}

fn done(step: ObserveStep) -> Option<GroupAssignment> {
    match step {
        ObserveStep::Done(assignment) => assignment,
        ObserveStep::Start(group_id) => panic!("group {group_id} would be started"),
    }
}

#[test]
fn client_status_carries_the_authoritative_settings_revision() {
    let mut state = test_state();
    state.sessions.settings_revision = 7;
    state.stream.media_session_revision = 3;

    let assignment = state.groups.assignment_for("viewer", NOW);
    let group = state
        .groups
        .summary_of(assignment.group_id, &assignment.reason, assignment.restart);
    let status = status_for_client(snapshot(&state), group, state.sessions.settings_revision);

    assert_eq!(status.settings_revision, 7);
    assert_eq!(status.status.media_session_revision, 3);
    assert_eq!(status.group.bitrate_bps, status.status.bitrate_bps);
}

#[test]
fn automatic_restart_has_a_distinct_resetting_status() {
    let mut state = test_state();
    state.stream.resetting = true;

    let resetting = snapshot(&state);

    assert_eq!(resetting.status, "resetting");
    assert_eq!(resetting.stream_enabled, false);
    assert_eq!(resetting.stream_resetting, true);

    state.stream.resetting = false;
    let stopped = snapshot(&state);

    assert_eq!(stopped.status, "stopped");
    assert_eq!(stopped.stream_resetting, false);
}

#[test]
fn token_reset_revokes_session_state() {
    let mut state = test_state();
    let connection_id = 0xA1;
    let pending_id = 0xA2;
    state.sessions.clients.insert("viewer".to_owned(), connection_id);
    state.sessions.connected.insert(connection_id, ());
    state.sessions.pending.insert(pending_id, ());

    let revocation = state
        .sessions
        .reset_token_and_revoke(&mut state.groups, "replacement-token".to_owned());

    assert!(state.sessions.token_matches("replacement-token"));
    assert!(!state.sessions.token_matches("test-token"));
    assert!(state.sessions.clients.len() == 0);
    assert!(state.sessions.connected.len() == 0);
    assert!(state.sessions.pending.len() == 0);
    assert_eq!(state.sessions.session_generation, 1);
    assert_eq!(revocation.clients[0].key, "viewer");
    assert_eq!(revocation.pending[0].key, pending_id);
}

#[test]
fn concurrent_offers_for_one_client_share_a_gate() {
    let mut gates = OfferGates::new();
    let first = gates.enter("viewer");
    let second = gates.enter("viewer");
    assert_eq!(first, second);
    gates.leave("viewer");
    gates.leave("viewer");

    let other = gates.enter("other-viewer");
    assert_ne!(other, first);
    assert_eq!(gates.gates.len(), 1);
    assert!(gates.gates.contains(&"other-viewer".to_owned()));
}

#[test]
fn explicit_public_ip_becomes_the_media_candidate() {
    let state = test_state();
    let mut mux = UdpMux::new(address([127, 0, 0, 1], 0));
    let port = state.config.media_ports.first;
    assert_eq!(port, 40000);
    let resolved = vec![address([203, 0, 113, 7], 40000)];
    let candidate = resolve_media_candidate("203.0.113.7", &resolved).unwrap();
    mux.set_candidate_addr(candidate);

    assert_eq!(candidate, address([203, 0, 113, 7], 40000));
    assert_eq!(mux.candidate_addr(), candidate);
}

#[test]
fn sustained_degradation_moves_a_viewer_to_the_lower_group() {
    let settings = CaptureSettings::from_config(&AppConfig::default());
    let mut groups = two_groups(&settings);
    let metrics = ViewerMetrics {
        rtt_ms: 20.0_f64.to_bits(),
        jitter_ms: 5.0_f64.to_bits(),
        loss_rate: 0.0_f64.to_bits(),
        bitrate_bps: 100_000.0_f64.to_bits(),
        reported_frames_dropped: 0,
        reported_freeze_count: 0,
        updated_at: NOW,
        samples: five_samples(100_000.0, Some(100_000.0), 0, 0),
    };

    let assignment = done(groups.observe("slow-viewer", &metrics, NOW)).unwrap();
    assert_eq!(assignment.group_id, 1);
    assert!(assignment.restart);
}

#[test]
fn playback_artifacts_without_transport_pressure_do_not_lower_quality() {
    let settings = CaptureSettings::from_config(&AppConfig::default());
    let mut groups = two_groups(&settings);
    let metrics = ViewerMetrics {
        rtt_ms: 20.0_f64.to_bits(),
        jitter_ms: 5.0_f64.to_bits(),
        loss_rate: 0.0_f64.to_bits(),
        bitrate_bps: (settings.bitrate as f64).to_bits(),
        reported_frames_dropped: 100,
        reported_freeze_count: 0,
        updated_at: NOW,
        // Normal catch-up/renderer drops are below the extreme
        // threshold and must not reduce quality.
        samples: five_samples(settings.bitrate as f64, None, 20, 0),
    };

    assert!(done(groups.observe("healthy-viewer", &metrics, NOW)).is_none());
    let records = vec![ViewerRecord {
        client_id: "healthy-viewer".to_owned(),
        metrics,
    }];
    assert!(!groups.tune(&records, NOW).changed);
    assert_eq!(groups.group_settings(0).bitrate, settings.bitrate);
}

#[test]
fn freezes_and_only_extreme_frame_drops_trigger_playback_downgrade() {
    assert!(!playback_requires_downgrade(1, 0));
    assert!(!playback_requires_downgrade(
        EXTREME_DROPPED_FRAME_THRESHOLD - 1,
        FREEZE_DOWNGRADE_THRESHOLD - 1,
    ));
    assert!(playback_requires_downgrade(0, FREEZE_DOWNGRADE_THRESHOLD));
    assert!(playback_requires_downgrade(
        EXTREME_DROPPED_FRAME_THRESHOLD,
        0,
    ));
}

#[test]
fn repeated_freezes_move_a_single_viewer_to_the_lower_group() {
    let settings = CaptureSettings::from_config(&AppConfig::default());
    let mut groups = two_groups(&settings);
    let metrics = ViewerMetrics {
        rtt_ms: 20.0_f64.to_bits(),
        jitter_ms: 5.0_f64.to_bits(),
        loss_rate: 0.0_f64.to_bits(),
        bitrate_bps: (settings.bitrate as f64).to_bits(),
        reported_frames_dropped: 0,
        reported_freeze_count: FREEZE_DOWNGRADE_THRESHOLD,
        updated_at: NOW,
        samples: five_samples(settings.bitrate as f64, None, 0, 1),
    };

    let assignment = done(groups.observe("freezing-viewer", &metrics, NOW)).unwrap();
    assert_eq!(assignment.group_id, 1);
    assert_eq!(assignment.reason, "15-second playback failure window");
}

#[test]
fn stopped_group_slots_are_hidden_from_client_status() {
    let settings = CaptureSettings::from_config(&AppConfig::default());
    let groups = TranscodeGroups::with_factory(
        vec![
            TranscodeGroup::active(0, 10, "vp8", settings.clone(), NOW),
            TranscodeGroup::stopped(1, group_settings(&settings, 1), "vp8", NOW),
        ],
        None,
    );

    assert_eq!(groups.count(), 1);
    let visible_groups = groups.summaries();
    assert_eq!(visible_groups.len(), 1);
    assert_eq!(visible_groups[0].id, "group-1");
}

#[test]
fn empty_secondary_group_is_drained_after_the_grace_period() {
    let settings = CaptureSettings::from_config(&AppConfig::default());
    let mut groups = two_groups(&settings);

    assert!(groups.maintain(NOW).changed);
    assert_eq!(groups.groups[1].lifecycle, GroupLifecycle::Draining);
    groups.groups[1].drain_started_at = Some(NOW - secs(13));

    let maintenance = groups.maintain(NOW);
    assert!(maintenance.changed);
    assert_eq!(maintenance.stopped, vec![11]);
    assert_eq!(groups.groups[1].lifecycle, GroupLifecycle::Stopped);
    assert!(groups.groups[1].media.is_none());
    assert_eq!(groups.count(), 1);
}

#[test]
fn network_probe_is_a_one_mebibyte_non_repeating_body() {
    let payload = network_probe_payload();
    assert_eq!(payload.len(), 1024 * 1024);
    assert_ne!(payload[..64], payload[64..128]);
}

#[test]
fn automatic_codec_uses_vp8_when_firefox_does_not_advertise_h264() {
    let host = codecs(&["vp8", "vp9", "h264"]);
    let firefox = codecs(&["vp8", "vp9"]);
    assert_eq!(choose_codec("auto", &host, &firefox, &Vec::new()), "vp8");
}

#[test]
fn automatic_codec_prefers_the_validated_vp8_baseline() {
    let host = codecs(&["vp8", "h264"]);
    let chromium = codecs(&["vp8", "h264"]);
    assert_eq!(choose_codec("auto", &host, &chromium, &Vec::new()), "vp8");
}

#[test]
fn explicit_h264_policy_still_selects_h264() {
    let host = codecs(&["vp8", "h264"]);
    let chromium = codecs(&["vp8", "h264"]);
    assert_eq!(choose_codec("h264", &host, &chromium, &Vec::new()), "h264");
}

#[test]
fn h264_offer_must_receive_constrained_baseline_level_31() {
    let offer = |profile_level_id: &str| {
        format!(
            "v=0\r\nm=video 9 UDP/TLS/RTP/SAVPF 108\r\na=rtpmap:108 H264/90000\r\na=fmtp:108 level-asymmetry-allowed=1;packetization-mode=1;profile-level-id={profile_level_id}\r\n"
        )
    };

    assert!(offer_supports_h264_level_31(&offer("42e01f")));
    assert!(offer_supports_h264_level_31(&offer("42e02a")));
    assert!(!offer_supports_h264_level_31(&offer("42e01e")));
    assert!(!offer_supports_h264_level_31(&offer("4d001f")));
    assert!(!offer_supports_h264_level_31(
        "v=0\r\nm=video 9 UDP/TLS/RTP/SAVPF 96\r\na=rtpmap:96 VP8/90000\r\n"
    ));
}

#[test]
fn changing_monitor_or_cursor_restarts_shared_capture_but_bitrate_does_not() {
    let original = CaptureSettings::from_config(&AppConfig::default());
    let mut different_monitor = original.clone();
    different_monitor.source_index = 1;
    let mut different_cursor = original.clone();
    different_cursor.draw_mouse = !original.draw_mouse;
    let mut different_native_window = original.clone();
    different_native_window.source_kind = "window".to_owned();
    different_native_window.source_native_id = Some(42);
    let mut reordered_same_window = different_native_window.clone();
    reordered_same_window.source_index = 99;
    let mut different_quality = original.clone();
    different_quality.output_height = Some(720);
    let mut different_fps = original.clone();
    different_fps.output_fps = Some(30);
    let mut bitrate_only = original.clone();
    bitrate_only.bitrate = bitrate_only.bitrate.saturating_add(1);

    assert!(capture_input_changed(&original, &different_monitor));
    assert!(capture_input_changed(&original, &different_cursor));
    assert!(capture_input_changed(&original, &different_native_window));
    assert!(!capture_input_changed(
        &different_native_window,
        &reordered_same_window
    ));
    assert!(!capture_input_changed(&original, &bitrate_only));
    assert!(capture_format_changed(&original, &different_quality));
    assert!(capture_format_changed(&original, &different_fps));
    assert!(!capture_format_changed(&original, &bitrate_only));
}

#[test]
fn window_resize_debounce_emits_only_the_last_settled_dimensions() {
    let source = WindowSourceIdentity {
        index: 3,
        native_id: Some(42),
    };
    let start = NOW;
    let mut debounce = WindowResizeDebouncer::new();

    assert_eq!(
        debounce.observe(source, size(800, 600), size(900, 600), start),
        None
    );
    assert_eq!(
        debounce.observe(
            source,
            size(800, 600),
            size(1000, 700),
            start + millis(200)
        ),
        None
    );
    assert_eq!(
        debounce.observe(
            source,
            size(800, 600),
            size(1000, 700),
            start + WINDOW_RESIZE_SAFETY_SETTLE_TIME_NANOS + millis(199)
        ),
        None
    );
    assert_eq!(
        debounce.observe(
            source,
            size(800, 600),
            size(1000, 700),
            start + WINDOW_RESIZE_SAFETY_SETTLE_TIME_NANOS + millis(200)
        ),
        Some(size(1000, 700))
    );
}

#[test]
fn window_resize_retries_switch_from_quick_attempts_to_persistent_recovery() {
    assert_eq!(
        window_resize_retry_delay(1),
        WINDOW_RESIZE_RETRY_DELAY_NANOS
    );
    assert_eq!(
        window_resize_retry_delay(2),
        WINDOW_RESIZE_RETRY_DELAY_NANOS * 2
    );
    assert_eq!(
        window_resize_retry_delay(WINDOW_RESIZE_RESTART_ATTEMPTS),
        WINDOW_RESIZE_RECOVERY_RETRY_DELAY_NANOS
    );
    assert_eq!(
        window_resize_retry_delay(WINDOW_RESIZE_RESTART_ATTEMPTS + 100),
        WINDOW_RESIZE_RECOVERY_RETRY_DELAY_NANOS
    );
}

#[test]
fn window_resize_event_signal_emits_the_observed_dimensions_immediately() {
    let source = WindowSourceIdentity {
        index: 2,
        native_id: Some(42),
    };
    let mut debounce = WindowResizeDebouncer::new();

    assert_eq!(
        debounce.observe_settled(source, size(800, 600), size(1200, 700)),
        Some(size(1200, 700))
    );
    assert_eq!(
        debounce.observe_settled(source, size(800, 600), size(1200, 700)),
        None
    );
    assert_eq!(
        debounce.observe_settled(source, size(800, 600), size(1280, 720)),
        Some(size(1280, 720))
    );
}

#[test]
fn window_resize_debounce_resets_after_refresh_and_suppresses_failed_dimensions() {
    let source = WindowSourceIdentity {
        index: 1,
        native_id: Some(7),
    };
    let start = NOW;
    let mut debounce = WindowResizeDebouncer::new();
    assert_eq!(
        debounce.observe(source, size(800, 600), size(1200, 700), start),
        None
    );
    assert_eq!(
        debounce.observe(
            source,
            size(800, 600),
            size(1200, 700),
            start + WINDOW_RESIZE_SAFETY_SETTLE_TIME_NANOS
        ),
        Some(size(1200, 700))
    );
    assert_eq!(
        debounce.observe(
            source,
            size(800, 600),
            size(1200, 700),
            start + WINDOW_RESIZE_SAFETY_SETTLE_TIME_NANOS + millis(100)
        ),
        None
    );
    assert_eq!(
        debounce.observe(source, size(800, 600), size(1200, 700), start + secs(30)),
        None
    );
    debounce.reset();
    assert_eq!(
        debounce.observe(source, size(800, 600), size(1200, 700), start + secs(31)),
        None
    );
    assert_eq!(
        debounce.observe(
            source,
            size(800, 600),
            size(1200, 700),
            start + secs(31) + WINDOW_RESIZE_SAFETY_SETTLE_TIME_NANOS
        ),
        Some(size(1200, 700))
    );
    assert_eq!(
        debounce.observe(source, size(1200, 700), size(1200, 700), start + secs(3)),
        None
    );
    assert!(debounce.candidate.is_none());
}

#[test]
fn capture_slot_is_empty_until_a_capture_is_installed() {
    let mut slot = CaptureSlot::new();
    assert!(slot.current().is_none());
    assert!(slot.take().is_none());
    assert!(slot.current().is_none());
}

#[test]
fn detached_group_cleanup_cannot_remove_replacement_media() {
    let settings = CaptureSettings::from_config(&AppConfig::default());
    let mut groups = TranscodeGroups::with_factory(
        vec![TranscodeGroup::active(0, 10, "vp8", settings, NOW)],
        None,
    );

    let detached = groups.detach_all_media();
    assert_eq!(detached.len(), 1);
    assert!(groups.media_by_id(0).is_none());

    let replacement = 20;
    groups.install(0, replacement);
    assert_eq!(detached, vec![10]);

    assert_eq!(
        groups
            .media_by_id(0)
            .expect("replacement remains installed"),
        replacement
    );
}

#[test]
fn cold_groups_have_no_media_or_visible_primary() {
    let settings = CaptureSettings::from_config(&AppConfig::default());
    let groups = TranscodeGroups::with_factory(
        vec![TranscodeGroup::stopped(0, settings, "vp8", NOW)],
        None,
    );
    assert_eq!(groups.resource_count(), 0);
    assert!(groups.active_group_ids().is_empty());
    assert!(groups.media_by_id(0).is_none());
}

#[test]
fn switching_to_manual_collapses_viewers_to_the_primary_group() {
    let settings = CaptureSettings::from_config(&AppConfig::default());
    let mut groups = two_groups(&settings);
    groups.assignments.push(ClientGroupState {
        client_id: "viewer".to_owned(),
        group_id: 1,
        last_change: NOW,
        reason: "adaptive assignment".to_owned(),
        supported_codecs: Vec::new(),
        rejected_codecs: Vec::new(),
    });
    let mut manual = settings;
    manual.quality_mode = "manual".to_owned();
    let result = groups.reconfigure(&manual, true, NOW);

    assert!(result.topology_changed);
    assert_eq!(groups.capacity(), 1);
    assert_eq!(groups.assignment_for("viewer", NOW).group_id, 0);
    assert_eq!(groups.groups[1].lifecycle, GroupLifecycle::Stopped);
    assert!(groups.groups[1].media.is_none());
    assert!(result.stopped.contains(&11));
}

#[test]
fn live_quality_mode_selects_the_matching_adaptive_controller() {
    let mut settings = CaptureSettings::from_config(&AppConfig::default());
    assert!(uses_group_adaptation(&settings));
    assert!(!uses_single_group_bitrate_adaptation(&settings));

    settings.quality_mode = "manual".to_owned();
    settings.bitrate_mode = "automatic".to_owned();
    assert!(!uses_group_adaptation(&settings));
    assert!(uses_single_group_bitrate_adaptation(&settings));

    settings.bitrate_mode = "fixed".to_owned();
    assert!(!uses_group_adaptation(&settings));
    assert!(!uses_single_group_bitrate_adaptation(&settings));
}

#[test]
fn viewer_metrics_are_normalized_and_count_bounded() {
    let mut state = test_state();
    let started_at = NOW;
    for index in 0..(MAX_METRIC_SAMPLES_PER_VIEWER + 5) {
        let _ = state.sessions.update_viewer_metrics(
            "viewer",
            &ViewerStats {
                rtt_ms: f64::INFINITY.to_bits(),
                jitter_ms: (-10.0_f64).to_bits(),
                loss_rate: 2.0_f64.to_bits(),
                bitrate_bps: 1_000_000.0_f64.to_bits(),
                available_incoming_bitrate_bps: Some(f64::NAN.to_bits()),
                frames_dropped: index as u64,
                freeze_count: 0,
                visibility_state: "unexpected".to_owned(),
            },
            started_at + MIN_VIEWER_METRIC_INTERVAL_NANOS * index as u64,
        );
    }

    let metric = &state.sessions.metrics[0].metrics;
    assert_eq!(state.sessions.metrics[0].client_id, "viewer");
    assert_eq!(metric.samples.len(), MAX_METRIC_SAMPLES_PER_VIEWER);
    assert_eq!(f64::from_bits(metric.rtt_ms), 0.0);
    assert_eq!(f64::from_bits(metric.jitter_ms), 0.0);
    assert_eq!(f64::from_bits(metric.loss_rate), 1.0);
    assert_eq!(metric.samples.back().unwrap().visibility.name(), "unknown");
}

#[test]
fn reports_that_follow_too_quickly_are_ignored() {
    let mut sessions = Sessions::new("Ab12Cd34Ef56".to_owned(), 2);
    let stats = ViewerStats {
        rtt_ms: 30.5_f64.to_bits(),
        jitter_ms: 1.25_f64.to_bits(),
        loss_rate: 0.5_f64.to_bits(),
        bitrate_bps: 1_000.0_f64.to_bits(),
        available_incoming_bitrate_bps: None,
        frames_dropped: 4,
        freeze_count: 1,
        visibility_state: "visible".to_owned(),
    };
    assert!(sessions.update_viewer_metrics("viewer", &stats, NOW).is_some());
    assert!(sessions.update_viewer_metrics("viewer", &stats, NOW + 1).is_none());
    assert_eq!(f64::from_bits(sessions.metrics[0].metrics.rtt_ms), 30.5);
    assert_eq!(sessions.metrics[0].metrics.samples.len(), 1);
    sessions.remove_metrics("viewer");
    assert!(sessions.metrics.is_empty());
}

#[test]
fn offers_are_refused_in_order() {
    let state = test_state();
    let token = state.config.token.clone();
    let mut sessions = state.sessions;
    let groups = state.groups;
    let sdp = "a=ice-ufrag:browser\r\n";
    let refusal = |r: Result<String, OfferRefusal>| r.unwrap_err();
    assert_eq!(
        refusal(sessions.check_offer(&groups, "wrong", true, "viewer", sdp)),
        OfferRefusal::InvalidToken
    );
    assert_eq!(
        refusal(sessions.check_offer(&groups, &token, false, "viewer", sdp)),
        OfferRefusal::StreamStopped
    );
    assert_eq!(
        refusal(sessions.check_offer(&groups, &token, true, "viewer", "v=0\r\n")),
        OfferRefusal::MissingUfrag
    );
    assert_eq!(
        refusal(sessions.check_offer(&groups, &token, true, "viewer", sdp)),
        OfferRefusal::NoControlSession
    );
    assert_eq!(
        sessions.connect_socket(&token, "viewer", 5),
        SocketDecision::Accepted { replaced: None }
    );
    assert_eq!(
        refusal(sessions.check_offer(&groups, &token, true, "viewer", sdp)),
        OfferRefusal::NoAssignment
    );
    assert_eq!(OfferRefusal::InvalidToken.status(), 404);
    assert_eq!(OfferRefusal::InvalidToken.message(), "invalid token");
    assert_eq!(OfferRefusal::Revoked.status(), 401);
    assert_eq!(client_name(" viewer "), Some("viewer"));
    assert_eq!(client_name("  "), None);
    assert_eq!(client_name(&"x".repeat(129)), None);
}

#[test]
fn an_accepted_offer_gives_its_fragment() {
    let mut state = test_state();
    let token = state.config.token.clone();
    let sdp = "a=ice-ufrag:browser\r\n";
    state.sessions.connect_socket(&token, "viewer", 5);
    state.groups.ensure_client("viewer", NOW);
    assert_eq!(
        state
            .sessions
            .check_offer(&state.groups, &token, true, "viewer", sdp),
        Ok("browser".to_owned())
    );
    let generation = state.sessions.session_generation;
    assert_eq!(state.sessions.check_session(&token, generation), None);
    state
        .sessions
        .reset_token_and_revoke(&mut state.groups, "Ab12Cd34Ef56".to_owned());
    assert_eq!(
        state.sessions.check_session("Ab12Cd34Ef56", generation),
        Some(OfferRefusal::Revoked)
    );
}

#[test]
fn reservations_keep_the_viewer_limit() {
    let mut sessions = Sessions::new("Ab12Cd34Ef56".to_owned(), 2);
    let first = sessions.reserve_fresh().unwrap();
    let second = sessions.reserve_fresh().unwrap();
    assert_ne!(first, second);
    assert_eq!((first >> 76) & 0xf, 4);
    assert_eq!((first >> 62) & 0x3, 2);
    assert_eq!(sessions.reserve_fresh(), Err(OfferRefusal::ViewerLimit));
    sessions.remove_pending(first);
    assert_eq!(sessions.reserve(first), Ok(()));
}

#[test]
fn closing_a_viewer_undoes_its_commit() {
    let mut sessions = Sessions::new("Ab12Cd34Ef56".to_owned(), 2);
    let binding = MediaBinding {
        media: 10,
        audio: true,
    };
    sessions.reserve(7).unwrap();
    sessions.commit("viewer", 7, binding);
    assert_eq!(sessions.binding_of("viewer"), Some((7, binding)));
    let change = sessions.on_connection_state_change(7, "viewer", PeerState::Connected, true);
    assert!(change.activate);
    assert_eq!(sessions.viewer_count(), 1);
    assert_eq!(
        sessions.close_client_connection("viewer"),
        Some(ClosedConnection {
            connection_id: 7,
            established: true,
            binding: Some(binding)
        })
    );
    assert_eq!(sessions.viewer_count(), 0);
    assert_eq!(sessions.binding_of("viewer"), None);
    assert_eq!(sessions.close_client_connection("viewer"), None);
}

#[test]
fn a_replaced_socket_is_stale() {
    let mut state = test_state();
    let token = state.config.token.clone();
    assert_eq!(
        state.sessions.connect_socket("wrong", "viewer", 5),
        SocketDecision::Unauthorized
    );
    state.sessions.connect_socket(&token, "viewer", 5);
    assert_eq!(
        state.sessions.connect_socket(&token, "viewer", 6),
        SocketDecision::Accepted { replaced: Some(5) }
    );
    assert!(!state.sessions.is_current_socket("viewer", 5));
    assert!(!state.sessions.take_current_socket("viewer", 5));
    assert!(state.sessions.take_current_socket("viewer", 6));
    assert_eq!(
        state.sessions.forget_client(&mut state.groups, "viewer"),
        None
    );
    assert!(state.groups.assignments.is_empty());
}

#[test]
fn broadcasts_count_their_revisions() {
    let mut state = test_state();
    let token = state.config.token.clone();
    state.sessions.connect_socket(&token, "viewer", 5);
    let broadcast = state.sessions.broadcast();
    assert_eq!(broadcast.revision, 1);
    assert_eq!(broadcast.recipients[0].client_id, "viewer");
    assert_eq!(broadcast.recipients[0].socket, 5);
    let payload =
        authoritative_assignment_payload(&state.groups, &state.sessions, 0, "because", true);
    assert_eq!(payload.settings_revision, 1);
    assert_eq!(payload.group.reason, "because");
}

#[test]
fn bootstrapped_viewers_start_their_group() {
    let settings = CaptureSettings::from_config(&AppConfig::default());
    let mut groups = TranscodeGroups::cold(
        &settings,
        "vp8",
        Some(CodecPolicy {
            codec_policy: "auto".to_owned(),
            host_codecs: codecs(&["vp8"]),
        }),
        NOW,
    );
    assert_eq!(groups.groups.len(), 4);
    assert_eq!(
        groups.check_start(false, false, true),
        Some(StartRefusal::StreamStopped)
    );
    assert_eq!(
        groups.check_start(true, true, false),
        Some(StartRefusal::NoCapture)
    );
    assert_eq!(groups.check_start(true, true, true), None);
    assert_eq!(groups.activation(0), Activation::Start);
    groups.install_primary(9);
    assert_eq!(groups.activation(0), Activation::Running(9));
    let probe = ViewerBootstrap {
        download_bps: 0.0_f64.to_bits(),
        latency_ms: 0.0_f64.to_bits(),
        timed_out: true,
        video_capabilities: codecs(&["video/VP8", "video/H264"]),
    };
    assert_eq!(viewer_supported_codecs(&probe), codecs(&["vp8", "h264"]));
    let join = groups.bootstrap("viewer", &probe, NOW);
    match join.step {
        JoinStep::Joined(assignment) => assert_eq!(assignment.group_id, 0),
        JoinStep::Start(pending) => {
            let assignment = groups.bootstrap_started(pending, Some(12), NOW);
            assert_eq!(groups.media_by_id(assignment.group_id), Some(12));
        }
    }
    assert_eq!(groups.codec_for_client("viewer").as_deref(), Some("vp8"));
}

#[test]
fn a_failed_codec_is_not_offered_again() {
    let settings = CaptureSettings::from_config(&AppConfig::default());
    let mut groups = TranscodeGroups::with_factory(
        vec![
            TranscodeGroup::active(0, 10, "vp9", settings.clone(), NOW),
            TranscodeGroup::active(1, 11, "vp8", group_settings(&settings, 1), NOW),
        ],
        Some(CodecPolicy {
            codec_policy: "vp9".to_owned(),
            host_codecs: codecs(&["vp8", "vp9"]),
        }),
    );
    groups.assignments.push(ClientGroupState {
        client_id: "viewer".to_owned(),
        group_id: 0,
        last_change: NOW,
        reason: "start".to_owned(),
        supported_codecs: codecs(&["vp8", "vp9"]),
        rejected_codecs: Vec::new(),
    });
    match groups.codec_failure("viewer", "vp9", NOW) {
        FallbackStep::Done(assignment) => assert_eq!(assignment.unwrap().group_id, 1),
        FallbackStep::Start(pending) => {
            let assignment = groups.fallback_started(pending, Some(13), NOW);
            assert!(assignment.is_some());
        }
    }
    assert_eq!(groups.codec_for_client("viewer").as_deref(), Some("vp8"));
    assert_eq!(groups.assignments[0].rejected_codecs, codecs(&["vp9"]));
}

#[test]
fn hosts_offer_the_codecs_they_encode() {
    assert_eq!(
        discover_host_codecs("vp8", Some(" V..... libvpx-vp9 \n V..... libx264 \n")),
        codecs(&["vp8", "vp9", "h264"])
    );
    assert_eq!(discover_host_codecs("vp8", None), codecs(&["vp8"]));
}

#[test]
fn host_commands_lead_to_actions() {
    let mut stream = StreamState::new();
    let step = stream.begin(HostCommand::Start);
    assert_eq!(step.phase, WorkerPhase::StartApplying);
    assert_eq!(step.actions, vec![HostAction::ApplySettings]);
    let step = stream.resume(step.phase, true);
    assert_eq!(step.phase, WorkerPhase::StartCapturing);
    let step = stream.resume(step.phase, true);
    assert_eq!(step.phase, WorkerPhase::Idle);
    assert!(stream.enabled);
    assert_eq!(stream.media_session_revision, 1);

    stream.request_stream_stop();
    assert!(!stream.enabled);
    assert_eq!(stream.stop_request_revision, 1);
    stream.urgent_stop();
    assert_eq!(stream.stop_request_revision, 2);
    assert!(recovery_failure("no device").contains("no device"));
}

#[test]
fn a_stopped_stream_is_not_restarted_after_a_resize() {
    let mut stream = StreamState::new();
    stream.enabled = true;
    let step = stream.begin(HostCommand::RestartWindow {
        revision: 0,
        attempt: 1,
    });
    assert!(matches!(step.phase, WorkerPhase::ResizeStopping { .. }));
    stream.urgent_stop();
    let step = stream.resume(step.phase, true);
    assert_eq!(step.phase, WorkerPhase::Idle);
    assert!(!stream.enabled);
}

#[test]
fn a_retry_after_a_resize_keeps_its_revision() {
    let mut stream = StreamState::new();
    stream.enabled = true;
    stream.stop_request_revision = 7;
    let step = stream.begin(HostCommand::RestartWindow {
        revision: 7,
        attempt: 1,
    });
    let step = stream.resume(step.phase, true);
    let step = stream.resume(step.phase, false);
    let step = stream.resume(step.phase, true);
    assert_eq!(
        step.actions,
        vec![HostAction::RetryWindow {
            delay: WINDOW_RESIZE_RETRY_DELAY_NANOS,
            revision: 7,
            attempt: 2,
        }]
    );
    stream.urgent_stop();
    let stopped = stream;
    let step = stream.begin(HostCommand::RestartWindow {
        revision: 7,
        attempt: 2,
    });
    assert_eq!(step.phase, WorkerPhase::Idle);
    assert!(step.actions.is_empty());
    assert_eq!(stream, stopped);
}

#[test]
fn failed_changes_roll_back() {
    let previous = CaptureSettings::from_config(&AppConfig::default());
    let mut next = previous.clone();
    next.source_index = 3;
    let (mut change, actions) = SettingsChange::begin(&previous, &next, true);
    assert_eq!(change.stage, ChangeStage::RestartingCapture);
    assert!(actions.contains(&ChangeAction::RestartCapture(SettingsVersion::Next)));
    let actions = change.advance(ChangeOutcome::CaptureRestarted { ok: false });
    assert!(actions.contains(&ChangeAction::RestartCapture(SettingsVersion::Previous)));
    let actions = change.advance(ChangeOutcome::CaptureRestarted { ok: false });
    assert_eq!(change.stage, ChangeStage::Finished);
    assert!(actions.contains(&ChangeAction::Fail(ChangeFailure::PreviousSourceFailed)));
    assert!(
        ChangeFailure::PreviousSourceFailed
            .message("first", "second")
            .ends_with("also failed: second")
    );
    assert!(!RestartReason::CaptureFormat.text().is_empty());
}

#[test]
fn assets_have_media_types() {
    let index = web_asset("index.html");
    assert_eq!(index.name, "index.html");
    assert_eq!(index.content_type, "text/html");
    assert_eq!(web_asset("assets/app.css").content_type, "text/css");
    assert_eq!(
        web_asset("blob.unknown-kind").content_type,
        "application/octet-stream"
    );
    assert_eq!(web_asset("/a/b.gif").content_type, "image/gif");
    assert_eq!(web_asset("//a/b.gif").name, "a/b.gif");
}

#[test]
fn sessions_need_the_token() {
    let state = test_state();
    let token = state.config.token.clone();
    assert_eq!(session(&state.sessions, None), SessionAnswer::TokenMissing);
    assert_eq!(
        session(&state.sessions, Some("x")),
        SessionAnswer::InvalidToken
    );
    assert_eq!(session(&state.sessions, Some(&token)), SessionAnswer::Ready);
    let mut config = AppConfig::default();
    config.bind = "localhost".to_owned();
    assert!(status_is_open(&config));
    config.bind = "lan".to_owned();
    assert!(!status_is_open(&config));
    config.token = "Ab12Cd34Ef56".to_owned();
    let shown = redacted_viewer_url(&config, Some("192.168.1.4"));
    assert!(!shown.contains("Ab12Cd34Ef56"));
    assert!(shown.starts_with("http://192.168.1.4:"));
    assert!(resolve_media_candidate("host", &Vec::new()).is_err());
}

#[test]
fn failures_name_the_part_that_failed() {
    let healthy = Some(CaptureHealth {
        failure: None,
        last_frame_unix_nanos: Some(1),
    });
    assert_eq!(stream_failure(&healthy, Some(2), &Vec::new()), None);
    assert!(stream_failure(&healthy, Some(secs(6) as u128), &Vec::new()).is_some());
    let failed = Some(CaptureHealth {
        failure: Some("device lost".to_owned()),
        last_frame_unix_nanos: None,
    });
    assert!(
        stream_failure(&failed, None, &Vec::new())
            .unwrap()
            .contains("device lost")
    );
    let groups = vec![GroupHealth {
        group_id: 1,
        failure: Some("encoder died".to_owned()),
        stopped: false,
    }];
    assert!(
        stream_failure(&healthy, Some(2), &groups)
            .unwrap()
            .contains("encoder died")
    );
}

#[test]
fn running_encoders_are_reported() {
    let mut state = test_state();
    let mut media = MediaPipeline::with_codec("vp9").unwrap();
    media.activate();
    state.stream.enabled = true;
    let report = status_snapshot(
        &state.config,
        state.stream,
        &state.sessions,
        &state.groups,
        &state.settings,
        Some("203.0.113.7:40000".to_owned()),
        &Some(MediaReport::of(&media)),
        &None,
        &AudioReport {
            status: "off",
            failure: None,
        },
    );
    assert_eq!(report.status, "streaming");
    assert_eq!(report.codec, "VP9");
    assert_eq!(report.media_candidate.as_deref(), Some("203.0.113.7:40000"));
}

#[test]
fn an_idle_controller_keeps_the_bitrate() {
    let mut settings = CaptureSettings::from_config(&AppConfig::default());
    settings.quality_mode = "manual".to_owned();
    settings.bitrate_mode = "automatic".to_owned();
    settings.bitrate = 1_000_000;
    let mut controller = BitrateController::new(NOW);
    assert_eq!(
        controller.tick(true, &settings, &Vec::new(), 2_000_000, NOW),
        None
    );
    let lossy = ViewerRecord {
        client_id: "viewer".to_owned(),
        metrics: ViewerMetrics {
            rtt_ms: 20.0_f64.to_bits(),
            jitter_ms: 5.0_f64.to_bits(),
            loss_rate: 0.5_f64.to_bits(),
            bitrate_bps: 100_000.0_f64.to_bits(),
            reported_frames_dropped: 0,
            reported_freeze_count: 0,
            updated_at: NOW,
            samples: VecDeque::new(),
        },
    };
    let records = vec![lossy];
    let next = controller.tick(true, &settings, &records, 2_000_000, NOW + secs(1));
    assert!(next.is_some_and(|bitrate| (250_000..1_000_000).contains(&bitrate)));
}

#[test]
fn a_resize_restarts_only_the_window_it_was_seen_on() {
    let mut settings = CaptureSettings::from_config(&AppConfig::default());
    settings.source_kind = "window".to_owned();
    settings.source_index = 2;
    settings.source_native_id = Some(42);
    let source = WindowSourceIdentity {
        index: 2,
        native_id: Some(42),
    };
    assert_eq!(
        prepare_window_capture_restart(true, &settings, source, size(4, 4), false, None, None),
        RestartDecision::CaptureUnavailable
    );
    let other = WindowSourceIdentity {
        index: 2,
        native_id: Some(43),
    };
    assert_eq!(
        prepare_window_capture_restart(true, &settings, other, size(4, 4), false, None, None),
        RestartDecision::Ignore
    );
}

fn report(client_id: &str, samples: VecDeque<MetricSample>) -> ViewerRecord {
    ViewerRecord {
        client_id: client_id.to_owned(),
        metrics: ViewerMetrics {
            rtt_ms: 20.0_f64.to_bits(),
            jitter_ms: 5.0_f64.to_bits(),
            loss_rate: 0.0_f64.to_bits(),
            bitrate_bps: 0.0_f64.to_bits(),
            reported_frames_dropped: 0,
            reported_freeze_count: 0,
            updated_at: NOW,
            samples,
        },
    }
}

#[test]
fn one_failing_viewer_does_not_lower_the_group() {
    let settings = CaptureSettings::from_config(&AppConfig::default());
    let bitrate = f64::from(settings.bitrate);
    let sound = || five_samples(bitrate, None, 0, 0);
    let failing = || five_samples(bitrate, None, 0, 1);
    let mut groups = two_groups(&settings);
    for client in ["a", "b", "c"] {
        groups.ensure_client(client, NOW);
    }
    let records = vec![
        report("a", failing()),
        report("b", sound()),
        report("c", sound()),
    ];
    groups.tune(&records, NOW);
    assert_eq!(groups.group_settings(0).bitrate, settings.bitrate);

    let records = vec![
        report("a", failing()),
        report("b", failing()),
        report("c", sound()),
    ];
    let tuning = groups.tune(&records, NOW);
    assert!(tuning.changed);
    assert_eq!(tuning.updates[0].media, 10);
    assert_eq!(
        groups.group_settings(0).bitrate,
        settings.bitrate / 100 * 90
    );
}

#[test]
fn a_moved_viewer_stays_for_a_while() {
    let settings = CaptureSettings::from_config(&AppConfig::default());
    let mut groups = two_groups(&settings);
    let slow = report("viewer", five_samples(100_000.0, Some(100_000.0), 0, 0));
    let moved = done(groups.observe("viewer", &slow.metrics, NOW)).unwrap();
    assert_eq!(moved.group_id, 1);
    let bitrate = f64::from(settings.bitrate) * 4.0;
    let fast = report("viewer", five_samples(bitrate, Some(bitrate), 0, 0));
    assert!(done(groups.observe("viewer", &fast.metrics, NOW + secs(1))).is_none());
    assert_eq!(groups.assignment_for("viewer", NOW + secs(1)).group_id, 1);
}

#[test]
fn a_looked_up_viewer_keeps_its_group() {
    let settings = CaptureSettings::from_config(&AppConfig::default());
    let mut groups = two_groups(&settings);
    let first = groups.assignment_for("viewer", NOW);
    let second = groups.assignment_for("viewer", NOW + secs(5));
    assert_eq!(first.group_id, second.group_id);
    assert_eq!(groups.assignments.len(), 1);
}

#[test]
fn groups_of_another_codec_are_not_merged() {
    let settings = CaptureSettings::from_config(&AppConfig::default());
    let mut groups = TranscodeGroups::with_factory(
        vec![
            TranscodeGroup::active(0, 10, "vp8", settings.clone(), NOW),
            TranscodeGroup::active(1, 11, "h264", settings.clone(), NOW),
            TranscodeGroup::active(2, 12, "H264", settings.clone(), NOW),
        ],
        None,
    );
    for (client_id, group_id) in [("a", 0), ("b", 0), ("c", 1), ("d", 2)] {
        groups.assignments.push(ClientGroupState {
            client_id: client_id.to_owned(),
            group_id,
            last_change: NOW - secs(40),
            reason: "start".to_owned(),
            supported_codecs: Vec::new(),
            rejected_codecs: Vec::new(),
        });
    }
    groups.maintain(NOW);
    for client in &groups.assignments {
        let codec = &groups.groups[client.group_id].codec;
        let was_vp8 = client.client_id == "a" || client.client_id == "b";
        assert_eq!(codec.eq_ignore_ascii_case("vp8"), was_vp8, "{client:?}");
    }
    assert_eq!(groups.assignments[0].group_id, 0);
}

#[test]
fn similar_groups_are_merged() {
    let settings = CaptureSettings::from_config(&AppConfig::default());
    let mut groups = TranscodeGroups::with_factory(
        vec![
            TranscodeGroup::active(0, 10, "vp8", settings.clone(), NOW),
            TranscodeGroup::active(1, 11, "vp8", settings.clone(), NOW),
        ],
        None,
    );
    groups.assignments.push(ClientGroupState {
        client_id: "viewer".to_owned(),
        group_id: 1,
        last_change: NOW - secs(40),
        reason: "start".to_owned(),
        supported_codecs: Vec::new(),
        rejected_codecs: Vec::new(),
    });
    assert!(groups.maintain(NOW).migrations.is_empty());
    groups.ensure_client("other", NOW);
    let maintenance = groups.maintain(NOW);
    assert!(maintenance.changed);
    assert_eq!(maintenance.migrations.len(), 1);
    assert_eq!(maintenance.migrations[0].client_id, "viewer");
    assert_eq!(maintenance.migrations[0].assignment.group_id, 0);
    assert_eq!(
        maintenance.migrations[0].assignment.reason,
        "merged with a near-identical group"
    );
    assert_eq!(groups.groups[1].lifecycle, GroupLifecycle::Draining);
}
