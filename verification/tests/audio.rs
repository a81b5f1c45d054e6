use std::collections::VecDeque;
use std::sync::Arc;

use instant_local_stream::audio::{
    AUDIO_FRAME_NANOS, AUDIO_QUEUE_CAPACITY, AudioError, AudioInput, AudioPipeline, AudioSample,
    AudioWorker, ChunkAction, NeededLists, OPUS_FRAME_SAMPLES, RunningProcess, STEREO_SAMPLES_PER_FRAME,
    WorkerStep, audio_input_changed, audio_track_codec, cumulative_drop_delta,
    enqueue_bounded_audio_sample, high_quality_opus_profile, negotiated_audio_codec,
    needed_lists, negotiated_video_codec, normalize_process_name, open_stream, opus_fmtp_line,
    resolve_excluded_pid, resolve_process_tree_root, retry_delay, selected_window_pid,
};
use instant_local_stream::capture::CaptureSourceInfo;
use instant_local_stream::config::AppConfig;
use instant_local_stream::media::{CaptureSettings, VideoCodec};
use opus_rs::{Application, OpusEncoder};

fn millis(n: u64) -> u64 {
    n * 1_000_000
}

fn secs(n: u64) -> u64 {
    n * 1_000_000_000
}

fn sample(value: u8) -> AudioSample {
    AudioSample {
        data: Arc::new(vec![value]),
        duration_nanos: millis(20),
        prev_dropped_packets: 0,
    }
}

fn process(pid: u32, parent_pid: u32, name: &str) -> RunningProcess {
    RunningProcess {
        pid,
        parent_pid,
        name: name.to_owned(),
    }
}

#[test]
fn window_audio_reopens_when_native_window_changes() {
    let mut previous = CaptureSettings::from_config(&AppConfig::default());
    previous.audio_mode = "window".to_owned();
    previous.source_kind = "window".to_owned();
    previous.source_native_id = Some(10);
    let mut next = previous.clone();
    next.source_index = 99;
    assert!(!audio_input_changed(&previous, &next));

    next.source_native_id = Some(11);
    assert!(audio_input_changed(&previous, &next));
}

#[test]
fn audio_mode_and_exclusion_changes_reopen_the_input() {
    let mut previous = CaptureSettings::from_config(&AppConfig::default());
    previous.audio_mode = "system".to_owned();
    let mut disabled = previous.clone();
    disabled.audio_mode = "off".to_owned();
    assert!(audio_input_changed(&previous, &disabled));

    let mut exclusions = previous.clone();
    exclusions
        .excluded_audio_processes
        .push("example".to_owned());
    assert!(audio_input_changed(&previous, &exclusions));
}

#[test]
fn opus_encoder_always_uses_the_high_quality_stereo_profile() {
    let profile = high_quality_opus_profile();
    let mut encoder =
        OpusEncoder::new(profile.sample_rate, profile.channels, Application::Audio).unwrap();
    encoder.bitrate_bps = profile.bitrate_bps;
    encoder.complexity = profile.complexity;
    encoder.use_cbr = profile.use_cbr;
    assert_eq!(encoder.bitrate_bps, 256_000);
    assert_eq!(encoder.complexity, 10);
    assert!(!encoder.use_cbr);
    assert!(opus_fmtp_line().contains("stereo=1"));
    assert!(opus_fmtp_line().contains("maxaveragebitrate=256000"));

    let pcm = (0..STEREO_SAMPLES_PER_FRAME)
        .map(|sample| ((sample as f32 * 0.071).sin() * 0.5).clamp(-1.0, 1.0))
        .collect::<Vec<_>>();
    let mut packet = vec![0_u8; 1_500];
    let encoded = encoder
        .encode(&pcm, OPUS_FRAME_SAMPLES, &mut packet)
        .unwrap();
    assert!(encoded > 0 && encoded <= packet.len());
}

#[test]
fn cumulative_capture_drop_counts_become_per_sample_rtp_gaps() {
    let mut previous = 0;
    let deltas = [0, 1, 1, 2].map(|current| cumulative_drop_delta(&mut previous, current));
    assert_eq!(deltas, [0, 1, 0, 1]);

    // A native stream may reset its counter without manufacturing a
    // huge wrapping delta.
    assert_eq!(cumulative_drop_delta(&mut previous, 0), 0);
}

#[test]
fn deactivate_advances_revision_once_to_close_native_streams() {
    let mut audio = AudioPipeline::new();
    let initial = audio.revision;

    audio.activate();
    let active_revision = audio.revision;
    assert!(active_revision > initial);
    assert!(audio.active);

    audio.deactivate();
    let paused_revision = audio.revision;
    assert!(paused_revision > active_revision);
    assert!(!audio.active);

    audio.deactivate();
    assert_eq!(audio.revision, paused_revision);
}

#[test]
fn retry_backoff_is_bounded() {
    assert_eq!(retry_delay(0), millis(250));
    assert_eq!(retry_delay(1), millis(500));
    assert_eq!(retry_delay(4), secs(4));
    assert_eq!(retry_delay(5), secs(5));
    assert_eq!(retry_delay(u32::MAX), secs(5));
}

#[test]
fn bounded_writer_queue_preserves_the_rtp_gap_when_it_drops_audio() {
    let mut samples = VecDeque::new();
    for value in 0..=AUDIO_QUEUE_CAPACITY {
        enqueue_bounded_audio_sample(
            &mut samples,
            AudioSample {
                data: Arc::new(vec![value as u8]),
                duration_nanos: millis(20),
                prev_dropped_packets: 0,
            },
        );
    }

    assert_eq!(samples.len(), AUDIO_QUEUE_CAPACITY);
    let first_retained = samples.pop_front().unwrap();
    assert_eq!(first_retained.data[0], 1);
    assert_eq!(first_retained.prev_dropped_packets, 1);

    for value in 0..AUDIO_QUEUE_CAPACITY {
        enqueue_bounded_audio_sample(
            &mut samples,
            AudioSample {
                data: Arc::new(vec![value as u8]),
                duration_nanos: millis(20),
                prev_dropped_packets: 0,
            },
        );
    }
    assert!(samples.front().unwrap().prev_dropped_packets > 0);
}

#[test]
fn process_exclusion_requires_exactly_one_resolved_process() {
    assert_eq!(resolve_excluded_pid(&vec![]).unwrap(), None);
    assert_eq!(resolve_excluded_pid(&vec![42]).unwrap(), Some(42));
    assert!(resolve_excluded_pid(&vec![42, 43]).is_err());
}

#[test]
fn process_exclusion_finds_the_root_of_a_minimized_application_tree() {
    let processes = vec![
        RunningProcess {
            pid: 10,
            parent_pid: 1,
            name: "Discord.exe".to_owned(),
        },
        RunningProcess {
            pid: 11,
            parent_pid: 10,
            name: "Discord.exe".to_owned(),
        },
        RunningProcess {
            pid: 12,
            parent_pid: 10,
            name: "Discord.exe".to_owned(),
        },
        RunningProcess {
            pid: 20,
            parent_pid: 1,
            name: "browser.exe".to_owned(),
        },
    ];
    assert_eq!(
        resolve_process_tree_root(&vec!["Discord".to_owned()], &processes).unwrap(),
        Some(10)
    );
    assert_eq!(
        resolve_process_tree_root(&vec!["not-running".to_owned()], &processes).unwrap(),
        None
    );
}

#[test]
fn exclusions_of_several_trees_are_refused() {
    let processes = vec![process(10, 1, "Discord.exe"), process(20, 1, "Slack.exe")];
    let wanted = vec!["discord".to_owned(), "SLACK.EXE".to_owned()];
    let error = resolve_process_tree_root(&wanted, &processes).unwrap_err();
    assert!(matches!(error, AudioError::MultipleTrees));
    assert_eq!(normalize_process_name("Discord.EXE"), "discord");
    assert_eq!(normalize_process_name("discord"), "discord");
}

#[test]
fn dropped_audio_is_carried_to_the_oldest_kept_sample() {
    let mut samples = VecDeque::new();
    for value in 0..AUDIO_QUEUE_CAPACITY + 3 {
        enqueue_bounded_audio_sample(&mut samples, sample(value as u8));
    }
    let gap: usize = samples.iter().map(|s| s.prev_dropped_packets as usize).sum();
    assert_eq!(samples.len() + gap, AUDIO_QUEUE_CAPACITY + 3);
}

#[test]
fn audio_inputs_follow_the_mode() {
    let mut settings = CaptureSettings::from_config(&AppConfig::default());
    settings.audio_mode = "system".to_owned();
    settings.excluded_audio_processes = Vec::new();
    let windows: Vec<CaptureSourceInfo> = Vec::new();
    assert_eq!(
        open_stream(&settings, None, &windows, None).unwrap(),
        AudioInput::System
    );
    assert_eq!(needed_lists(&settings), NeededLists::Nothing);

    settings.excluded_audio_processes = vec!["Discord".to_owned()];
    assert_eq!(needed_lists(&settings), NeededLists::WindowsAndProcesses);
    let processes = vec![process(10, 1, "Discord.exe"), process(11, 10, "Discord.exe")];
    assert_eq!(
        open_stream(&settings, None, &windows, Some(&processes)).unwrap(),
        AudioInput::SystemWithout(10)
    );

    settings.audio_mode = "window".to_owned();
    settings.source_kind = "window".to_owned();
    settings.source_native_id = None;
    assert_eq!(needed_lists(&settings), NeededLists::Sources);
    settings.source_native_id = Some(5);
    assert_eq!(needed_lists(&settings), NeededLists::Nothing);
    assert_eq!(
        open_stream(&settings, Some(77), &windows, None).unwrap(),
        AudioInput::Process(77)
    );
    assert_eq!(
        selected_window_pid(&settings, None, &windows)
            .unwrap_err()
            .message(),
        "selected window has no process id for audio capture"
    );
}

#[test]
fn the_worker_waits_longer_after_each_failure() {
    let mut audio = AudioPipeline::new();
    let mut worker = AudioWorker::new();
    assert!(matches!(worker.step(&audio), WorkerStep::Idle));
    let mut settings = CaptureSettings::from_config(&AppConfig::default());
    settings.audio_mode = "system".to_owned();
    audio.reconfigure(settings);
    audio.activate();
    assert!(matches!(worker.step(&audio), WorkerStep::Open { .. }));
    assert_eq!(worker.open_failed(&mut audio, "busy".to_owned()), millis(250));
    assert_eq!(audio.failure().as_deref(), Some("busy"));
    assert_eq!(worker.open_failed(&mut audio, "busy".to_owned()), millis(500));
    worker.opened(&mut audio);
    assert_eq!(audio.failure(), None);
    audio.stop();
    assert!(matches!(worker.step(&audio), WorkerStep::Exit));
}

#[test]
fn chunks_carry_the_gap_of_what_was_lost() {
    let mut audio = AudioPipeline::new();
    let mut worker = AudioWorker::new();
    worker.opened(&mut audio);
    assert_eq!(
        worker.on_chunk(true, 0, OPUS_FRAME_SAMPLES, STEREO_SAMPLES_PER_FRAME),
        ChunkAction::Encode { gap: 0 }
    );
    assert_eq!(
        worker.on_chunk(true, 2, OPUS_FRAME_SAMPLES, STEREO_SAMPLES_PER_FRAME),
        ChunkAction::Encode { gap: 2 }
    );
}

#[test]
fn viewers_hear_what_is_broadcast() {
    let mut audio = AudioPipeline::new();
    audio.subscribe(9, 1);
    audio.broadcast(Arc::new(vec![1, 2, 3]), 4);
    let heard = audio.next_sample(9).unwrap();
    assert_eq!(heard.data.as_slice(), &[1, 2, 3]);
    assert_eq!(heard.prev_dropped_packets, 4);
    assert_eq!(heard.duration_nanos, AUDIO_FRAME_NANOS);
    assert!(audio.next_sample(9).is_none());
    audio.unsubscribe(9);
    audio.broadcast(Arc::new(vec![1]), 0);
    assert!(audio.next_sample(9).is_none());
}

#[test]
fn negotiated_codecs_name_their_media_types() {
    let audio = negotiated_audio_codec();
    assert_eq!(audio.mime_type, "audio/opus");
    assert_eq!(audio.clock_rate, 48_000);
    assert_eq!(audio.channels, 2);
    assert_eq!(audio.payload_type, 111);
    assert_eq!(audio_track_codec().mime_type, "audio/opus");
    let video = negotiated_video_codec(VideoCodec::Vp8);
    assert_eq!(video.mime_type, "video/VP8");
    assert_eq!(video.clock_rate, 90_000);
    assert_eq!(video.payload_type, 96);
}
