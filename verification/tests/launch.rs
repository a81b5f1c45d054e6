use instant_local_stream::capture::CaptureSourceInfo;
use instant_local_stream::cli::{
    Cli, Command, Launch, LogOutput, log_output, validate, wait_for_viewer_timeout,
};
use instant_local_stream::config::{AppConfig, parse_source};
use instant_local_stream::packaging::{
    FfmpegChoice, choose_ffmpeg, fresh_run_directory, is_stale_runtime_dir, run_directory,
};
use instant_local_stream::runtime::{
    FoundRecord, RecordDecision, RuntimeStatus, judge_record, status_file_name,
    temporary_file_name,
};

#[test]
fn a_launch_without_a_command_opens_the_window() {
    let cli = Cli {
        ui: false,
        json: false,
        command: None,
    };
    assert!(cli.gui_mode());
    assert!(matches!(cli.launch(), Launch::Ui));
    let cli = Cli {
        ui: false,
        json: false,
        command: Some(Command::Status { http_port: 8475 }),
    };
    assert!(!cli.gui_mode());
    assert!(matches!(cli.launch(), Launch::Status(8475)));
}

#[test]
fn logs_of_a_window_without_a_console_are_discarded() {
    assert_eq!(log_output(false, true, true), LogOutput::Discard);
    assert_eq!(log_output(true, true, true), LogOutput::Json);
    assert_eq!(log_output(false, true, false), LogOutput::Plain);
    assert_eq!(wait_for_viewer_timeout(), 30_000_000_000);
}

#[test]
fn validation_needs_ffmpeg_and_the_source() {
    let none: Vec<CaptureSourceInfo> = Vec::new();
    let test = parse_source("test:0").unwrap();
    assert!(validate(&test, true, false, &none, false).ok);
    assert!(!validate(&test, false, false, &none, false).ok);
    let monitor = parse_source("monitor:0").unwrap();
    let outcome = validate(&monitor, true, false, &none, false);
    assert!(!outcome.source_available && !outcome.ok);
}

#[test]
fn runtime_records_are_named_by_their_ports() {
    assert_eq!(status_file_name(8475), "status-8475.json");
    assert_eq!(temporary_file_name(8475, 12), "status-8475-12.tmp");
    let mut config = AppConfig::default();
    config.token = "Ab12Cd34Ef56".to_owned();
    let status = RuntimeStatus::of(&config, 12, None);
    assert_eq!(status.pid, 12);
    assert_eq!(status.http_port, config.http_port);
    assert!(status.viewer_url.starts_with("http://"));
}

#[test]
fn dead_records_are_removed() {
    assert_eq!(
        judge_record(FoundRecord::Parsed { answers: true }),
        RecordDecision {
            running: true,
            remove: false
        }
    );
    assert_eq!(
        judge_record(FoundRecord::Parsed { answers: false }),
        RecordDecision {
            running: false,
            remove: true
        }
    );
    assert_eq!(
        judge_record(FoundRecord::Malformed),
        RecordDecision {
            running: false,
            remove: true
        }
    );
    assert_eq!(
        judge_record(FoundRecord::Missing),
        RecordDecision {
            running: false,
            remove: false
        }
    );
}

#[test]
fn run_directories_are_recognized_once_stale() {
    let name = run_directory(12, 34);
    let minute = 60_000_000_000;
    assert!(is_stale_runtime_dir(true, Some(&name), Some(minute + 1)));
    assert!(!is_stale_runtime_dir(false, Some(&name), Some(minute + 1)));
    assert!(!is_stale_runtime_dir(true, Some("other"), Some(minute + 1)));
    assert!(!is_stale_runtime_dir(true, Some(&name), Some(1)));
    let fresh = fresh_run_directory(12);
    assert_ne!(fresh, fresh_run_directory(12));
    assert!(is_stale_runtime_dir(true, Some(&fresh), Some(minute + 1)));
}

#[test]
fn installed_encoders_are_used_without_an_embedded_one() {
    assert_eq!(choose_ffmpeg(Some(10), &vec![]), FfmpegChoice::Extract);
    assert_eq!(choose_ffmpeg(Some(0), &vec![]), FfmpegChoice::EmbeddedEmpty);
    assert_eq!(
        choose_ffmpeg(None, &vec![false, true]),
        FfmpegChoice::Installed(1)
    );
    assert_eq!(choose_ffmpeg(None, &vec![false]), FfmpegChoice::NotFound);
    assert!(FfmpegChoice::NotFound.failure().is_some());
    assert!(FfmpegChoice::Extract.failure().is_none());
}
