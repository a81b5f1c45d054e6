use instant_local_stream::config::AppConfig;
use instant_local_stream::preferences::{
    HostNetworkTestResult, UserPreferences, default_max_viewers,
};

#[test]
fn native_window_handles_are_not_persisted_across_sessions() {
    let mut config = AppConfig::default();
    config.source.kind = "window".to_owned();
    config.source.native_id = Some(42);

    assert_eq!(
        UserPreferences::from_config(&config, None).source.native_id,
        None
    );
}

#[test]
fn older_files_allow_eight_viewers() {
    assert_eq!(default_max_viewers(), 8);
}

#[test]
fn preferences_restore_the_settings_and_keep_the_session() {
    let mut config = AppConfig::default();
    config.codec = "vp9".to_owned();
    config.http_port = 9100;
    config.excluded_audio_processes = vec!["Slack".to_owned()];
    let result = HostNetworkTestResult {
        upload_bps: 94_000_000,
        tested_at_unix_secs: 1_750_000_000,
    };
    let preferences = UserPreferences::from_config(&config, Some(result));
    assert_eq!(preferences.host_network_test, Some(result));

    let mut restored = AppConfig::default();
    restored.token = "Ab12Cd34Ef56".to_owned();
    preferences.apply_to(&mut restored);
    assert_eq!(restored.codec, "vp9");
    assert_eq!(restored.http_port, 9100);
    assert_eq!(restored.excluded_audio_processes, vec!["Slack".to_owned()]);
    assert_eq!(restored.token, "Ab12Cd34Ef56");
}
