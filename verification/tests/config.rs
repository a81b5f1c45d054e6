use instant_local_stream::config::{
    AppConfig, ConfigArgs, ConfigErrorKind, TOKEN_LENGTH, default_audio_exclusions, fps_presets,
    fps_value, generate_token, parse_port_range, parse_source, quality_height, quality_presets,
    validate_token,
};

fn arguments() -> ConfigArgs {
    ConfigArgs {
        port: Some(18080),
        bind: "localhost".to_owned(),
        http_port: 8080,
        media_ports: "40000-40010".to_owned(),
        advertise_host: None,
        token: None,
        max_viewers: 8,
        source: "monitor:0".to_owned(),
        source_native_id: None,
        draw_mouse: true,
        codec: "vp8".to_owned(),
        quality: None,
        fps_preset: None,
        width: Some(1920),
        height: Some(1080),
        fps: Some(60),
        bitrate: 6_000_000,
        quality_mode: "manual".to_owned(),
        bitrate_mode: "fixed".to_owned(),
        adaptive_quality_ceiling: "source".to_owned(),
        adaptive_fps_ceiling: "source".to_owned(),
        max_quality_groups: "1".to_owned(),
        latency_preference: "balanced".to_owned(),
        audio: Some("off".to_owned()),
        exclude_audio_process: Vec::new(),
    }
}

#[test]
fn generated_tokens_are_twelve_ascii_alphanumeric_characters() {
    let token = generate_token();
    assert_eq!(token.len(), TOKEN_LENGTH);
    assert!(token.bytes().all(|byte| byte.is_ascii_alphanumeric()));
}

#[test]
fn default_uses_one_shared_media_port() {
    let config = AppConfig::default();
    assert_eq!(config.media_ports.first, config.media_ports.last);
    assert_eq!(config.codec, "auto");
    assert_eq!(config.bitrate, 14_000_000);
}

#[test]
fn viewer_url_for_host_always_uses_http_and_the_supplied_host() {
    let mut config = AppConfig::default();
    config.http_port = 9000;
    config.token = "Ab12Cd34Ef56".to_owned();

    assert_eq!(
        config.viewer_url_for_host("stream.example.com"),
        "http://stream.example.com:9000/Ab12Cd34Ef56"
    );
}

#[test]
fn h264_is_an_available_initial_codec() {
    let mut config = AppConfig::default();
    config.codec = "h264".to_owned();
    assert!(config.validate().is_ok());
}

#[test]
fn capture_fps_is_bounded_for_timing_retention() {
    let mut config = AppConfig::default();
    config.fps = 240;
    assert!(config.validate().is_ok());
    config.fps = 241;
    assert!(config.validate().is_err());
}

#[test]
fn automatic_vp8_1080p60_uses_a_quality_preserving_start_bitrate() {
    let mut config = AppConfig::default();
    config.source.kind = "test".to_owned();
    config.codec = "vp8".to_owned();
    config.width = 1920;
    config.height = 1080;
    config.fps = 60;
    config.quality_mode = "manual".to_owned();
    config.quality = "1080p".to_owned();
    config.fps_preset = "60".to_owned();
    config.bitrate_mode = "automatic".to_owned();
    config.latency_preference = "low".to_owned();
    assert!(config.effective_bitrate() >= 14_000_000);
}

#[test]
fn automatic_1080p30_starts_at_fourteen_megabits_or_more() {
    let mut config = AppConfig::default();
    config.source.kind = "test".to_owned();
    config.codec = "vp8".to_owned();
    config.width = 1920;
    config.height = 1080;
    config.fps = 30;
    config.quality_mode = "manual".to_owned();
    config.quality = "1080p".to_owned();
    config.fps_preset = "30".to_owned();
    config.bitrate_mode = "automatic".to_owned();

    assert!(config.effective_bitrate() >= 14_000_000);
}

#[test]
fn shared_port_configures_tcp_and_udp() {
    let mut config = AppConfig::default();
    config
        .apply_args(ConfigArgs {
            port: Some(18080),
            bind: "localhost".to_owned(),
            http_port: 8080,
            media_ports: "40000-40010".to_owned(),
            advertise_host: None,
            token: None,
            max_viewers: 8,
            source: "monitor:0".to_owned(),
            source_native_id: None,
            draw_mouse: true,
            codec: "vp8".to_owned(),
            quality: None,
            fps_preset: None,
            width: Some(1920),
            height: Some(1080),
            fps: Some(60),
            bitrate: 6_000_000,
            quality_mode: "manual".to_owned(),
            bitrate_mode: "fixed".to_owned(),
            adaptive_quality_ceiling: "source".to_owned(),
            adaptive_fps_ceiling: "source".to_owned(),
            max_quality_groups: "1".to_owned(),
            latency_preference: "balanced".to_owned(),
            audio: Some("off".to_owned()),
            exclude_audio_process: Vec::new(),
        })
        .unwrap();
    assert_eq!(config.http_port, 18080);
    assert_eq!(config.media_ports.first, 18080);
    assert_eq!(config.media_ports.last, 18080);
}

#[test]
fn two_generated_tokens_differ() {
    let tokens = [generate_token(), generate_token(), generate_token()];
    assert!(tokens[0] != tokens[1] || tokens[1] != tokens[2]);
    for token in &tokens {
        assert!(validate_token(token).is_ok());
    }
}

#[test]
fn arguments_without_a_shared_port_keep_separate_ports() {
    let mut config = AppConfig::default();
    let mut args = arguments();
    args.port = None;
    config.apply_args(args).unwrap();
    assert_eq!(config.http_port, 8080);
    assert_eq!(config.media_ports.first, 40000);
    assert_eq!(config.media_ports.last, 40010);
    assert_eq!(config.quality, "custom");
    assert_eq!(config.fps_preset, "custom");
    assert_eq!(config.audio_mode, "off");
}

#[test]
fn refused_arguments_are_named() {
    let mut config = AppConfig::default();
    let mut args = arguments();
    args.port = Some(0);
    let error = config.apply_args(args).unwrap_err();
    assert_eq!(error.kind, ConfigErrorKind::SharedPort);
    assert_eq!(error.message(), "--port must be between 1 and 65535");

    let error = parse_port_range("1-2-3").unwrap_err();
    assert_eq!(error.message(), "media port range must look like 40000-40010");
    assert_eq!(
        parse_port_range("x").unwrap_err().message(),
        "invalid first media port"
    );
    assert_eq!(
        parse_port_range("1-").unwrap_err().message(),
        "invalid last media port"
    );
    assert_eq!(parse_port_range("40000").unwrap().last, 40000);

    let error = parse_source("camera:0").unwrap_err();
    assert_eq!(error.kind, ConfigErrorKind::SourceKind);
    assert!(error.message().contains("camera"));
    assert_eq!(parse_source("window:3").unwrap().index, 3);
}

#[test]
fn presets_have_heights_and_rates() {
    assert_eq!(quality_height("2160p"), Some(2160));
    assert_eq!(quality_height("source"), None);
    assert_eq!(fps_value("24"), Some(24));
    assert_eq!(fps_value("source"), None);
    assert_eq!(quality_presets().len(), 10);
    assert_eq!(fps_presets()[7], "120");
    assert_eq!(default_audio_exclusions()[0], "Discord");
}

#[test]
fn hosts_follow_the_bind_mode() {
    let mut config = AppConfig::default();
    config.advertise_host = None;
    config.bind = "localhost".to_owned();
    assert_eq!(config.bind_host(), "127.0.0.1");
    assert_eq!(config.advertised_host(Some("192.168.1.4")), "127.0.0.1");
    config.bind = "lan".to_owned();
    assert_eq!(config.bind_host(), "0.0.0.0");
    assert_eq!(config.advertised_host(Some("192.168.1.4")), "192.168.1.4");
    assert_eq!(config.advertised_host(None), "<lan-ip>");
    config.advertise_host = Some("example.org".to_owned());
    assert_eq!(config.advertised_host(None), "example.org");
    assert_eq!(config.advertised_host_for_media(false, None), "127.0.0.1");
}

#[test]
fn invalid_configurations_are_refused() {
    let valid = AppConfig::default();
    assert!(valid.validate().is_ok());

    let mut config = AppConfig::default();
    config.http_port = 0;
    assert_eq!(config.validate().unwrap_err().kind, ConfigErrorKind::HttpPort);

    let mut config = AppConfig::default();
    config.advertise_host = Some("http://example.org".to_owned());
    assert_eq!(
        config.validate().unwrap_err().kind,
        ConfigErrorKind::AdvertisedHost
    );
    assert!(validate_token("short").is_err());
    assert!(validate_token("Ab12Cd34Ef5!").is_err());
}
