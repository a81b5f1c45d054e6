use instant_local_stream::encoder::{
    AdapterData, EncodingDevice, FfmpegNvencDevice, SelectedEncoder, automatic_quality_group_budget,
    automatic_quality_group_budget_for_codec, device_names_match, discover_encoding_devices,
    discover_local_encoding_devices, find_ffmpeg, maximum_quality_group_budget_for_codec,
    nvenc_probe_encoder, parse_ffmpeg_nvenc_devices, resolve_video_encoder, software_device,
};

fn nvidia() -> EncodingDevice {
    EncodingDevice {
        id: "gpu:2".to_owned(),
        name: "NVIDIA · Test GPU".to_owned(),
        vendor: "NVIDIA".to_owned(),
        hardware: true,
        gpu_index: Some(2),
        h264_encoder: Some("h264_nvenc".to_owned()),
        h265_encoder: Some("hevc_nvenc".to_owned()),
        max_sessions: Some(8),
    }
}

#[test]
fn auto_selects_a_compatible_hardware_encoder() {
    let selected = resolve_video_encoder("auto", "h264", &vec![software_device(), nvidia()]);
    assert_eq!(
        selected,
        Some(SelectedEncoder {
            name: "h264_nvenc".to_owned(),
            gpu_index: Some(2),
            qsv_device: None,
        })
    );
}

#[test]
fn automatic_budget_uses_known_session_limit() {
    assert_eq!(
        automatic_quality_group_budget("auto", &vec![software_device(), nvidia()]),
        8
    );
    assert_eq!(
        automatic_quality_group_budget(
            "gpu:2",
            &vec![EncodingDevice {
                max_sessions: Some(2),
                ..nvidia()
            }]
        ),
        2
    );
}

#[test]
fn maximum_budget_exposes_more_than_four_hardware_slots() {
    assert_eq!(
        maximum_quality_group_budget_for_codec("h264", &vec![software_device(), nvidia()]),
        8
    );
}

#[test]
fn ffmpeg_nvenc_parser_keeps_capable_devices_only() {
    let output = "[ GPU #0 - < NVIDIA GeForce RTX 5090 > has Compute SM 12.0 ]\n\
supports NVENC\n\
[ GPU #1 - < NVIDIA GeForce RTX 5090 > has Compute SM 12.0 ]\n\
does not support NVENC\n\
[ GPU #2 - < NVIDIA GeForce RTX 5090 > has Compute SM 12.0 ]\n\
supports NVENC\n";
    assert_eq!(
        parse_ffmpeg_nvenc_devices(output),
        vec![
            FfmpegNvencDevice {
                index: 0,
                name: "NVIDIA GeForce RTX 5090".to_owned(),
            },
            FfmpegNvencDevice {
                index: 2,
                name: "NVIDIA GeForce RTX 5090".to_owned(),
            },
        ]
    );
}

#[test]
fn codecs_without_hardware_use_no_device() {
    assert!(resolve_video_encoder("auto", "vp8", &vec![nvidia()]).is_none());
    assert!(resolve_video_encoder("cpu", "h264", &vec![software_device(), nvidia()]).is_none());
    assert!(resolve_video_encoder("gpu:3", "h264", &vec![nvidia()]).is_none());
    assert_eq!(
        automatic_quality_group_budget_for_codec("auto", "vp8", &vec![software_device(), nvidia()]),
        2
    );
}

#[test]
fn found_ffmpeg_reports_its_first_line() {
    let info = find_ffmpeg(Some("ffmpeg"), false, Some("ffmpeg version 7\nbuilt with"));
    assert!(info.available);
    assert_eq!(info.command, "ffmpeg");
    assert_eq!(info.version.as_deref(), Some("ffmpeg version 7"));
    let info = find_ffmpeg(Some("/tmp/x"), true, Some("v"));
    assert_eq!(info.command, "embedded FFmpeg");
    let info = find_ffmpeg(None, false, None);
    assert!(!info.available);
    assert_eq!(info.version, None);
}

#[test]
fn adapters_are_listed_once() {
    let listing = " V....D h264_nvenc NVIDIA NVENC H.264 encoder\n";
    let adapters = vec![
        AdapterData {
            index: 0,
            luid: 5,
            software: false,
            vendor_id: 0x10de,
            name: "NVIDIA GeForce RTX 5090".to_owned(),
        },
        AdapterData {
            index: 1,
            luid: 5,
            software: false,
            vendor_id: 0x10de,
            name: "NVIDIA GeForce RTX 5090".to_owned(),
        },
    ];
    let devices = discover_encoding_devices(listing, None, Some(&adapters));
    assert_eq!(devices[0].id, software_device().id);
    assert_eq!(devices.len(), 2);
    assert_eq!(devices[1].h264_encoder.as_deref(), Some("h264_nvenc"));
    assert_eq!(devices[1].h265_encoder, None);
    let nvenc = || {
        Some(parse_ffmpeg_nvenc_devices(
            "[ GPU #2 - < NVIDIA GeForce RTX 4090 > has Compute SM 8.9 ]\nsupports NVENC\n",
        ))
    };
    assert_eq!(discover_encoding_devices(listing, nvenc(), Some(&vec![])).len(), 2);
    let unlisted = discover_encoding_devices(listing, nvenc(), None);
    assert_eq!(unlisted.len(), 1);
    assert_eq!(unlisted[0].id, software_device().id);
    assert_eq!(nvenc_probe_encoder(listing), Some("h264_nvenc"));
    assert_eq!(nvenc_probe_encoder(""), None);
    assert_eq!(discover_local_encoding_devices(None).len(), 1);
}

#[test]
fn device_names_match_across_spellings() {
    assert!(device_names_match("NVIDIA GeForce RTX 5090", "geforce rtx-5090"));
    assert!(!device_names_match("NVIDIA GeForce RTX 5090", "GeForce RTX 4090"));
}
