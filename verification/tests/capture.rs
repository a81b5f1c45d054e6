use instant_local_stream::capture::{
    CaptureError, CaptureSourceInfo, MonitorData, MonitorGeometry, Platform, ShellTraits, SourceKind,
    WS_EX_APPWINDOW_FLAG, WS_EX_NOACTIVATE_FLAG, WS_EX_TOOLWINDOW_FLAG, WindowData, WindowStyle,
    empty_list_message, ffmpeg_input_args, is_capturable_window, list_sources,
    list_sources_for_kind, list_windows, native_window_is_non_window_element, native_window_pid, rounded_rate,
    selected_window, source_dimensions, source_is_available, source_kind, source_line,
    window_handle, window_style_is_non_window_element,
};
use instant_local_stream::config::parse_source;
use instant_local_stream::preview::{
    PreviewError, capture_frame_preview, capture_test_pattern_preview, downscale_preview,
    preview_dimensions, test_pattern_args, yuv420_pixel,
};
use instant_local_stream::shared_capture::{SourceFrame, SourcePixelFormat};

fn window(native_id: u64, title: &str) -> WindowData {
    WindowData {
        native_id: Some(native_id),
        width: Some(800),
        height: Some(600),
        frequency: Some(59.94_f32.to_bits()),
        title: Some(title.to_owned()),
        app_name: Some("app".to_owned()),
        pid: Some(7),
        shell: None,
    }
}

fn monitor() -> MonitorData {
    MonitorData {
        width: 1920,
        height: 1080,
        frequency: Some(60.0_f32.to_bits()),
        friendly_name: Some("Main".to_owned()),
        name: Some("DISPLAY1".to_owned()),
    }
}

#[test]
fn source_kind_dispatch_rejects_unknown_kind() {
    assert_eq!(source_kind("monitor").unwrap(), SourceKind::Monitor);
    assert_eq!(source_kind("window").unwrap(), SourceKind::Window);
    let error = source_kind("camera").expect_err("unknown kinds must fail");
    assert!(
        error
            .message()
            .contains("unsupported capture source kind 'camera'")
    );
}

#[test]
fn popup_window_styles_are_filtered_without_app_specific_names() {
    assert!(window_style_is_non_window_element(
        WS_EX_TOOLWINDOW_FLAG,
        false
    ));
    assert!(window_style_is_non_window_element(
        WS_EX_NOACTIVATE_FLAG,
        false
    ));
    assert!(window_style_is_non_window_element(0, true));

    assert!(!window_style_is_non_window_element(0, false));
    assert!(!window_style_is_non_window_element(
        WS_EX_APPWINDOW_FLAG | WS_EX_TOOLWINDOW_FLAG,
        false
    ));
    assert!(!window_style_is_non_window_element(
        WS_EX_APPWINDOW_FLAG | WS_EX_NOACTIVATE_FLAG,
        true
    ));
}

#[test]
fn downscale_preview_preserves_aspect_ratio_and_samples_rgba() {
    let rgba = vec![
        1, 2, 3, 255, 4, 5, 6, 255, 7, 8, 9, 255, 10, 11, 12, 255, 13, 14, 15, 255, 16, 17, 18,
        255, 19, 20, 21, 255, 22, 23, 24, 255,
    ];
    let preview = downscale_preview(4, 2, &rgba, 2, 2);
    assert_eq!((preview.width, preview.height), (2, 1));
    assert_eq!(preview.rgba, vec![1, 2, 3, 255, 7, 8, 9, 255]);
}

#[test]
fn shared_bgra_frame_is_swizzled_only_for_the_thumbnail() {
    let frame = SourceFrame {
        width: 1,
        height: 1,
        pixel_format: SourcePixelFormat::Bgra,
        captured_at_unix_nanos: 0,
        data: std::sync::Arc::new(vec![3, 2, 1, 255]),
    };

    let preview = capture_frame_preview(&frame, 1, 1).unwrap();

    assert_eq!(preview.rgba, vec![1, 2, 3, 255]);
}

#[test]
fn shared_yuv420_frame_is_converted_to_rgba_thumbnail() {
    let frame = SourceFrame {
        width: 2,
        height: 2,
        pixel_format: SourcePixelFormat::Yuv420p,
        captured_at_unix_nanos: 0,
        data: std::sync::Arc::new(vec![235, 235, 235, 235, 128, 128]),
    };

    let preview = capture_frame_preview(&frame, 1, 1).unwrap();

    assert_eq!((preview.width, preview.height), (1, 1));
    assert_eq!(preview.rgba, vec![255, 255, 255, 255]);
}

#[test]
fn colours_are_converted_from_the_limited_range() {
    assert_eq!(yuv420_pixel(16, 128, 128), [0, 0, 0, 255]);
    assert_eq!(yuv420_pixel(235, 128, 128), [255, 255, 255, 255]);
    assert_eq!(yuv420_pixel(81, 90, 240), [255, 0, 0, 255]);
}

#[test]
fn damaged_frames_have_no_preview() {
    let mut frame = SourceFrame {
        width: 2,
        height: 2,
        pixel_format: SourcePixelFormat::Bgra,
        captured_at_unix_nanos: 0,
        data: std::sync::Arc::new(vec![0; 15]),
    };
    assert_eq!(
        capture_frame_preview(&frame, 1, 1).unwrap_err(),
        PreviewError::FrameBytes {
            found: 15,
            expected: 16
        }
    );
    frame.width = 0;
    assert_eq!(
        capture_frame_preview(&frame, 1, 1).unwrap_err(),
        PreviewError::EmptyFrame
    );
    frame.width = 1;
    frame.pixel_format = SourcePixelFormat::Yuv420p;
    assert_eq!(
        capture_frame_preview(&frame, 1, 1).unwrap_err(),
        PreviewError::OddYuv
    );
    assert!(capture_test_pattern_preview(2, 2, &vec![0; 3], 1, 1).is_err());
}

#[test]
fn previews_fit_their_bounds() {
    assert_eq!(preview_dimensions(1920, 1080, 320, 180), (320, 180));
    assert_eq!(preview_dimensions(100, 50, 320, 180), (100, 50));
    assert_eq!(preview_dimensions(1000, 10, 320, 180), (320, 3));
    assert!(test_pattern_args(640, 360, 30).contains(&"rawvideo".to_owned()));
}

#[test]
fn small_windows_are_not_offered() {
    let mut small = window(4, "Tool");
    assert!(is_capturable_window(&small));
    small.width = Some(159);
    assert!(!is_capturable_window(&small));
    small.width = Some(160);
    small.height = Some(90);
    assert!(is_capturable_window(&small));
}

#[test]
fn tool_windows_are_elements() {
    let traits = ShellTraits {
        class_name: Some("SomeApp".to_owned()),
        style: Some(WindowStyle {
            ex_style: WS_EX_TOOLWINDOW_FLAG,
            has_owner: false,
        }),
    };
    assert!(native_window_is_non_window_element(&traits));
    let traits = ShellTraits {
        class_name: Some("traynotifywnd".to_owned()),
        style: None,
    };
    assert!(native_window_is_non_window_element(&traits));
}

#[test]
fn listed_windows_are_selected_by_their_handles() {
    let windows = vec![window(4, "One"), window(9, "Two")];
    assert_eq!(selected_window(&windows, 0, Some(9)).unwrap(), 1);
    assert_eq!(selected_window(&windows, 1, None).unwrap(), 1);
    assert!(selected_window(&windows, 0, Some(8)).is_err());
    assert!(selected_window(&windows, 2, None).is_err());
    let listed =
        list_sources_for_kind("window", Err(no_displays()), Ok(vec![window(4, "One"), window(9, "Two")]))
            .unwrap();
    assert_eq!(listed.len(), 2);
    assert_eq!(listed[1].native_id, Some(9));
    assert_eq!(listed[1].fps, Some(60));
    let all = list_sources(Ok(vec![monitor()]), Ok(windows)).unwrap();
    assert_eq!(all.len(), 3);
    assert_eq!(all[0].kind, "monitor");
    assert!(list_sources_for_kind("camera", Ok(vec![]), Ok(vec![])).is_err());
}

fn no_displays() -> CaptureError {
    CaptureError::Enumeration("enumerate displays".to_owned())
}

fn no_windows() -> CaptureError {
    CaptureError::Enumeration("enumerate windows".to_owned())
}

#[test]
fn missing_windows_do_not_hide_the_monitors() {
    let listed = list_sources(Ok(vec![monitor()]), Err(no_windows())).unwrap();
    assert_eq!(listed.len(), 1);
    assert_eq!(listed[0].kind, "monitor");
    let failed = list_sources(Err(no_displays()), Ok(vec![window(4, "One")])).unwrap_err();
    assert_eq!(failed.message(), "enumerate displays");
    let failed = list_sources_for_kind("monitor", Err(no_displays()), Ok(vec![])).unwrap_err();
    assert_eq!(failed.message(), "enumerate displays");
    let failed = list_sources_for_kind("window", Ok(vec![monitor()]), Err(no_windows())).unwrap_err();
    assert_eq!(failed.message(), "enumerate windows");
    assert_eq!(list_windows(Err(no_windows())).unwrap_err().message(), "enumerate windows");
    assert_eq!(list_windows(Ok(vec![window(4, "One")])).unwrap().len(), 1);
}

#[test]
fn rates_are_rounded_to_whole_frames() {
    assert_eq!(rounded_rate(Some(59.94_f32.to_bits())), Some(60));
    assert_eq!(rounded_rate(Some(143.5_f32.to_bits())), Some(144));
    assert_eq!(rounded_rate(Some(0.0_f32.to_bits())), None);
    assert_eq!(rounded_rate(Some(f32::NAN.to_bits())), None);
    assert_eq!(rounded_rate(None), None);
}

#[test]
fn handles_fit_the_window_system() {
    assert_eq!(window_handle(5), Some(5));
    assert_eq!(window_handle(u64::MAX), None);
    assert_eq!(native_window_pid(true, 0), None);
    assert_eq!(native_window_pid(true, 8), Some(8));
    assert_eq!(native_window_pid(false, 8), None);
}

#[test]
fn capture_inputs_follow_the_platform() {
    let geometry = Some(MonitorGeometry {
        x: -10,
        y: 20,
        width: 1920,
        height: 1080,
    });
    let args = ffmpeg_input_args(
        Platform::Windows,
        "monitor",
        geometry,
        Ok(1),
        ":0",
        Some(30),
        true,
    )
    .unwrap();
    assert!(args.contains(&"gdigrab".to_owned()));
    assert!(args.contains(&"-10".to_owned()));
    let args = ffmpeg_input_args(
        Platform::Linux,
        "monitor",
        geometry,
        Ok(1),
        ":0",
        Some(30),
        false,
    )
    .unwrap();
    assert!(args.contains(&"x11grab".to_owned()));
    let refused = ffmpeg_input_args(
        Platform::Other,
        "monitor",
        geometry,
        Ok(1),
        ":0",
        None,
        true,
    );
    assert!(refused.is_err());
}

#[test]
fn dimensions_come_from_the_selected_source() {
    assert_eq!(
        source_dimensions("monitor", Some((4, 2)), Ok((8, 6))).unwrap(),
        (4, 2)
    );
    assert_eq!(
        source_dimensions("window", Some((4, 2)), Ok((8, 6))).unwrap(),
        (8, 6)
    );
    assert!(source_dimensions("monitor", None, Ok((8, 6))).is_err());
    assert!(source_dimensions("camera", Some((4, 2)), Ok((8, 6))).is_err());
}

#[test]
fn sources_are_found_by_index_or_handle() {
    let sources = list_sources(Ok(vec![monitor()]), Err(no_windows())).unwrap();
    assert!(source_is_available(&parse_source("monitor:0").unwrap(), false, &sources));
    assert!(!source_is_available(&parse_source("monitor:1").unwrap(), false, &sources));
    assert!(source_is_available(&parse_source("test:0").unwrap(), false, &sources));
}

#[test]
fn sources_are_printed_one_per_line() {
    let source = CaptureSourceInfo {
        kind: "monitor".to_owned(),
        index: 0,
        native_id: None,
        width: 1920,
        height: 1080,
        fps: None,
        pid: None,
        name: "Main".to_owned(),
    };
    assert!(source_line(&source).contains("1920x1080"));
    assert_ne!(
        empty_list_message(SourceKind::Monitor),
        empty_list_message(SourceKind::Window)
    );
}
