//! Capture sources: monitors and windows, how they are listed, and how FFmpeg reads them.
//!
//! The program asks the platform for its monitors and windows; what it answers is held here as
//! plain values.

use vstd::prelude::*;
use vstd::string::*;

use crate::config;
use crate::float;
use crate::media;
use crate::media::{push_size, push_string, push_strs};
use crate::text;

verus! {

/// Smaller windows are not offered.
pub const MIN_WINDOW_WIDTH: u32 = 160;

pub const MIN_WINDOW_HEIGHT: u32 = 90;

pub const WS_EX_APPWINDOW_FLAG: u32 = 0x0004_0000;

pub const WS_EX_NOACTIVATE_FLAG: u32 = 0x0800_0000;

pub const WS_EX_TOOLWINDOW_FLAG: u32 = 0x0000_0080;

/// A source that can be captured.
#[derive(Debug)]
pub struct CaptureSourceInfo {
    pub kind: String,
    pub index: usize,
    pub native_id: Option<u64>,
    pub width: u32,
    pub height: u32,
    pub fps: Option<u32>,
    pub pid: Option<u32>,
    pub name: String,
}

#[verifier::ext_equal]
pub struct SourceInfoView {
    pub kind: Seq<char>,
    pub index: usize,
    pub native_id: Option<u64>,
    pub width: u32,
    pub height: u32,
    pub fps: Option<u32>,
    pub pid: Option<u32>,
    pub name: Seq<char>,
}

impl View for CaptureSourceInfo {
    type V = SourceInfoView;

    open spec fn view(&self) -> SourceInfoView {
        SourceInfoView {
            kind: self.kind@,
            index: self.index,
            native_id: self.native_id,
            width: self.width,
            height: self.height,
            fps: self.fps,
            pid: self.pid,
            name: self.name@,
        }
    }
}

impl Clone for CaptureSourceInfo {
    fn clone(&self) -> (r: Self)
        ensures
            r@ == self@,
    {
        CaptureSourceInfo {
            kind: self.kind.clone(),
            index: self.index,
            native_id: self.native_id,
            width: self.width,
            height: self.height,
            fps: self.fps,
            pid: self.pid,
            name: self.name.clone(),
        }
    }
}

pub open spec fn source_views(sources: Seq<CaptureSourceInfo>) -> Seq<SourceInfoView> {
    sources.map_values(|s: CaptureSourceInfo| s@)
}

#[derive(Clone, Copy, Debug, PartialEq, Eq, Structural)]
pub enum SourceKind {
    Monitor,
    Window,
}

/// Why a source cannot be captured.
#[derive(Debug)]
pub enum CaptureError {
    UnsupportedKind(String),
    MissingMonitor,
    MissingSelectedWindow,
    MissingWindow,
    WindowsWindowCapture,
    UnsupportedPlatform(String),
    UnsupportedFfmpegSource(String),
    UnsupportedSource(String),
    NoPreview(String),
    /// The platform could not list its monitors or windows; this is what it said.
    Enumeration(String),
}

pub enum CaptureErrorView {
    UnsupportedKind(Seq<char>),
    MissingMonitor,
    MissingSelectedWindow,
    MissingWindow,
    WindowsWindowCapture,
    UnsupportedPlatform(Seq<char>),
    UnsupportedFfmpegSource(Seq<char>),
    UnsupportedSource(Seq<char>),
    NoPreview(Seq<char>),
    Enumeration(Seq<char>),
}

impl View for CaptureError {
    type V = CaptureErrorView;

    open spec fn view(&self) -> CaptureErrorView {
        match self {
            CaptureError::UnsupportedKind(kind) => CaptureErrorView::UnsupportedKind(kind@),
            CaptureError::MissingMonitor => CaptureErrorView::MissingMonitor,
            CaptureError::MissingSelectedWindow => CaptureErrorView::MissingSelectedWindow,
            CaptureError::MissingWindow => CaptureErrorView::MissingWindow,
            CaptureError::WindowsWindowCapture => CaptureErrorView::WindowsWindowCapture,
            CaptureError::UnsupportedPlatform(kind) => CaptureErrorView::UnsupportedPlatform(kind@),
            CaptureError::UnsupportedFfmpegSource(kind) =>
                CaptureErrorView::UnsupportedFfmpegSource(kind@),
            CaptureError::UnsupportedSource(kind) => CaptureErrorView::UnsupportedSource(kind@),
            CaptureError::NoPreview(kind) => CaptureErrorView::NoPreview(kind@),
            CaptureError::Enumeration(message) => CaptureErrorView::Enumeration(message@),
        }
    }
}

impl CaptureErrorView {
    pub open spec fn text(self) -> Seq<char> {
        match self {
            CaptureErrorView::UnsupportedKind(kind) => "unsupported capture source kind '"@ + kind
                + "'"@,
            CaptureErrorView::MissingMonitor => "capture monitor does not exist"@,
            CaptureErrorView::MissingSelectedWindow =>
                "selected capture window no longer exists"@,
            CaptureErrorView::MissingWindow => "capture window does not exist"@,
            CaptureErrorView::WindowsWindowCapture =>
                "Windows window capture is provided by Windows Graphics Capture, not FFmpeg gdigrab"@,
            CaptureErrorView::UnsupportedPlatform(kind) =>
                "screen capture is currently supported only on Windows and Linux/X11; '"@ + kind
                + "' is unavailable on this platform"@,
            CaptureErrorView::UnsupportedFfmpegSource(kind) =>
                "unsupported FFmpeg capture source '"@ + kind + "'"@,
            CaptureErrorView::UnsupportedSource(kind) => "unsupported capture source '"@ + kind
                + "'"@,
            CaptureErrorView::NoPreview(kind) => "source previews are unavailable for '"@ + kind
                + "'"@,
            CaptureErrorView::Enumeration(message) => message,
        }
    }
}

fn quoted(before: &str, name: &str, after: &str) -> (r: String)
    ensures
        r@ == before@ + name@ + after@,
{
    let mut s = text::joined(before, name);
    s.append(after);
    s
}

impl CaptureError {
    pub fn message(&self) -> (r: String)
        ensures
            r@ == self@.text(),
    {
        match self {
            CaptureError::UnsupportedKind(kind) => quoted(
                "unsupported capture source kind '",
                kind.as_str(),
                "'",
            ),
            CaptureError::MissingMonitor => "capture monitor does not exist".to_owned(),
            CaptureError::MissingSelectedWindow =>
                "selected capture window no longer exists".to_owned(),
            CaptureError::MissingWindow => "capture window does not exist".to_owned(),
            CaptureError::WindowsWindowCapture =>
                "Windows window capture is provided by Windows Graphics Capture, not FFmpeg gdigrab".to_owned(),
            CaptureError::UnsupportedPlatform(kind) => quoted(
                "screen capture is currently supported only on Windows and Linux/X11; '",
                kind.as_str(),
                "' is unavailable on this platform",
            ),
            CaptureError::UnsupportedFfmpegSource(kind) => quoted(
                "unsupported FFmpeg capture source '",
                kind.as_str(),
                "'",
            ),
            CaptureError::UnsupportedSource(kind) => quoted(
                "unsupported capture source '",
                kind.as_str(),
                "'",
            ),
            CaptureError::NoPreview(kind) => quoted(
                "source previews are unavailable for '",
                kind.as_str(),
                "'",
            ),
            CaptureError::Enumeration(message) => message.clone(),
        }
    }
}

pub open spec fn kind_of(kind: Seq<char>) -> Option<SourceKind> {
    if kind == "monitor"@ {
        Some(SourceKind::Monitor)
    } else if kind == "window"@ {
        Some(SourceKind::Window)
    } else {
        None
    }
}

pub fn source_kind(kind: &str) -> (r: Result<SourceKind, CaptureError>)
    ensures
        match r {
            Ok(found) => kind_of(kind@) == Some(found),
            Err(e) => kind_of(kind@) is None && e@ == CaptureErrorView::UnsupportedKind(kind@),
        },
{
    if text::text_eq(kind, "monitor") {
        Ok(SourceKind::Monitor)
    } else if text::text_eq(kind, "window") {
        Ok(SourceKind::Window)
    } else {
        Err(CaptureError::UnsupportedKind(kind.to_owned()))
    }
}

/// The 32-bit handle under which the platform is asked about a window, if there can be one.
pub fn window_handle(native_id: u64) -> (r: Option<u32>)
    ensures
        r == if 0 < native_id <= u32::MAX {
            Some(native_id as u32)
        } else {
            None
        },
{
    if 0 < native_id && native_id <= u32::MAX as u64 {
        Some(native_id as u32)
    } else {
        None
    }
}

/// Whether a window exists. `is_window` is the platform's answer.
pub fn native_window_exists(native_id: u64, is_window: bool) -> (r: bool)
    ensures
        r == (native_id != 0 && is_window),
{
    native_id != 0 && is_window
}

/// The process of a window. `pid` is the platform's answer, in which zero means none.
pub fn native_window_pid(exists: bool, pid: u32) -> (r: Option<u32>)
    ensures
        r == if exists && pid != 0 {
            Some(pid)
        } else {
            None
        },
{
    if exists && pid != 0 {
        Some(pid)
    } else {
        None
    }
}

/// Whether a window is minimized. `is_iconic` is the platform's answer.
pub fn native_window_is_minimized(exists: bool, is_iconic: bool) -> (r: bool)
    ensures
        r == (exists && is_iconic),
{
    exists && is_iconic
}

/// A surface of a style that is no window of its own: one with an owner, a tool window or one that
/// cannot be activated, unless it asks to be treated as a window.
pub open spec fn is_element_style(ex_style: u32, has_owner: bool) -> bool {
    &&& ex_style & WS_EX_APPWINDOW_FLAG == 0
    &&& has_owner || ex_style & WS_EX_TOOLWINDOW_FLAG != 0 || ex_style & WS_EX_NOACTIVATE_FLAG != 0
}

pub fn window_style_is_non_window_element(ex_style: u32, has_owner: bool) -> (r: bool)
    ensures
        r == is_element_style(ex_style, has_owner),
{
    let is_app_window = ex_style & WS_EX_APPWINDOW_FLAG != 0;
    let is_tool_window = ex_style & WS_EX_TOOLWINDOW_FLAG != 0;
    let does_not_activate = ex_style & WS_EX_NOACTIVATE_FLAG != 0;
    !is_app_window && (has_owner || is_tool_window || does_not_activate)
}

/// A surface that asks to be treated as a window is never left out for its style.
pub proof fn lemma_app_windows_are_kept(ex_style: u32, has_owner: bool)
    ensures
        ex_style & WS_EX_APPWINDOW_FLAG != 0 ==> !is_element_style(ex_style, has_owner),
{
}

pub open spec fn element_classes() -> Seq<Seq<char>> {
    seq![
        "Windows.UI.Core.CoreWindow"@,
        "Xaml_WindowedPopupClass"@,
        "NotifyIconOverflowWindow"@,
        "Shell_SecondaryTrayWnd"@,
        "TrayNotifyWnd"@,
        "TaskListThumbnailWnd"@,
        "TaskSwitcherWnd"@,
        "ForegroundStaging"@,
        "PopupHost"@,
    ]
}

fn non_window_element_classes() -> (r: Vec<&'static str>)
    ensures
        text::views_of(r@) == element_classes(),
{
    let classes = vec![
        "Windows.UI.Core.CoreWindow",
        "Xaml_WindowedPopupClass",
        "NotifyIconOverflowWindow",
        "Shell_SecondaryTrayWnd",
        "TrayNotifyWnd",
        "TaskListThumbnailWnd",
        "TaskSwitcherWnd",
        "ForegroundStaging",
        "PopupHost",
    ];
    assert(text::views_of(classes@) =~= element_classes());
    classes
}

pub open spec fn element_apps() -> Seq<Seq<char>> {
    seq![
        "shellexperiencehost"@,
        "windows shell experience host"@,
        "searchhost"@,
        "textinputhost"@,
        "startmenuexperiencehost"@,
        "lockapp"@,
        "applicationframehost"@,
    ]
}

fn non_window_element_apps() -> (r: Vec<&'static str>)
    ensures
        text::views_of(r@) == element_apps(),
{
    let apps = vec![
        "shellexperiencehost",
        "windows shell experience host",
        "searchhost",
        "textinputhost",
        "startmenuexperiencehost",
        "lockapp",
        "applicationframehost",
    ];
    assert(text::views_of(apps@) =~= element_apps());
    apps
}

/// A class whose surfaces are no windows of their own, in any case of its letters.
pub open spec fn is_element_class(class: Seq<char>) -> bool {
    exists|i: int|
        0 <= i < element_classes().len() && text::ascii_lower(class) == text::ascii_lower(
            #[trigger] element_classes()[i],
        )
}

pub open spec fn is_element_app(app: Seq<char>) -> bool {
    exists|i: int|
        0 <= i < element_apps().len() && text::contains_seq(
            text::ascii_lower(app),
            #[trigger] element_apps()[i],
        )
}

fn class_is_element(class: &str) -> (r: bool)
    ensures
        r == is_element_class(class@),
{
    let known = non_window_element_classes();
    let mut i: usize = 0;
    while i < known.len()
        invariant
            i <= known@.len(),
            text::views_of(known@) == element_classes(),
            forall|j: int|
                0 <= j < i ==> text::ascii_lower(class@) != text::ascii_lower(
                    #[trigger] element_classes()[j],
                ),
        decreases known@.len() - i,
    {
        assert(element_classes()[i as int] == known@[i as int]@);
        if text::eq_ignore_ascii_case(class, known[i]) {
            return true;
        }
        i += 1;
    }
    assert(element_classes().len() == known@.len());
    false
}

fn app_is_element(app: &str) -> (r: bool)
    ensures
        r == is_element_app(app@),
{
    let known = non_window_element_apps();
    let lower = text::to_ascii_lowercase(app);
    let mut i: usize = 0;
    while i < known.len()
        invariant
            i <= known@.len(),
            lower@ == text::ascii_lower(app@),
            text::views_of(known@) == element_apps(),
            forall|j: int|
                0 <= j < i ==> !text::contains_seq(
                    text::ascii_lower(app@),
                    #[trigger] element_apps()[j],
                ),
        decreases known@.len() - i,
    {
        assert(element_apps()[i as int] == known@[i as int]@);
        if text::contains_text(lower.as_str(), known[i]) {
            return true;
        }
        i += 1;
    }
    assert(element_apps().len() == known@.len());
    false
}

/// A window's style as its platform has it.
#[derive(Clone, Copy, Debug, PartialEq, Eq, Structural)]
pub struct WindowStyle {
    pub ex_style: u32,
    pub has_owner: bool,
}

/// What tells a window from other surfaces, on a platform that says so.
#[derive(Debug)]
pub struct ShellTraits {
    pub class_name: Option<String>,
    pub style: Option<WindowStyle>,
}

/// Whether a class or a style is that of a surface that is no window of its own.
pub open spec fn is_element_trait(traits: ShellTraits) -> bool {
    ||| config::optional_text(traits.class_name) matches Some(class) && is_element_class(class)
    ||| traits.style matches Some(style) && is_element_style(style.ex_style, style.has_owner)
}

/// Judges a surface by its class and its style.
pub fn native_window_is_non_window_element(traits: &ShellTraits) -> (r: bool)
    ensures
        r == is_element_trait(*traits),
{
    let known_class = match &traits.class_name {
        Some(class) => class_is_element(class.as_str()),
        None => false,
    };
    let element_style = match traits.style {
        Some(style) => window_style_is_non_window_element(style.ex_style, style.has_owner),
        None => false,
    };
    known_class || element_style
}

/// A window as the platform describes it; what it could not tell is left out.
#[derive(Debug)]
pub struct WindowData {
    pub native_id: Option<u64>,
    pub width: Option<u32>,
    pub height: Option<u32>,
    /// The refresh rate of the window's monitor, as a binary32 encoding.
    pub frequency: Option<u32>,
    pub title: Option<String>,
    pub app_name: Option<String>,
    pub pid: Option<u32>,
    /// Only on platforms where surfaces can be told from windows.
    pub shell: Option<ShellTraits>,
}

/// A monitor as the platform describes it.
#[derive(Debug)]
pub struct MonitorData {
    pub width: u32,
    pub height: u32,
    /// The refresh rate, as a binary32 encoding.
    pub frequency: Option<u32>,
    pub friendly_name: Option<String>,
    pub name: Option<String>,
}

pub open spec fn is_capturable(window: WindowData) -> bool {
    &&& window.width is Some && window.width->0 >= MIN_WINDOW_WIDTH
    &&& window.height is Some && window.height->0 >= MIN_WINDOW_HEIGHT
}

pub fn is_capturable_window(window: &WindowData) -> (r: bool)
    ensures
        r == is_capturable(*window),
{
    let wide = match window.width {
        Some(width) => width >= MIN_WINDOW_WIDTH,
        None => false,
    };
    let high = match window.height {
        Some(height) => height >= MIN_WINDOW_HEIGHT,
        None => false,
    };
    wide && high
}

/// A surface that is no window of its own, by its class, its style or its application.
pub open spec fn is_element(window: WindowData) -> bool {
    window.shell matches Some(traits) && (is_element_trait(traits) || is_element_app(
        config::value_or(config::optional_text(window.app_name), Seq::empty()),
    ))
}

pub fn is_non_window_element(window: &WindowData) -> (r: bool)
    ensures
        r == is_element(*window),
{
    match &window.shell {
        None => false,
        Some(traits) => {
            if native_window_is_non_window_element(traits) {
                return true;
            }
            match &window.app_name {
                Some(app) => app_is_element(app.as_str()),
                None => {
                    let empty = String::new();
                    app_is_element(empty.as_str())
                },
            }
        },
    }
}

pub open spec fn is_included(window: WindowData, with_elements: bool) -> bool {
    is_capturable(window) && (with_elements || !is_element(window))
}

pub fn should_include_window(window: &WindowData, display_non_window_elements: bool) -> (r: bool)
    ensures
        r == is_included(*window, display_non_window_elements),
{
    is_capturable_window(window) && (display_non_window_elements || !is_non_window_element(window))
}

/// The first capturable window with a native number.
pub open spec fn by_native_id(windows: Seq<WindowData>, native_id: u64) -> Option<int> {
    crate::list::first_in(
        0,
        windows.len() as int,
        |i: int| is_capturable(windows[i]) && windows[i].native_id == Some(native_id),
    )
}

/// The windows below `n` that are offered.
pub open spec fn offered_below(windows: Seq<WindowData>, n: int, with_elements: bool) -> nat
    decreases n,
{
    if n <= 0 {
        0
    } else {
        offered_below(windows, n - 1, with_elements) + if is_included(windows[n - 1], with_elements) {
            1nat
        } else {
            0nat
        }
    }
}

/// The offered window of a number.
pub open spec fn by_index(windows: Seq<WindowData>, index: usize) -> Option<int> {
    crate::list::first_in(
        0,
        windows.len() as int,
        |i: int| is_included(windows[i], false) && offered_below(windows, i, false) == index,
    )
}

/// The window that is to be captured: by its native number where one is given, else by its place
/// among those that are offered.
pub fn selected_window(windows: &Vec<WindowData>, index: usize, native_id: Option<u64>) -> (r: Result<
    usize,
    CaptureError,
>)
    ensures
        match (native_id, r) {
            (Some(id), Ok(i)) => by_native_id(windows@, id) == Some(i as int) && i < windows@.len(),
            (Some(id), Err(e)) => by_native_id(windows@, id) is None && e@
                == CaptureErrorView::MissingSelectedWindow,
            (None, Ok(i)) => by_index(windows@, index) == Some(i as int) && i < windows@.len(),
            (None, Err(e)) => by_index(windows@, index) is None && e@
                == CaptureErrorView::MissingWindow,
        },
{
    match native_id {
        Some(native_id) => match find_native(windows, native_id) {
            Some(i) => Ok(i),
            None => Err(CaptureError::MissingSelectedWindow),
        },
        None => match find_offered(windows, index) {
            Some(i) => Ok(i),
            None => Err(CaptureError::MissingWindow),
        },
    }
}

fn find_native(windows: &Vec<WindowData>, native_id: u64) -> (r: Option<usize>)
    ensures
        match r {
            Some(i) => by_native_id(windows@, native_id) == Some(i as int) && i < windows@.len(),
            None => by_native_id(windows@, native_id) is None,
        },
{
    let ghost p = |i: int| is_capturable(windows@[i]) && windows@[i].native_id == Some(native_id);
    let mut i: usize = 0;
    while i < windows.len()
        invariant
            i <= windows@.len(),
            p == (|i: int|
                is_capturable(windows@[i]) && windows@[i].native_id == Some(native_id)),
            forall|j: int| 0 <= j < i ==> !#[trigger] p(j),
        decreases windows@.len() - i,
    {
        let named = match windows[i].native_id {
            Some(id) => id == native_id,
            None => false,
        };
        if is_capturable_window(&windows[i]) && named {
            assert(p(i as int));
            proof {
                crate::list::lemma_first_found(0, windows@.len() as int, p, i as int);
            }
            return Some(i);
        }
        assert(!p(i as int));
        i += 1;
    }
    proof {
        crate::list::lemma_first_missing(0, windows@.len() as int, p);
    }
    None
}

fn find_offered(windows: &Vec<WindowData>, index: usize) -> (r: Option<usize>)
    ensures
        match r {
            Some(i) => by_index(windows@, index) == Some(i as int) && i < windows@.len(),
            None => by_index(windows@, index) is None,
        },
{
    let ghost p = |i: int|
        is_included(windows@[i], false) && offered_below(windows@, i, false) == index;
    let mut seen: usize = 0;
    let mut i: usize = 0;
    while i < windows.len()
        invariant
            i <= windows@.len(),
            seen <= i,
            seen == offered_below(windows@, i as int, false),
            p == (|i: int|
                is_included(windows@[i], false) && offered_below(windows@, i, false) == index),
            forall|j: int| 0 <= j < i ==> !#[trigger] p(j),
        decreases windows@.len() - i,
    {
        if should_include_window(&windows[i], false) {
            if seen == index {
                assert(p(i as int));
                proof {
                    crate::list::lemma_first_found(0, windows@.len() as int, p, i as int);
                }
                return Some(i);
            }
            assert(!p(i as int));
            seen += 1;
        } else {
            assert(!p(i as int));
        }
        i += 1;
    }
    proof {
        crate::list::lemma_first_missing(0, windows@.len() as int, p);
    }
    None
}

/// A refresh rate as a whole number, where it is one above zero.
pub open spec fn whole_rate(frequency: Option<u32>) -> Option<u32> {
    match frequency {
        None => None,
        Some(bits) => if bits >= 0x8000_0000 || bits > 0x7f80_0000 {
            None
        } else if bits == 0x7f80_0000 {
            Some(u32::MAX)
        } else {
            let rate = float::rounded(float::magnitude_of_single(bits));
            if rate == 0 {
                None
            } else if rate > u32::MAX {
                Some(u32::MAX)
            } else {
                Some(rate as u32)
            }
        },
    }
}

pub fn rounded_rate(frequency: Option<u32>) -> (r: Option<u32>)
    ensures
        r == whole_rate(frequency),
{
    match frequency {
        None => None,
        Some(bits) => {
            if bits > 0x7f80_0000 {
                return None;
            }
            if bits == 0x7f80_0000 {
                return Some(u32::MAX);
            }
            let rate = float::rounded_to(float::decode_single(bits), u32::MAX as u64);
            if rate == 0 {
                None
            } else {
                Some(rate as u32)
            }
        },
    }
}

/// A monitor's name, or one made from its place.
pub open spec fn monitor_name(monitor: MonitorData, index: usize) -> Seq<char> {
    match config::optional_text(monitor.friendly_name) {
        Some(name) => name,
        None => match config::optional_text(monitor.name) {
            Some(name) => name,
            None => if index == 0 {
                "Primary monitor"@
            } else {
                "Monitor "@ + text::decimal(index as nat)
            },
        },
    }
}

pub open spec fn monitor_source(monitor: MonitorData, index: usize) -> SourceInfoView {
    SourceInfoView {
        kind: "monitor"@,
        index,
        native_id: None,
        width: monitor.width,
        height: monitor.height,
        fps: whole_rate(monitor.frequency),
        pid: None,
        name: monitor_name(monitor, index),
    }
}

fn describe_monitor(monitor: &MonitorData, index: usize) -> (r: CaptureSourceInfo)
    ensures
        r@ == monitor_source(*monitor, index),
{
    let name = match &monitor.friendly_name {
        Some(name) => name.clone(),
        None => match &monitor.name {
            Some(name) => name.clone(),
            None => if index == 0 {
                "Primary monitor".to_owned()
            } else {
                let mut s = "Monitor ".to_owned();
                text::push_decimal(&mut s, index as u64);
                s
            },
        },
    };
    CaptureSourceInfo {
        kind: "monitor".to_owned(),
        index,
        native_id: None,
        width: monitor.width,
        height: monitor.height,
        fps: rounded_rate(monitor.frequency),
        pid: None,
        name,
    }
}

pub open spec fn monitor_sources(monitors: Seq<MonitorData>) -> Seq<SourceInfoView> {
    Seq::new(monitors.len(), |i: int| monitor_source(monitors[i], i as usize))
}

pub fn list_monitors(monitors: &Vec<MonitorData>) -> (r: Vec<CaptureSourceInfo>)
    ensures
        source_views(r@) == monitor_sources(monitors@),
{
    let mut sources: Vec<CaptureSourceInfo> = Vec::new();
    let mut i: usize = 0;
    while i < monitors.len()
        invariant
            i <= monitors@.len(),
            sources@.len() == i,
            forall|j: int|
                0 <= j < i ==> (#[trigger] sources@[j])@ == monitor_source(
                    monitors@[j],
                    j as usize,
                ),
        decreases monitors@.len() - i,
    {
        sources.push(describe_monitor(&monitors[i], i));
        i += 1;
    }
    assert(source_views(sources@) =~= monitor_sources(monitors@));
    sources
}

/// A window's name: its application and its title.
pub open spec fn window_name(window: WindowData) -> Seq<char> {
    config::value_or(config::optional_text(window.app_name), "Unknown application"@) + ": "@
        + config::value_or(config::optional_text(window.title), "Untitled window"@)
}

pub open spec fn window_source(window: WindowData, index: usize) -> SourceInfoView {
    SourceInfoView {
        kind: "window"@,
        index,
        native_id: window.native_id,
        width: window.width->0,
        height: window.height->0,
        fps: whole_rate(window.frequency),
        pid: window.pid,
        name: window_name(window),
    }
}

/// The offered windows below `n`, numbered in their order.
pub open spec fn window_sources(windows: Seq<WindowData>, n: int, with_elements: bool) -> Seq<
    SourceInfoView,
>
    decreases n,
{
    if n <= 0 {
        Seq::empty()
    } else {
        let rest = window_sources(windows, n - 1, with_elements);
        if is_included(windows[n - 1], with_elements) {
            rest.push(window_source(windows[n - 1], rest.len() as usize))
        } else {
            rest
        }
    }
}

fn describe_window(window: &WindowData, width: u32, height: u32, index: usize) -> (r:
    CaptureSourceInfo)
    requires
        window.width == Some(width),
        window.height == Some(height),
    ensures
        r@ == window_source(*window, index),
{
    let mut name = match &window.app_name {
        Some(app) => app.clone(),
        None => "Unknown application".to_owned(),
    };
    name.append(": ");
    match &window.title {
        Some(title) => name.append(title.as_str()),
        None => name.append("Untitled window"),
    }
    CaptureSourceInfo {
        kind: "window".to_owned(),
        index,
        native_id: window.native_id,
        width,
        height,
        fps: rounded_rate(window.frequency),
        pid: window.pid,
        name,
    }
}

pub fn list_windows_with_options(
    windows: &Vec<WindowData>,
    display_non_window_elements: bool,
) -> (r: Vec<CaptureSourceInfo>)
    ensures
        source_views(r@) == window_sources(
            windows@,
            windows@.len() as int,
            display_non_window_elements,
        ),
{
    let mut sources: Vec<CaptureSourceInfo> = Vec::new();
    let mut i: usize = 0;
    assert(source_views(sources@) =~= Seq::empty());
    while i < windows.len()
        invariant
            i <= windows@.len(),
            source_views(sources@) == window_sources(
                windows@,
                i as int,
                display_non_window_elements,
            ),
        decreases windows@.len() - i,
    {
        if should_include_window(&windows[i], display_non_window_elements) {
            let ghost before = sources@;
            let width = match windows[i].width {
                Some(width) => width,
                None => 0,
            };
            let height = match windows[i].height {
                Some(height) => height,
                None => 0,
            };
            let index = sources.len();
            sources.push(describe_window(&windows[i], width, height, index));
            assert(source_views(sources@) =~= source_views(before).push(sources@.last()@));
        }
        i += 1;
    }
    sources
}

/// What the platform told of its monitors.
pub open spec fn monitor_listing(monitors: Result<Vec<MonitorData>, CaptureError>) -> Result<
    Seq<MonitorData>,
    CaptureErrorView,
> {
    match monitors {
        Ok(monitors) => Ok(monitors@),
        Err(e) => Err(e@),
    }
}

/// What the platform told of its windows.
pub open spec fn window_listing(windows: Result<Vec<WindowData>, CaptureError>) -> Result<
    Seq<WindowData>,
    CaptureErrorView,
> {
    match windows {
        Ok(windows) => Ok(windows@),
        Err(e) => Err(e@),
    }
}

pub open spec fn source_listing(sources: Result<Vec<CaptureSourceInfo>, CaptureError>) -> Result<
    Seq<SourceInfoView>,
    CaptureErrorView,
> {
    match sources {
        Ok(sources) => Ok(source_views(sources@)),
        Err(e) => Err(e@),
    }
}

/// The sources of one kind. What went wrong in listing that kind is the error; the other kind does
/// not matter.
pub open spec fn sources_of_kind(
    kind: Seq<char>,
    monitors: Result<Seq<MonitorData>, CaptureErrorView>,
    windows: Result<Seq<WindowData>, CaptureErrorView>,
    with_elements: bool,
) -> Result<Seq<SourceInfoView>, CaptureErrorView> {
    match kind_of(kind) {
        Some(SourceKind::Monitor) => match monitors {
            Ok(monitors) => Ok(monitor_sources(monitors)),
            Err(e) => Err(e),
        },
        Some(SourceKind::Window) => match windows {
            Ok(windows) => Ok(window_sources(windows, windows.len() as int, with_elements)),
            Err(e) => Err(e),
        },
        None => Err(CaptureErrorView::UnsupportedKind(kind)),
    }
}

/// All sources: the monitors, and behind them the windows if they could be listed.
pub open spec fn all_sources(
    monitors: Result<Seq<MonitorData>, CaptureErrorView>,
    windows: Result<Seq<WindowData>, CaptureErrorView>,
) -> Result<Seq<SourceInfoView>, CaptureErrorView> {
    match sources_of_kind("monitor"@, monitors, windows, false) {
        Ok(listed) => Ok(
            listed + match sources_of_kind("window"@, monitors, windows, false) {
                Ok(more) => more,
                Err(_) => Seq::empty(),
            },
        ),
        Err(e) => Err(e),
    }
}

/// A failure to list the windows never hides the monitors; a failure to list the monitors is one of
/// the whole.
pub proof fn lemma_monitors_do_not_depend_on_windows(
    monitors: Result<Seq<MonitorData>, CaptureErrorView>,
    windows: Result<Seq<WindowData>, CaptureErrorView>,
)
    ensures
        ({
            let m = sources_of_kind("monitor"@, monitors, windows, false);
            let w = sources_of_kind("window"@, monitors, windows, false);
            let all = all_sources(monitors, windows);
            &&& monitors is Err ==> m is Err
            &&& windows is Err ==> w is Err
            &&& m is Err ==> all is Err && all->Err_0 == m->Err_0
            &&& m is Ok && w is Ok ==> all is Ok && all->Ok_0 == m->Ok_0 + w->Ok_0
            &&& m is Ok && w is Err ==> all is Ok && all->Ok_0 == m->Ok_0
        }),
{
    reveal_strlit("monitor");
    reveal_strlit("window");
    assert("monitor"@.len() != "window"@.len());
    if monitors is Ok {
        let listed = monitor_sources(monitors->Ok_0);
        assert(listed + Seq::<SourceInfoView>::empty() =~= listed);
    }
}

/// The windows that are offered.
pub fn list_windows(windows: Result<Vec<WindowData>, CaptureError>) -> (r: Result<
    Vec<CaptureSourceInfo>,
    CaptureError,
>)
    ensures
        source_listing(r) == match window_listing(windows) {
            Ok(windows) => Ok(window_sources(windows, windows.len() as int, false)),
            Err(e) => Err(e),
        },
{
    match windows {
        Ok(windows) => Ok(list_windows_with_options(&windows, false)),
        Err(e) => Err(e),
    }
}

/// The sources of one kind. The program hands in what the platform told of that kind.
pub fn list_sources_for_kind_with_options(
    kind: &str,
    monitors: Result<Vec<MonitorData>, CaptureError>,
    windows: Result<Vec<WindowData>, CaptureError>,
    display_non_window_elements: bool,
) -> (r: Result<Vec<CaptureSourceInfo>, CaptureError>)
    ensures
        source_listing(r) == sources_of_kind(
            kind@,
            monitor_listing(monitors),
            window_listing(windows),
            display_non_window_elements,
        ),
{
    match source_kind(kind) {
        Ok(SourceKind::Monitor) => match monitors {
            Ok(monitors) => Ok(list_monitors(&monitors)),
            Err(e) => Err(e),
        },
        Ok(SourceKind::Window) => match windows {
            Ok(windows) => Ok(list_windows_with_options(&windows, display_non_window_elements)),
            Err(e) => Err(e),
        },
        Err(e) => Err(e),
    }
}

pub fn list_sources_for_kind(
    kind: &str,
    monitors: Result<Vec<MonitorData>, CaptureError>,
    windows: Result<Vec<WindowData>, CaptureError>,
) -> (r: Result<Vec<CaptureSourceInfo>, CaptureError>)
    ensures
        source_listing(r) == sources_of_kind(
            kind@,
            monitor_listing(monitors),
            window_listing(windows),
            false,
        ),
{
    list_sources_for_kind_with_options(kind, monitors, windows, false)
}

/// All sources: the monitors, and the windows where the platform could list them.
pub fn list_sources(
    monitors: Result<Vec<MonitorData>, CaptureError>,
    windows: Result<Vec<WindowData>, CaptureError>,
) -> (r: Result<Vec<CaptureSourceInfo>, CaptureError>)
    ensures
        source_listing(r) == all_sources(monitor_listing(monitors), window_listing(windows)),
{
    proof {
        lemma_monitors_do_not_depend_on_windows(
            monitor_listing(monitors),
            window_listing(windows),
        );
        reveal_strlit("monitor");
        reveal_strlit("window");
        assert("monitor"@.len() != "window"@.len());
    }
    let mut sources = match monitors {
        Ok(monitors) => list_monitors(&monitors),
        Err(e) => {
            return Err(e);
        },
    };
    if let Ok(more) = list_windows(windows) {
        let mut more = more;
        let ghost front = sources@;
        let ghost back = more@;
        sources.append(&mut more);
        assert(source_views(sources@) =~= source_views(front) + source_views(back));
    }
    Ok(sources)
}

/// A source in the list that is printed.
pub fn source_line(source: &CaptureSourceInfo) -> (r: String)
    ensures
        r@ == source.kind@ + ":"@ + text::decimal(source.index as nat) + "  "@ + source.name@
            + " ("@ + media::plan::size_text(source.width, source.height) + ")"@,
{
    let mut s = source.kind.clone();
    s.append(":");
    text::push_decimal(&mut s, source.index as u64);
    s.append("  ");
    s.append(source.name.as_str());
    s.append(" (");
    push_size(&mut s, source.width, source.height);
    s.append(")");
    s
}

/// What is printed when there is nothing to list.
pub fn empty_list_message(kind: SourceKind) -> (r: &'static str)
    ensures
        r@ == match kind {
            SourceKind::Monitor => "No monitors found."@,
            SourceKind::Window => "No capturable windows found."@,
        },
{
    match kind {
        SourceKind::Monitor => "No monitors found.",
        SourceKind::Window => "No capturable windows found.",
    }
}

#[derive(Clone, Copy, Debug, PartialEq, Eq, Structural)]
pub enum Platform {
    Windows,
    Linux,
    Other,
}

/// A monitor's place on the desktop.
#[derive(Clone, Copy, Debug, PartialEq, Eq, Structural)]
pub struct MonitorGeometry {
    pub x: i32,
    pub y: i32,
    pub width: u32,
    pub height: u32,
}

pub open spec fn mouse_flag(draw_mouse: bool) -> Seq<char> {
    if draw_mouse {
        "1"@
    } else {
        "0"@
    }
}

/// Arguments with the frame rate behind the input format.
pub open spec fn with_framerate(args: Seq<Seq<char>>, fps: Option<u32>) -> Seq<Seq<char>> {
    match fps {
        Some(fps) => args.take(2) + seq!["-framerate"@, text::decimal(fps as nat)] + args.skip(2),
        None => args,
    }
}

/// How FFmpeg reads a source: on Windows a monitor through `gdigrab`, on Linux monitors and windows
/// through `x11grab`. `monitor` and `window` are the platform's answers for the selected source.
pub open spec fn input_args(
    platform: Platform,
    kind: Seq<char>,
    monitor: Option<MonitorGeometry>,
    window: Result<u32, CaptureErrorView>,
    display: Seq<char>,
    fps: Option<u32>,
    draw_mouse: bool,
) -> Result<Seq<Seq<char>>, CaptureErrorView> {
    let mouse = mouse_flag(draw_mouse);
    if platform == Platform::Other {
        Err(CaptureErrorView::UnsupportedPlatform(kind))
    } else if kind == "monitor"@ {
        match monitor {
            None => Err(CaptureErrorView::MissingMonitor),
            Some(m) => Ok(
                with_framerate(
                    if platform == Platform::Windows {
                        seq![
                            "-f"@,
                            "gdigrab"@,
                            "-draw_mouse"@,
                            mouse,
                            "-offset_x"@,
                            text::signed_decimal(m.x as int),
                            "-offset_y"@,
                            text::signed_decimal(m.y as int),
                            "-video_size"@,
                            media::plan::size_text(m.width, m.height),
                            "-i"@,
                            "desktop"@,
                        ]
                    } else {
                        seq![
                            "-f"@,
                            "x11grab"@,
                            "-draw_mouse"@,
                            mouse,
                            "-video_size"@,
                            media::plan::size_text(m.width, m.height),
                            "-i"@,
                            display + "+"@ + text::signed_decimal(m.x as int) + "+"@
                                + text::signed_decimal(m.y as int),
                        ]
                    },
                    fps,
                ),
            ),
        }
    } else if kind == "window"@ {
        if platform == Platform::Windows {
            Err(CaptureErrorView::WindowsWindowCapture)
        } else {
            match window {
                Err(e) => Err(e),
                Ok(id) => Ok(
                    with_framerate(
                        seq![
                            "-f"@,
                            "x11grab"@,
                            "-draw_mouse"@,
                            mouse,
                            "-window_id"@,
                            text::decimal(id as nat),
                            "-i"@,
                            display,
                        ],
                        fps,
                    ),
                ),
            }
        }
    } else {
        Err(CaptureErrorView::UnsupportedFfmpegSource(kind))
    }
}

pub open spec fn result_view(r: Result<u32, CaptureError>) -> Result<u32, CaptureErrorView> {
    match r {
        Ok(id) => Ok(id),
        Err(e) => Err(e@),
    }
}

fn size_string(width: u32, height: u32) -> (r: String)
    ensures
        r@ == media::plan::size_text(width, height),
{
    let mut s = String::new();
    push_size(&mut s, width, height);
    assert(s@ =~= media::plan::size_text(width, height));
    s
}

fn signed_string(n: i32) -> (r: String)
    ensures
        r@ == text::signed_decimal(n as int),
{
    let mut s = String::new();
    text::push_signed(&mut s, n);
    assert(s@ =~= text::signed_decimal(n as int));
    s
}

fn push_framerate(args: &mut Vec<String>, fps: Option<u32>)
    ensures
        config::texts(final(args)@) == config::texts(old(args)@) + match fps {
            Some(fps) => seq!["-framerate"@, text::decimal(fps as nat)],
            None => Seq::empty(),
        },
{
    let ghost before = config::texts(args@);
    match fps {
        Some(fps) => {
            push_strs(args, vec!["-framerate"]);
            push_string(args, text::decimal_string(fps as u64));
            assert(config::texts(args@) =~= before + seq!["-framerate"@, text::decimal(fps as nat)]);
        },
        None => {
            assert(before + Seq::empty() =~= before);
        },
    }
}

/// The arguments by which FFmpeg reads a source.
pub fn ffmpeg_input_args(
    platform: Platform,
    kind: &str,
    monitor: Option<MonitorGeometry>,
    window: Result<u32, CaptureError>,
    display: &str,
    fps: Option<u32>,
    draw_mouse: bool,
) -> (r: Result<Vec<String>, CaptureError>)
    ensures
        match r {
            Ok(args) => input_args(
                platform,
                kind@,
                monitor,
                result_view(window),
                display@,
                fps,
                draw_mouse,
            ) == Ok::<Seq<Seq<char>>, CaptureErrorView>(config::texts(args@)),
            Err(e) => input_args(
                platform,
                kind@,
                monitor,
                result_view(window),
                display@,
                fps,
                draw_mouse,
            ) == Err::<Seq<Seq<char>>, CaptureErrorView>(e@),
        },
{
    if platform == Platform::Other {
        return Err(CaptureError::UnsupportedPlatform(kind.to_owned()));
    }
    let mouse = if draw_mouse {
        "1"
    } else {
        "0"
    };
    let ghost goal = input_args(
        platform,
        kind@,
        monitor,
        result_view(window),
        display@,
        fps,
        draw_mouse,
    );
    let mut args: Vec<String> = Vec::new();
    assert(config::texts(args@) =~= Seq::empty());
    if text::text_eq(kind, "monitor") {
        let m = match monitor {
            Some(m) => m,
            None => {
                return Err(CaptureError::MissingMonitor);
            },
        };
        if platform == Platform::Windows {
            push_strs(&mut args, vec!["-f", "gdigrab"]);
            push_framerate(&mut args, fps);
            push_strs(&mut args, vec!["-draw_mouse", mouse, "-offset_x"]);
            push_string(&mut args, signed_string(m.x));
            push_strs(&mut args, vec!["-offset_y"]);
            push_string(&mut args, signed_string(m.y));
            push_strs(&mut args, vec!["-video_size"]);
            push_string(&mut args, size_string(m.width, m.height));
            push_strs(&mut args, vec!["-i", "desktop"]);
        } else {
            push_strs(&mut args, vec!["-f", "x11grab"]);
            push_framerate(&mut args, fps);
            push_strs(&mut args, vec!["-draw_mouse", mouse, "-video_size"]);
            push_string(&mut args, size_string(m.width, m.height));
            push_strs(&mut args, vec!["-i"]);
            let mut place = text::joined(display, "+");
            text::push_signed(&mut place, m.x);
            place.append("+");
            text::push_signed(&mut place, m.y);
            push_string(&mut args, place);
        }
        assert(config::texts(args@) =~= goal->Ok_0);
        return Ok(args);
    }
    if text::text_eq(kind, "window") {
        if platform == Platform::Windows {
            return Err(CaptureError::WindowsWindowCapture);
        }
        let id = match window {
            Ok(id) => id,
            Err(e) => {
                return Err(e);
            },
        };
        push_strs(&mut args, vec!["-f", "x11grab"]);
        push_framerate(&mut args, fps);
        push_strs(&mut args, vec!["-draw_mouse", mouse, "-window_id"]);
        push_string(&mut args, text::decimal_string(id as u64));
        push_strs(&mut args, vec!["-i"]);
        push_string(&mut args, display.to_owned());
        assert(config::texts(args@) =~= goal->Ok_0);
        return Ok(args);
    }
    Err(CaptureError::UnsupportedFfmpegSource(kind.to_owned()))
}

/// The size of a source, from the platform's answer for the monitor or the window.
pub fn source_dimensions(
    kind: &str,
    monitor: Option<(u32, u32)>,
    window: Result<(u32, u32), CaptureError>,
) -> (r: Result<(u32, u32), CaptureError>)
    ensures
        if kind@ == "monitor"@ {
            match monitor {
                Some(size) => r == Ok::<(u32, u32), CaptureError>(size),
                None => r is Err && r->Err_0@ == CaptureErrorView::MissingMonitor,
            }
        } else if kind@ == "window"@ {
            r == window
        } else {
            r is Err && r->Err_0@ == CaptureErrorView::UnsupportedSource(kind@)
        },
{
    if text::text_eq(kind, "monitor") {
        return match monitor {
            Some(size) => Ok(size),
            None => Err(CaptureError::MissingMonitor),
        };
    }
    if text::text_eq(kind, "window") {
        return window;
    }
    Err(CaptureError::UnsupportedSource(kind.to_owned()))
}

/// Whether the source of a configuration is there: a test pattern always, a window with a native
/// number if the platform knows it, anything else if it is listed.
pub open spec fn is_available(
    source: config::SourceSpecView,
    window_exists: bool,
    sources: Seq<SourceInfoView>,
) -> bool {
    ||| source.kind == "test"@
    ||| source.kind == "window"@ && source.native_id is Some && window_exists
    ||| exists|i: int| 0 <= i < sources.len() && is_source(source, #[trigger] sources[i])
}

/// Whether a listed source is the one that a configuration names.
pub open spec fn is_source(source: config::SourceSpecView, listed: SourceInfoView) -> bool {
    listed.kind == source.kind && match source.native_id {
        Some(native_id) => listed.native_id == Some(native_id),
        None => listed.index == source.index,
    }
}

pub fn source_is_available(
    source: &config::SourceSpec,
    window_exists: bool,
    sources: &Vec<CaptureSourceInfo>,
) -> (r: bool)
    ensures
        r == is_available(source@, window_exists, source_views(sources@)),
{
    if text::text_eq(source.kind.as_str(), "test") {
        return true;
    }
    if text::text_eq(source.kind.as_str(), "window") && source.native_id.is_some()
        && window_exists {
        return true;
    }
    let ghost listed = source_views(sources@);
    let mut i: usize = 0;
    while i < sources.len()
        invariant
            i <= sources@.len(),
            listed == source_views(sources@),
            source.kind@ != "test"@,
            !(source.kind@ == "window"@ && source.native_id is Some && window_exists),
            forall|j: int| 0 <= j < i ==> !is_source(source@, #[trigger] listed[j]),
        decreases sources@.len() - i,
    {
        assert(listed[i as int] == sources@[i as int]@);
        let same = match source.native_id {
            Some(native_id) => match sources[i].native_id {
                Some(id) => id == native_id,
                None => false,
            },
            None => sources[i].index == source.index,
        };
        if same && text::text_eq(sources[i].kind.as_str(), source.kind.as_str()) {
            return true;
        }
        i += 1;
    }
    false
}

/// The list of sources numbers the offered windows in their order, so that the place of a window in
/// it selects that window.
pub proof fn lemma_listed_window_is_selected(windows: Seq<WindowData>, at: int)
    requires
        0 <= at < windows.len() <= usize::MAX,
        is_included(windows[at], false),
    ensures
        ({
            let index = offered_below(windows, at, false);
            &&& index < window_sources(windows, windows.len() as int, false).len()
            &&& window_sources(windows, windows.len() as int, false)[index as int]
                == window_source(windows[at], index as usize)
            &&& by_index(windows, index as usize) == Some(at)
        }),
{
    let index = offered_below(windows, at, false);
    lemma_offered_counts(windows, at, windows.len() as int);
    lemma_offered_bound(windows, at);
    let p = |i: int| is_included(windows[i], false) && offered_below(windows, i, false)
        == index as usize;
    assert forall|j: int| 0 <= j < at implies !#[trigger] p(j) by {
        lemma_offered_counts(windows, j, at);
    }
    assert(p(at));
    crate::list::lemma_first_found(0, windows.len() as int, p, at);
}

proof fn lemma_offered_bound(windows: Seq<WindowData>, n: int)
    requires
        0 <= n,
    ensures
        offered_below(windows, n, false) <= n,
        window_sources(windows, n, false).len() == offered_below(windows, n, false),
    decreases n,
{
    if n > 0 {
        lemma_offered_bound(windows, n - 1);
    }
}

proof fn lemma_offered_counts(windows: Seq<WindowData>, m: int, n: int)
    requires
        0 <= m <= n,
    ensures
        offered_below(windows, m, false) <= offered_below(windows, n, false),
        m < n && is_included(windows[m], false) ==> offered_below(windows, m, false)
            < offered_below(windows, n, false) && window_sources(windows, n, false)[offered_below(
            windows,
            m,
            false,
        ) as int] == window_source(windows[m], offered_below(windows, m, false) as usize),
        window_sources(windows, n, false).len() == offered_below(windows, n, false),
    decreases n - m,
{
    lemma_offered_bound(windows, n);
    if m < n {
        lemma_offered_counts(windows, m, n - 1);
        lemma_offered_bound(windows, n - 1);
        lemma_offered_bound(windows, m);
    }
}

/// The number behind an option that was given as a signed number.
pub open spec fn denotes_place(arg: Seq<char>, n: int) -> bool {
    if n >= 0 {
        text::parse_unsigned(arg, u32::MAX as nat) == Some(n as nat)
    } else {
        arg.len() > 0 && arg[0] == '-' && text::parse_unsigned(arg.skip(1), u32::MAX as nat)
            == Some((-n) as nat)
    }
}

proof fn lemma_signed_decimal(n: i32)
    ensures
        denotes_place(text::signed_decimal(n as int), n as int),
{
    let m = if n >= 0 {
        n as nat
    } else {
        (-n) as nat
    };
    text::lemma_decimal_round_trip(m, u32::MAX as nat);
    if n < 0 {
        let s = text::signed_decimal(n as int);
        assert(s.skip(1) =~= text::decimal(m));
    }
}

/// A monitor is captured at its place and in its size, with the pointer if it is wanted and at the
/// rate that is asked for: on Windows by the desktop grabber, under X11 from the display.
pub proof fn lemma_monitor_is_captured_in_place(
    platform: Platform,
    monitor: MonitorGeometry,
    window: Result<u32, CaptureErrorView>,
    display: Seq<char>,
    fps: Option<u32>,
    draw_mouse: bool,
)
    requires
        platform != Platform::Other,
    ensures
        ({
            let r = input_args(
                platform,
                "monitor"@,
                Some(monitor),
                window,
                display,
                fps,
                draw_mouse,
            );
            let args = r->Ok_0;
            &&& r is Ok
            &&& media::plan::has_option(
                args,
                0,
                "-video_size"@,
                |a: Seq<char>| media::plan::denotes_size(a, monitor.width, monitor.height),
            )
            &&& media::plan::has_option(
                args,
                0,
                "-draw_mouse"@,
                |a: Seq<char>|
                    a == if draw_mouse {
                        "1"@
                    } else {
                        "0"@
                    },
            )
            &&& fps is Some ==> media::plan::has_option(
                args,
                0,
                "-framerate"@,
                |a: Seq<char>| media::plan::denotes(a, fps->0),
            )
            &&& platform == Platform::Windows ==> args[1] == "gdigrab"@ && media::plan::has_option(
                args,
                0,
                "-offset_x"@,
                |a: Seq<char>| denotes_place(a, monitor.x as int),
            ) && media::plan::has_option(
                args,
                0,
                "-offset_y"@,
                |a: Seq<char>| denotes_place(a, monitor.y as int),
            )
            &&& platform != Platform::Windows ==> args[1] == "x11grab"@ && display.is_prefix_of(
                args.last(),
            )
        }),
{
    reveal_strlit("monitor");
    reveal_strlit("window");
    media::plan::lemma_size_text(monitor.width, monitor.height);
    lemma_signed_decimal(monitor.x);
    lemma_signed_decimal(monitor.y);
    if let Some(rate) = fps {
        text::lemma_decimal_round_trip(rate as nat, u32::MAX as nat);
    }
    let args = input_args(
        platform,
        "monitor"@,
        Some(monitor),
        window,
        display,
        fps,
        draw_mouse,
    )->Ok_0;
    let o: int = if fps is Some {
        2
    } else {
        0
    };
    if fps is Some {
        assert(args[2] == "-framerate"@ && args[3] == text::decimal(fps->0 as nat));
    }
    assert(args[2 + o] == "-draw_mouse"@ && args[3 + o] == mouse_flag(draw_mouse));
    if platform == Platform::Windows {
        assert(args[4 + o] == "-offset_x"@ && args[5 + o] == text::signed_decimal(
            monitor.x as int,
        ));
        assert(args[6 + o] == "-offset_y"@ && args[7 + o] == text::signed_decimal(
            monitor.y as int,
        ));
        assert(args[8 + o] == "-video_size"@ && args[9 + o] == media::plan::size_text(
            monitor.width,
            monitor.height,
        ));
    } else {
        assert(args[4 + o] == "-video_size"@ && args[5 + o] == media::plan::size_text(
            monitor.width,
            monitor.height,
        ));
        let place = display + "+"@ + text::signed_decimal(monitor.x as int) + "+"@
            + text::signed_decimal(monitor.y as int);
        assert(args.last() == place);
        assert(display =~= place.take(display.len() as int));
    }
}

/// Under X11 a window is captured by its number; on Windows the desktop grabber does not capture
/// windows.
pub proof fn lemma_window_is_captured_by_number(
    monitor: Option<MonitorGeometry>,
    window: u32,
    display: Seq<char>,
    fps: Option<u32>,
    draw_mouse: bool,
)
    ensures
        ({
            let r = input_args(
                Platform::Linux,
                "window"@,
                monitor,
                Ok(window),
                display,
                fps,
                draw_mouse,
            );
            &&& r is Ok
            &&& media::plan::has_option(
                r->Ok_0,
                0,
                "-window_id"@,
                |a: Seq<char>| media::plan::denotes(a, window),
            )
            &&& media::plan::has_option(r->Ok_0, 0, "-i"@, |a: Seq<char>| a == display)
        }),
        input_args(
            Platform::Windows,
            "window"@,
            monitor,
            Ok(window),
            display,
            fps,
            draw_mouse,
        ) is Err,
{
    reveal_strlit("monitor");
    reveal_strlit("window");
    assert("monitor"@.len() == 7 && "window"@.len() == 6);
    text::lemma_decimal_round_trip(window as nat, u32::MAX as nat);
    let args = input_args(
        Platform::Linux,
        "window"@,
        monitor,
        Ok(window),
        display,
        fps,
        draw_mouse,
    )->Ok_0;
    let o: int = if fps is Some {
        2
    } else {
        0
    };
    assert(args[4 + o] == "-window_id"@ && args[5 + o] == text::decimal(window as nat));
    assert(args[6 + o] == "-i"@ && args[7 + o] == display);
}

/// The window that was selected by its native number is the one with that number.
pub proof fn lemma_native_number_selects_its_window(windows: Seq<WindowData>, native_id: u64, k: int)
    ensures
        by_native_id(windows, native_id) matches Some(i) ==> 0 <= i < windows.len()
            && windows[i].native_id == Some(native_id) && is_capturable(windows[i]),
        0 <= k < windows.len() && windows[k].native_id == Some(native_id) && is_capturable(
            windows[k],
        ) ==> by_native_id(windows, native_id) is Some,
{
    let p = |i: int| is_capturable(windows[i]) && windows[i].native_id == Some(native_id);
    crate::list::lemma_first_in_range(0, windows.len() as int, p);
    if 0 <= k < windows.len() && p(k) {
        crate::list::lemma_first_is_least(0, windows.len() as int, p, k);
    }
}

/// Every monitor is listed in its place, with its own size.
pub proof fn lemma_monitors_are_listed(monitors: Seq<MonitorData>, i: int)
    requires
        0 <= i < monitors.len() <= usize::MAX,
    ensures
        ({
            let listed = monitor_sources(monitors);
            &&& listed.len() == monitors.len()
            &&& listed[i].kind == "monitor"@
            &&& listed[i].index == i
            &&& listed[i].width == monitors[i].width
            &&& listed[i].height == monitors[i].height
        }),
{
}

/// Windows are listed in their order under consecutive numbers; one that is listed with elements of
/// the shell left out is also listed with them.
pub proof fn lemma_windows_are_listed(windows: Seq<WindowData>, n: int, with_elements: bool)
    requires
        0 <= n <= windows.len() <= usize::MAX,
    ensures
        ({
            let listed = window_sources(windows, n, with_elements);
            &&& listed.len() <= n
            &&& forall|k: int|
                0 <= k < listed.len() ==> (#[trigger] listed[k]).index == k && listed[k].kind
                    == "window"@
            &&& window_sources(windows, n, false).len() <= window_sources(windows, n, true).len()
        }),
    decreases n,
{
    if n > 0 {
        lemma_windows_are_listed(windows, n - 1, with_elements);
    }
}

/// A selected source is available where it is listed; the test pattern always is, and a window whose
/// number is known as long as it exists.
pub proof fn lemma_available_sources(
    source: config::SourceSpecView,
    window_exists: bool,
    sources: Seq<SourceInfoView>,
    i: int,
)
    ensures
        source.kind == "test"@ ==> is_available(source, window_exists, sources),
        source.kind == "window"@ && source.native_id is Some && window_exists ==> is_available(
            source,
            window_exists,
            sources,
        ),
        0 <= i < sources.len() && sources[i].kind == source.kind && source.native_id is None
            && sources[i].index == source.index ==> is_available(source, window_exists, sources),
        0 <= i < sources.len() && sources[i].kind == source.kind && source.native_id is Some
            && sources[i].native_id == source.native_id ==> is_available(
            source,
            window_exists,
            sources,
        ),
        sources.len() == 0 && source.kind != "test"@ && source.kind != "window"@ ==> !is_available(
            source,
            window_exists,
            sources,
        ),
{
    if 0 <= i < sources.len() && sources[i].kind == source.kind {
        assert(source.native_id is None && sources[i].index == source.index ==> is_source(
            source,
            sources[i],
        ));
        assert(source.native_id is Some && sources[i].native_id == source.native_id ==> is_source(
            source,
            sources[i],
        ));
    }
}

/// A window is listed if and only if it is at least 160 pixels wide and 90 high and, unless elements
/// are wanted, is no element of the desktop; it is listed with its own size, number and process.
pub proof fn lemma_every_fitting_window_is_listed(
    windows: Seq<WindowData>,
    n: int,
    with_elements: bool,
    i: int,
)
    requires
        0 <= i < n <= windows.len() <= usize::MAX,
        windows[i].width is Some && windows[i].width->0 >= 160,
        windows[i].height is Some && windows[i].height->0 >= 90,
        with_elements || !is_element(windows[i]),
    ensures
        exists|k: int|
            #![trigger window_sources(windows, n, with_elements)[k]]
            {
                let listed = window_sources(windows, n, with_elements);
                &&& 0 <= k < listed.len()
                &&& listed[k].native_id == windows[i].native_id
                &&& listed[k].width == windows[i].width->0
                &&& listed[k].height == windows[i].height->0
                &&& listed[k].pid == windows[i].pid
            },
    decreases n,
{
    let listed = window_sources(windows, n, with_elements);
    let rest = window_sources(windows, n - 1, with_elements);
    if i < n - 1 {
        lemma_every_fitting_window_is_listed(windows, n - 1, with_elements, i);
        let k = choose|k: int|
            #![trigger window_sources(windows, n - 1, with_elements)[k]]
            {
                let listed = window_sources(windows, n - 1, with_elements);
                &&& 0 <= k < listed.len()
                &&& listed[k].native_id == windows[i].native_id
                &&& listed[k].width == windows[i].width->0
                &&& listed[k].height == windows[i].height->0
                &&& listed[k].pid == windows[i].pid
            };
        assert(listed[k] == rest[k]);
    } else {
        assert(is_included(windows[n - 1], with_elements));
        assert(listed[rest.len() as int].pid == windows[i].pid);
    }
}

/// What is listed is large enough.
pub proof fn lemma_small_windows_are_not_listed(
    windows: Seq<WindowData>,
    n: int,
    with_elements: bool,
)
    requires
        0 <= n <= windows.len() <= usize::MAX,
    ensures
        forall|k: int|
            0 <= k < window_sources(windows, n, with_elements).len() ==> (#[trigger] window_sources(
                windows,
                n,
                with_elements,
            )[k]).width >= 160 && window_sources(windows, n, with_elements)[k].height >= 90,
    decreases n,
{
    if n > 0 {
        lemma_small_windows_are_not_listed(windows, n - 1, with_elements);
    }
}

} // verus!
