//! The state of the host as the control window shows it.

use vstd::prelude::*;
use vstd::string::*;

use crate::config;
use crate::config::{clone_optional, AppConfig, AppConfigView, ConfigError};
use crate::network;
use crate::network::{recommended_max_viewers, UploadSpeedTestProgress};
use crate::preferences::HostNetworkTestResult;
use crate::text;
use crate::ui::labels;
use crate::ui::labels::bitrate_label;
use crate::ui::selection;
use crate::ui::selection::{
    apply_pattern_presets, custom_viewer_host, initial_viewer_url_state, ViewerUrlMode,
};

verus! {

/// How long the server may take to confirm a start.
pub const STREAM_START_ACK_TIMEOUT_NANOS: u64 = 30_000_000_000;

/// How long the server may take to confirm a stop.
pub const STREAM_STOP_ACK_TIMEOUT_NANOS: u64 = 5_000_000_000;

#[derive(Debug)]
pub enum HostStatus {
    StartingServer,
    Ready,
    StartingStream,
    Running,
    StoppingStream,
    StreamFailed(String),
    Failed(String),
}

pub enum HostStatusView {
    StartingServer,
    Ready,
    StartingStream,
    Running,
    StoppingStream,
    StreamFailed(Seq<char>),
    Failed(Seq<char>),
}

impl View for HostStatus {
    type V = HostStatusView;

    open spec fn view(&self) -> HostStatusView {
        match self {
            HostStatus::StartingServer => HostStatusView::StartingServer,
            HostStatus::Ready => HostStatusView::Ready,
            HostStatus::StartingStream => HostStatusView::StartingStream,
            HostStatus::Running => HostStatusView::Running,
            HostStatus::StoppingStream => HostStatusView::StoppingStream,
            HostStatus::StreamFailed(error) => HostStatusView::StreamFailed(error@),
            HostStatus::Failed(error) => HostStatusView::Failed(error@),
        }
    }
}

impl HostStatusView {
    pub open spec fn is_alive(self) -> bool {
        !(self is Failed)
    }

    pub open spec fn is_streaming(self) -> bool {
        self is StartingStream || self is Running || self is StoppingStream
    }

    /// Whether a stream can be started.
    pub open spec fn is_ready(self) -> bool {
        self is Ready || self is StreamFailed
    }

    pub open spec fn text(self) -> Seq<char> {
        match self {
            HostStatusView::StartingServer => "Starting viewer server…"@,
            HostStatusView::Ready => ""@,
            HostStatusView::StartingStream => "Starting stream…"@,
            HostStatusView::Running => "Streaming"@,
            HostStatusView::StoppingStream => "Stopping stream…"@,
            HostStatusView::StreamFailed(error) => "Stream failed: "@ + error,
            HostStatusView::Failed(error) => "Unavailable: "@ + error,
        }
    }
}

impl HostStatus {
    pub fn server_alive(&self) -> (r: bool)
        ensures
            r == self@.is_alive(),
    {
        match self {
            HostStatus::Failed(_) => false,
            _ => true,
        }
    }

    pub fn stream_active(&self) -> (r: bool)
        ensures
            r == self@.is_streaming(),
    {
        match self {
            HostStatus::StartingStream | HostStatus::Running | HostStatus::StoppingStream => true,
            _ => false,
        }
    }

    pub fn is_running(&self) -> (r: bool)
        ensures
            r == (self@ is Running),
    {
        match self {
            HostStatus::Running => true,
            _ => false,
        }
    }

    pub fn label(&self) -> (r: String)
        ensures
            r@ == self@.text(),
    {
        match self {
            HostStatus::StartingServer => "Starting viewer server…".to_owned(),
            HostStatus::Ready => "".to_owned(),
            HostStatus::StartingStream => "Starting stream…".to_owned(),
            HostStatus::Running => "Streaming".to_owned(),
            HostStatus::StoppingStream => "Stopping stream…".to_owned(),
            HostStatus::StreamFailed(error) => text::joined("Stream failed: ", error.as_str()),
            HostStatus::Failed(error) => text::joined("Unavailable: ", error.as_str()),
        }
    }

    /// Whether the port can be changed.
    pub fn port_editable(&self) -> (r: bool)
        ensures
            r == (self@.is_ready() || self@ is Failed),
    {
        match self {
            HostStatus::Ready | HostStatus::StreamFailed(_) | HostStatus::Failed(_) => true,
            _ => false,
        }
    }
}

/// What the program's workers report.
#[derive(Debug)]
pub enum UiEvent {
    ServerReady,
    StreamStarted,
    StreamStopped,
    StreamFailed(String),
    Failed(String),
    PublicIp(String),
    PublicIpFailed(String),
    UploadSpeedTestProgress(UploadSpeedTestProgress),
    UploadSpeedTestFinished(Result<u64, String>),
}

/// What the button does.
#[derive(Clone, Copy, Debug, PartialEq, Eq, Structural)]
pub enum PrimaryAction {
    RetryServer,
    StopStream { enabled: bool },
    StartStream { enabled: bool, hint: StartHint },
}

/// What is said of the button that starts a stream.
#[derive(Clone, Copy, Debug, PartialEq, Eq, Structural)]
pub enum StartHint {
    SelectSource,
    RestoreWindow,
    Start,
    WaitForServer,
}

impl StartHint {
    pub fn text(self) -> (r: &'static str)
        ensures
            r@ == match self {
                StartHint::SelectSource =>
                    "Select a monitor, window, or test-pattern source before starting."@,
                StartHint::RestoreWindow =>
                    "Restore the selected window before starting its capture."@,
                StartHint::Start => "Start media delivery for connected viewers."@,
                StartHint::WaitForServer => "Waiting for the viewer server to start."@,
            },
    {
        match self {
            StartHint::SelectSource =>
                "Select a monitor, window, or test-pattern source before starting.",
            StartHint::RestoreWindow =>
                "Restore the selected window before starting its capture.",
            StartHint::Start => "Start media delivery for connected viewers.",
            StartHint::WaitForServer => "Waiting for the viewer server to start.",
        }
    }
}

/// What a click on the button asks of the program.
#[derive(Clone, Copy, Debug, PartialEq, Eq, Structural)]
pub enum ClickResult {
    StartServer,
    StopStream,
    StartStream,
    /// The configuration is not valid.
    Refused,
}

/// The state behind the controls.
#[derive(Debug)]
pub struct HostModel {
    pub config: AppConfig,
    pub status: HostStatus,
    pub source_selected: bool,
    pub viewer_url_mode: ViewerUrlMode,
    pub custom_viewer_host: String,
    pub public_ipv4: Option<String>,
    pub public_ip_error: Option<String>,
    pub port_input: String,
    pub host_network_test: Option<HostNetworkTestResult>,
    pub network_test_inflight: bool,
    pub network_test_error: Option<String>,
    pub network_test_progress: Option<UploadSpeedTestProgress>,
    pub last_sent_max_viewers: Option<usize>,
}

#[verifier::ext_equal]
pub struct HostView {
    pub config: AppConfigView,
    pub status: HostStatusView,
    pub source_selected: bool,
    pub viewer_url_mode: ViewerUrlMode,
    pub custom_viewer_host: Seq<char>,
    pub public_ipv4: Option<Seq<char>>,
    pub public_ip_error: Option<Seq<char>>,
    pub port_input: Seq<char>,
    pub host_network_test: Option<HostNetworkTestResult>,
    pub network_test_inflight: bool,
    pub network_test_error: Option<Seq<char>>,
    pub network_test_progress: Option<UploadSpeedTestProgress>,
    pub last_sent_max_viewers: Option<usize>,
}

impl View for HostModel {
    type V = HostView;

    open spec fn view(&self) -> HostView {
        HostView {
            config: self.config@,
            status: self.status@,
            source_selected: self.source_selected,
            viewer_url_mode: self.viewer_url_mode,
            custom_viewer_host: self.custom_viewer_host@,
            public_ipv4: config::optional_text(self.public_ipv4),
            public_ip_error: config::optional_text(self.public_ip_error),
            port_input: self.port_input@,
            host_network_test: self.host_network_test,
            network_test_inflight: self.network_test_inflight,
            network_test_error: config::optional_text(self.network_test_error),
            network_test_progress: self.network_test_progress,
            last_sent_max_viewers: self.last_sent_max_viewers,
        }
    }
}

/// The number of viewers that an upload rate can serve.
pub open spec fn capacity_for(config: AppConfigView, upload_bps: u64) -> usize {
    network::viewer_limit(upload_bps, config::starting_bitrate(config))
}

/// The host that the viewer URL names, where it is known.
pub open spec fn viewer_host(v: HostView, local: Option<Seq<char>>) -> Option<Seq<char>> {
    match v.viewer_url_mode {
        ViewerUrlMode::Local => Some("127.0.0.1"@),
        ViewerUrlMode::Lan => local,
        ViewerUrlMode::Public => v.public_ipv4,
        ViewerUrlMode::Custom => if selection::is_plain_host(v.custom_viewer_host) {
            Some(v.custom_viewer_host)
        } else {
            None
        },
    }
}

/// What stands in the viewer URL while the host is not known.
pub open spec fn host_placeholder(mode: ViewerUrlMode) -> Seq<char> {
    match mode {
        ViewerUrlMode::Lan => "<lan-ip>"@,
        ViewerUrlMode::Public => "<public-ip>"@,
        ViewerUrlMode::Custom => "<custom-domain>"@,
        ViewerUrlMode::Local => "127.0.0.1"@,
    }
}

pub open spec fn typed_port(input: Seq<char>) -> Option<nat> {
    text::parse_unsigned(input, u16::MAX as nat)
}

impl HostView {
    pub open spec fn after_event(self, event: UiEvent, now_unix_secs: u64) -> HostView {
        match event {
            UiEvent::ServerReady => HostView { status: HostStatusView::Ready, ..self },
            UiEvent::StreamStarted => HostView { status: HostStatusView::Running, ..self },
            UiEvent::StreamStopped => HostView { status: HostStatusView::Ready, ..self },
            UiEvent::StreamFailed(error) => HostView {
                status: HostStatusView::StreamFailed(error@),
                ..self
            },
            UiEvent::Failed(error) => HostView { status: HostStatusView::Failed(error@), ..self },
            UiEvent::PublicIp(address) => HostView {
                public_ipv4: Some(address@),
                public_ip_error: None,
                ..self
            },
            UiEvent::PublicIpFailed(_) => HostView {
                public_ip_error: Some("Public IPv4 lookup failed"@),
                ..self
            },
            UiEvent::UploadSpeedTestProgress(progress) => HostView {
                network_test_progress: Some(progress),
                config: AppConfigView {
                    max_viewers: capacity_for(self.config, progress.upload_bps),
                    ..self.config
                },
                ..self
            },
            UiEvent::UploadSpeedTestFinished(Ok(upload_bps)) => HostView {
                network_test_inflight: false,
                host_network_test: Some(
                    HostNetworkTestResult { upload_bps, tested_at_unix_secs: now_unix_secs },
                ),
                config: AppConfigView {
                    max_viewers: capacity_for(self.config, upload_bps),
                    ..self.config
                },
                network_test_error: None,
                ..self
            },
            UiEvent::UploadSpeedTestFinished(Err(error)) => HostView {
                network_test_inflight: false,
                network_test_error: Some(error@),
                ..self
            },
        }
    }

    /// What the button does. A stream needs a server that is ready and a source that is selected,
    /// there and not minimized.
    pub open spec fn primary_action(self, source_valid: bool, minimized: bool) -> PrimaryAction {
        if !self.status.is_alive() {
            PrimaryAction::RetryServer
        } else if self.status.is_streaming() {
            PrimaryAction::StopStream { enabled: !(self.status is StoppingStream) }
        } else {
            PrimaryAction::StartStream {
                enabled: self.status.is_ready() && source_valid && !minimized,
                hint: if !source_valid {
                    StartHint::SelectSource
                } else if minimized {
                    StartHint::RestoreWindow
                } else if self.status.is_ready() {
                    StartHint::Start
                } else {
                    StartHint::WaitForServer
                },
            }
        }
    }
}

impl HostModel {
    /// The state with which the control window opens. A stream starts only from a source that is
    /// chosen in it.
    pub fn new(
        config: AppConfig,
        host_network_test: Option<HostNetworkTestResult>,
        local: Option<&str>,
    ) -> (r: Self)
        ensures
            ({
                let address = match local {
                    Some(address) => Some(address@),
                    None => None,
                };
                let shown = if config@.source.kind == "test"@ {
                    selection::with_pattern_presets(config@)
                } else {
                    config@
                };
                r@ == (HostView {
                    config: shown,
                    status: HostStatusView::StartingServer,
                    source_selected: false,
                    viewer_url_mode: selection::initial_mode(shown, address),
                    custom_viewer_host: selection::initial_custom_host(shown, address),
                    public_ipv4: selection::initial_public_address(shown, address),
                    public_ip_error: None,
                    port_input: text::decimal(config@.http_port as nat),
                    host_network_test,
                    network_test_inflight: host_network_test is None,
                    network_test_error: None,
                    network_test_progress: None,
                    last_sent_max_viewers: None,
                })
            }),
    {
        let mut config = config;
        if text::text_eq(config.source.kind.as_str(), "test") {
            apply_pattern_presets(&mut config);
        }
        let (viewer_url_mode, custom_host, public_ipv4) = initial_viewer_url_state(&config, local);
        let port_input = text::decimal_string(config.http_port as u64);
        HostModel {
            config,
            status: HostStatus::StartingServer,
            source_selected: false,
            viewer_url_mode,
            custom_viewer_host: custom_host,
            public_ipv4,
            public_ip_error: None,
            port_input,
            host_network_test,
            network_test_inflight: host_network_test.is_none(),
            network_test_error: None,
            network_test_progress: None,
            last_sent_max_viewers: None,
        }
    }

    /// Takes a report of a worker. `now_unix_secs` is the time since the epoch.
    pub fn on_event(&mut self, event: UiEvent, now_unix_secs: u64)
        ensures
            final(self)@ == old(self)@.after_event(event, now_unix_secs),
    {
        match event {
            UiEvent::ServerReady => {
                self.status = HostStatus::Ready;
            },
            UiEvent::StreamStarted => {
                self.status = HostStatus::Running;
            },
            UiEvent::StreamStopped => {
                self.status = HostStatus::Ready;
            },
            UiEvent::StreamFailed(error) => {
                self.status = HostStatus::StreamFailed(error);
            },
            UiEvent::Failed(error) => {
                self.status = HostStatus::Failed(error);
            },
            UiEvent::PublicIp(address) => {
                self.public_ipv4 = Some(address);
                self.public_ip_error = None;
            },
            UiEvent::PublicIpFailed(_) => {
                self.public_ip_error = Some("Public IPv4 lookup failed".to_owned());
            },
            UiEvent::UploadSpeedTestProgress(progress) => {
                self.network_test_progress = Some(progress);
                self.config.max_viewers = self.recommended_max_viewers_for_upload(
                    progress.upload_bps,
                );
            },
            UiEvent::UploadSpeedTestFinished(result) => {
                self.network_test_inflight = false;
                match result {
                    Ok(upload_bps) => {
                        self.host_network_test = Some(
                            HostNetworkTestResult { upload_bps, tested_at_unix_secs: now_unix_secs },
                        );
                        self.config.max_viewers = self.recommended_max_viewers_for_upload(
                            upload_bps,
                        );
                        self.network_test_error = None;
                    },
                    Err(error) => {
                        self.network_test_error = Some(error);
                    },
                }
            },
        }
    }

    pub fn recommended_max_viewers_for_upload(&self, upload_bps: u64) -> (r: usize)
        ensures
            r == capacity_for(self@.config, upload_bps),
    {
        recommended_max_viewers(upload_bps, self.config.effective_bitrate())
    }

    pub fn upload_speed_label(&self) -> (r: Option<String>)
        ensures
            config::optional_text(r) == match self@.host_network_test {
                Some(result) => Some(labels::bitrate_text(result.upload_bps)),
                None => None,
            },
    {
        match self.host_network_test {
            Some(result) => Some(bitrate_label(result.upload_bps)),
            None => None,
        }
    }

    /// Begins a measurement, unless one is under way or a stream would disturb it; says whether the
    /// program has to start it.
    pub fn start_upload_speed_test(&mut self) -> (r: bool)
        ensures
            r == !(old(self)@.network_test_inflight || old(self)@.status.is_streaming()),
            final(self)@ == if r {
                HostView {
                    network_test_inflight: true,
                    network_test_error: None,
                    network_test_progress: None,
                    ..old(self)@
                }
            } else {
                old(self)@
            },
    {
        if self.network_test_inflight || self.status.stream_active() {
            return false;
        }
        self.network_test_inflight = true;
        self.network_test_error = None;
        self.network_test_progress = None;
        true
    }

    /// The measurement could not be started.
    pub fn network_worker_stopped(&mut self)
        ensures
            final(self)@ == (HostView {
                network_test_inflight: false,
                network_test_error: Some("network test worker stopped"@),
                ..old(self)@
            }),
    {
        self.network_test_inflight = false;
        self.network_test_error = Some("network test worker stopped".to_owned());
    }

    pub fn selected_viewer_host(&self, local: Option<&str>) -> (r: Option<String>)
        ensures
            config::optional_text(r) == viewer_host(
                self@,
                match local {
                    Some(address) => Some(address@),
                    None => None,
                },
            ),
    {
        match self.viewer_url_mode {
            ViewerUrlMode::Local => Some("127.0.0.1".to_owned()),
            ViewerUrlMode::Lan => match local {
                Some(address) => Some(address.to_owned()),
                None => None,
            },
            ViewerUrlMode::Public => clone_optional(&self.public_ipv4),
            ViewerUrlMode::Custom => custom_viewer_host(self.custom_viewer_host.as_str()),
        }
    }

    pub fn viewer_url(&self, local: Option<&str>) -> (r: String)
        ensures
            r@ == config::viewer_address(
                self@.config,
                config::value_or(
                    viewer_host(
                        self@,
                        match local {
                            Some(address) => Some(address@),
                            None => None,
                        },
                    ),
                    host_placeholder(self@.viewer_url_mode),
                ),
            ),
    {
        let host = match self.selected_viewer_host(local) {
            Some(host) => host,
            None => match self.viewer_url_mode {
                ViewerUrlMode::Lan => "<lan-ip>".to_owned(),
                ViewerUrlMode::Public => "<public-ip>".to_owned(),
                ViewerUrlMode::Custom => "<custom-domain>".to_owned(),
                ViewerUrlMode::Local => "127.0.0.1".to_owned(),
            },
        };
        self.config.viewer_url_for_host(host.as_str())
    }

    /// Whether another port was typed than the one in use.
    pub fn port_change_pending(&self) -> (r: bool)
        ensures
            r == (typed_port(self@.port_input) is Some && typed_port(self@.port_input)->0
                != self@.config.http_port),
    {
        match text::parse_number(self.port_input.as_str(), u16::MAX as u64) {
            Some(port) => port != self.config.http_port as u64,
            None => false,
        }
    }

    /// The port that was typed, if it is one.
    pub fn port_input_value(&self) -> (r: Option<u16>)
        ensures
            r == match typed_port(self@.port_input) {
                Some(port) => if port > 0 {
                    Some(port as u16)
                } else {
                    None
                },
                None => None,
            },
    {
        match text::parse_number(self.port_input.as_str(), u16::MAX as u64) {
            Some(port) => if port > 0 {
                Some(port as u16)
            } else {
                None
            },
            None => None,
        }
    }

    /// Takes the typed port over; the server is to be started anew.
    pub fn apply_port(&mut self, port: u16)
        ensures
            final(self)@ == (HostView {
                config: AppConfigView { http_port: port, ..old(self)@.config },
                port_input: text::decimal(port as nat),
                status: HostStatusView::StartingServer,
                ..old(self)@
            }),
    {
        self.config.http_port = port;
        self.port_input = text::decimal_string(port as u64);
        self.status = HostStatus::StartingServer;
    }

    pub fn primary_action(&self, source_valid: bool, minimized: bool) -> (r: PrimaryAction)
        ensures
            r == self@.primary_action(source_valid, minimized),
    {
        if !self.status.server_alive() {
            return PrimaryAction::RetryServer;
        }
        if self.status.stream_active() {
            let stopping = match self.status {
                HostStatus::StoppingStream => true,
                _ => false,
            };
            return PrimaryAction::StopStream { enabled: !stopping };
        }
        let ready = match self.status {
            HostStatus::Ready | HostStatus::StreamFailed(_) => true,
            _ => false,
        };
        let hint = if !source_valid {
            StartHint::SelectSource
        } else if minimized {
            StartHint::RestoreWindow
        } else if ready {
            StartHint::Start
        } else {
            StartHint::WaitForServer
        };
        PrimaryAction::StartStream { enabled: ready && source_valid && !minimized, hint }
    }

    /// The button was clicked.
    pub fn click_primary(&mut self) -> (r: ClickResult)
        ensures
            ({
                let before = old(self)@;
                let refusal = config::validation(before.config);
                if !before.status.is_alive() {
                    r == ClickResult::StartServer && final(self)@ == (HostView {
                        status: HostStatusView::StartingServer,
                        ..before
                    })
                } else if before.status.is_streaming() {
                    r == ClickResult::StopStream && final(self)@ == (HostView {
                        status: HostStatusView::StoppingStream,
                        ..before
                    })
                } else if refusal is None {
                    r == ClickResult::StartStream && final(self)@ == (HostView {
                        status: HostStatusView::StartingStream,
                        ..before
                    })
                } else {
                    r == ClickResult::Refused && final(self)@ == (HostView {
                        status: HostStatusView::StreamFailed(
                            "invalid stream settings: "@ + ConfigError::refusal_text(refusal->0),
                        ),
                        ..before
                    })
                }
            }),
    {
        if !self.status.server_alive() {
            self.status = HostStatus::StartingServer;
            return ClickResult::StartServer;
        }
        if self.status.stream_active() {
            self.status = HostStatus::StoppingStream;
            return ClickResult::StopStream;
        }
        match self.config.validate() {
            Ok(()) => {
                self.status = HostStatus::StartingStream;
                ClickResult::StartStream
            },
            Err(error) => {
                let reason = error.message();
                self.status = HostStatus::StreamFailed(
                    text::joined("invalid stream settings: ", reason.as_str()),
                );
                ClickResult::Refused
            },
        }
    }

    /// Whether the server is to be told another number of viewers.
    pub fn max_viewers_pending(&self) -> (r: bool)
        ensures
            r == (self@.status.is_alive() && self@.last_sent_max_viewers != Some(
                self@.config.max_viewers,
            )),
    {
        let sent = match self.last_sent_max_viewers {
            Some(sent) => sent == self.config.max_viewers,
            None => false,
        };
        self.status.server_alive() && !sent
    }

    pub fn max_viewers_sent(&mut self)
        ensures
            final(self)@ == (HostView {
                last_sent_max_viewers: Some(old(self)@.config.max_viewers),
                ..old(self)@
            }),
    {
        self.last_sent_max_viewers = Some(self.config.max_viewers);
    }
}

/// A stream that failed can be started again: the server runs on. A server that failed has to be
/// started first.
pub proof fn lemma_failed_stream_can_be_retried(v: HostView, error: Seq<char>)
    ensures
        ({
            let failed = HostView { status: HostStatusView::StreamFailed(error), ..v };
            &&& failed.status.is_alive()
            &&& !failed.status.is_streaming()
            &&& failed.primary_action(true, false) == (PrimaryAction::StartStream {
                enabled: true,
                hint: StartHint::Start,
            })
        }),
        (HostView { status: HostStatusView::Failed(error), ..v }).primary_action(true, false)
            == PrimaryAction::RetryServer,
{
}

/// What a text is reduced to in the field for the port.
pub open spec fn only_digits(s: Seq<char>) -> Seq<char> {
    crate::list::kept(s, |c: char| text::is_digit(c))
}

pub fn port_digits(input: &str) -> (r: String)
    ensures
        r@ == only_digits(input@),
{
    let chars = text::chars_of(input);
    let mut s = String::new();
    let mut i: usize = 0;
    while i < chars.len()
        invariant
            i <= chars@.len(),
            chars@ == input@,
            s@ == only_digits(input@.take(i as int)),
        decreases chars@.len() - i,
    {
        let c = chars[i];
        assert(input@.take(i + 1).drop_last() =~= input@.take(i as int));
        if '0' <= c && c <= '9' {
            s.push(c);
        }
        i += 1;
    }
    assert(input@.take(i as int) =~= input@);
    s
}

/// How the server answered a command of the control window.
#[derive(Debug)]
pub enum CommandReply {
    /// There is no server to send the command to.
    NoServer,
    /// The server ended before the command reached it.
    NotSent,
    Done,
    Refused(String),
    /// The server ended before it answered.
    Closed,
    TimedOut,
}

/// What the control window makes of the answer to a start.
pub fn start_stream_event(reply: CommandReply) -> (r: UiEvent)
    ensures
        match reply {
            CommandReply::NoServer => r is Failed && r->Failed_0@
                == "viewer server is not ready yet"@,
            CommandReply::NotSent => r is Failed && r->Failed_0@
                == "viewer server stopped unexpectedly"@,
            CommandReply::Done => r is StreamStarted,
            CommandReply::Refused(error) => r is StreamFailed && r->StreamFailed_0@
                == "could not start stream: "@ + error@,
            CommandReply::Closed => r is StreamFailed && r->StreamFailed_0@
                == "viewer server stopped before starting the stream"@,
            CommandReply::TimedOut => r is StreamFailed && r->StreamFailed_0@
                == "stream start exceeded 30 seconds"@,
        },
{
    match reply {
        CommandReply::NoServer => UiEvent::Failed("viewer server is not ready yet".to_owned()),
        CommandReply::NotSent => UiEvent::Failed("viewer server stopped unexpectedly".to_owned()),
        CommandReply::Done => UiEvent::StreamStarted,
        CommandReply::Refused(error) => UiEvent::StreamFailed(
            text::joined("could not start stream: ", error.as_str()),
        ),
        CommandReply::Closed => UiEvent::StreamFailed(
            "viewer server stopped before starting the stream".to_owned(),
        ),
        CommandReply::TimedOut => UiEvent::StreamFailed(
            "stream start exceeded 30 seconds".to_owned(),
        ),
    }
}

/// What the control window makes of the answer to a stop. The server never refuses one.
pub fn stop_stream_event(reply: CommandReply) -> (r: UiEvent)
    ensures
        match reply {
            CommandReply::NoServer => r is Failed && r->Failed_0@
                == "viewer server is not running"@,
            CommandReply::NotSent => r is Failed && r->Failed_0@
                == "viewer server stopped before stopping the stream"@,
            CommandReply::Done => r is StreamStopped,
            CommandReply::Refused(_) => r is StreamStopped,
            CommandReply::Closed => r is StreamFailed && r->StreamFailed_0@
                == "viewer server stopped before acknowledging stream stop"@,
            CommandReply::TimedOut => r is StreamFailed && r->StreamFailed_0@
                == "stream stop exceeded 5 seconds; capture termination was forced"@,
        },
{
    match reply {
        CommandReply::NoServer => UiEvent::Failed("viewer server is not running".to_owned()),
        CommandReply::NotSent => UiEvent::Failed(
            "viewer server stopped before stopping the stream".to_owned(),
        ),
        CommandReply::Done | CommandReply::Refused(_) => UiEvent::StreamStopped,
        CommandReply::Closed => UiEvent::StreamFailed(
            "viewer server stopped before acknowledging stream stop".to_owned(),
        ),
        CommandReply::TimedOut => UiEvent::StreamFailed(
            "stream stop exceeded 5 seconds; capture termination was forced".to_owned(),
        ),
    }
}

/// What the control window makes of the end of a server.
pub fn server_ended_event(error: Option<String>) -> (r: UiEvent)
    ensures
        match error {
            None => r is StreamStopped,
            Some(error) => r is Failed && r->Failed_0@ == "server failed: "@ + error@,
        },
{
    match error {
        None => UiEvent::StreamStopped,
        Some(error) => UiEvent::Failed(text::joined("server failed: ", error.as_str())),
    }
}

/// Whether the server before has ended, so that the next one can start.
#[derive(Clone, Copy, Debug, PartialEq, Eq, Structural)]
pub enum ServerRestart {
    Wait,
    Start,
    /// The server before does not end in time.
    GiveUp,
}

pub fn await_previous_server(shutdown_done: bool, control_done: bool, timed_out: bool) -> (r:
    ServerRestart)
    ensures
        r == if shutdown_done && control_done {
            ServerRestart::Start
        } else if timed_out {
            ServerRestart::GiveUp
        } else {
            ServerRestart::Wait
        },
{
    if shutdown_done && control_done {
        ServerRestart::Start
    } else if timed_out {
        ServerRestart::GiveUp
    } else {
        ServerRestart::Wait
    }
}

/// What the main button does: it retries a server that failed, stops a stream that runs, and starts one
/// only from a valid source whose window is not minimized, on a server that is ready.
pub proof fn lemma_main_button(v: HostView, source_valid: bool, minimized: bool)
    ensures
        ({
            let action = v.primary_action(source_valid, minimized);
            &&& v.status is Failed <==> action == PrimaryAction::RetryServer
            &&& v.status is Running ==> action == (PrimaryAction::StopStream { enabled: true })
            &&& v.status is StoppingStream ==> action == (PrimaryAction::StopStream {
                enabled: false,
            })
            &&& action matches PrimaryAction::StartStream { enabled: true, .. } ==> source_valid
                && !minimized && (v.status is Ready || v.status is StreamFailed)
            &&& (v.status is Ready || v.status is StreamFailed) && source_valid && !minimized
                ==> action == (PrimaryAction::StartStream { enabled: true, hint: StartHint::Start })
        }),
{
}

/// What the window makes of the answers of the server: a stream runs once it was started, is gone once
/// it was stopped, and shows why it failed.
pub proof fn lemma_answers_change_the_status(v: HostView, now_unix_secs: u64, upload_bps: u64)
    ensures
        v.after_event(UiEvent::StreamStarted, now_unix_secs).status is Running,
        v.after_event(UiEvent::StreamStopped, now_unix_secs).status is Ready,
        v.after_event(UiEvent::ServerReady, now_unix_secs).status is Ready,
        ({
            let after = v.after_event(
                UiEvent::UploadSpeedTestFinished(Ok(upload_bps)),
                now_unix_secs,
            );
            &&& !after.network_test_inflight
            &&& after.network_test_error is None
            &&& after.host_network_test == Some(
                HostNetworkTestResult { upload_bps, tested_at_unix_secs: now_unix_secs },
            )
            &&& after.config.max_viewers == network::viewer_limit(
                upload_bps,
                config::starting_bitrate(v.config),
            )
            &&& after.status == v.status
        }),
{
}

/// The host in the address for viewers is the one of the chosen kind, and no other.
pub proof fn lemma_shared_hosts(v: HostView, local: Option<Seq<char>>)
    ensures
        v.viewer_url_mode == ViewerUrlMode::Local ==> viewer_host(v, local) == Some("127.0.0.1"@),
        v.viewer_url_mode == ViewerUrlMode::Lan ==> viewer_host(v, local) == local,
        v.viewer_url_mode == ViewerUrlMode::Public ==> viewer_host(v, local) == v.public_ipv4,
        v.viewer_url_mode == ViewerUrlMode::Custom && viewer_host(v, local) is Some ==> viewer_host(
            v,
            local,
        ) == Some(v.custom_viewer_host) && v.custom_viewer_host.len() > 0
            && !v.custom_viewer_host.contains('/') && !v.custom_viewer_host.contains(':')
            && !v.custom_viewer_host.contains(' '),
{
    if v.viewer_url_mode == ViewerUrlMode::Custom && viewer_host(v, local) is Some {
        let host = v.custom_viewer_host;
        assert forall|c: char| host.contains(c) implies !selection::is_forbidden(c) by {
            let i = choose|i: int| 0 <= i < host.len() && host[i] == c;
            assert(!selection::is_forbidden(host[i]));
        }
        assert(selection::is_forbidden('/') && selection::is_forbidden(':')
            && selection::is_forbidden(' '));
    }
}

/// What is typed into the field for the port is reduced to its digits, in their order.
pub proof fn lemma_typed_digits(s: Seq<char>)
    ensures
        forall|i: int| 0 <= i < only_digits(s).len() ==> text::is_digit(#[trigger] only_digits(s)[i]),
        text::all_digits(s) ==> only_digits(s) == s,
    decreases s.len(),
{
    if s.len() > 0 {
        lemma_typed_digits(s.drop_last());
        let rest = only_digits(s.drop_last());
        if text::is_digit(s.last()) {
            assert(only_digits(s) =~= rest.push(s.last()));
        }
        if text::all_digits(s) {
            assert(text::is_digit(s[s.len() - 1]));
            assert forall|i: int| 0 <= i < s.drop_last().len() implies text::is_digit(
                #[trigger] s.drop_last()[i],
            ) by {
                assert(text::is_digit(s[i]));
            }
            assert(only_digits(s) =~= s);
        }
    } else {
        assert(only_digits(s) =~= s);
    }
}

} // verus!
