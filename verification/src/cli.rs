//! The command line.

use vstd::prelude::*;

use crate::capture;
use crate::capture::{source_is_available, CaptureSourceInfo};
use crate::config;
use crate::config::{AppConfig, ConfigArgs, ConfigError, SourceSpec};

verus! {

/// The port of a host whose status is asked for without naming one.
pub const DEFAULT_STATUS_PORT: u16 = 8475;

#[derive(Debug)]
pub struct Cli {
    /// Open the control window instead of running without one.
    pub ui: bool,
    pub json: bool,
    pub command: Option<Command>,
}

#[derive(Debug)]
pub enum Command {
    Gui,
    Start(StartArgs),
    ListSources,
    ListWindows,
    Validate(ValidateArgs),
    PublicIp,
    Status { http_port: u16 },
    Version,
}

#[derive(Debug)]
pub struct StartArgs {
    pub config: ConfigArgs,
}

#[derive(Debug)]
pub struct ValidateArgs {
    pub config: ConfigArgs,
}

/// What a command line asks for.
#[derive(Debug)]
pub enum Launch {
    /// The control window, with what it remembers.
    Ui,
    /// The control window, with a configuration of its own.
    UiWithoutPreferences(StartArgs),
    Headless(StartArgs),
    ListSources,
    ListWindows,
    Validate(ValidateArgs),
    PublicIp,
    Status(u16),
    Version,
}

/// Where messages go.
#[derive(Clone, Copy, Debug, PartialEq, Eq, Structural)]
pub enum LogOutput {
    /// Nowhere: a program with a window may have no console.
    Discard,
    Json,
    Plain,
}

impl Cli {
    /// Whether the control window opens.
    pub fn gui_mode(&self) -> (r: bool)
        ensures
            r == (self.ui || self.command is None || self.command == Some(Command::Gui)),
    {
        self.ui || match &self.command {
            None => true,
            Some(Command::Gui) => true,
            _ => false,
        }
    }

    pub fn launch(self) -> (r: Launch)
        ensures
            r == match self.command {
                None => Launch::Ui,
                Some(Command::Gui) => Launch::Ui,
                Some(Command::Start(args)) => if self.ui {
                    Launch::UiWithoutPreferences(args)
                } else {
                    Launch::Headless(args)
                },
                Some(Command::ListSources) => Launch::ListSources,
                Some(Command::ListWindows) => Launch::ListWindows,
                Some(Command::Validate(args)) => Launch::Validate(args),
                Some(Command::PublicIp) => Launch::PublicIp,
                Some(Command::Status { http_port }) => Launch::Status(http_port),
                Some(Command::Version) => Launch::Version,
            },
    {
        let ui = self.ui;
        match self.command {
            None => Launch::Ui,
            Some(Command::Gui) => Launch::Ui,
            Some(Command::Start(args)) => {
                if ui {
                    Launch::UiWithoutPreferences(args)
                } else {
                    Launch::Headless(args)
                }
            },
            Some(Command::ListSources) => Launch::ListSources,
            Some(Command::ListWindows) => Launch::ListWindows,
            Some(Command::Validate(args)) => Launch::Validate(args),
            Some(Command::PublicIp) => Launch::PublicIp,
            Some(Command::Status { http_port }) => Launch::Status(http_port),
            Some(Command::Version) => Launch::Version,
        }
    }
}

pub fn log_output(json_output: bool, gui_mode: bool, is_windows: bool) -> (r: LogOutput)
    ensures
        r == if is_windows && gui_mode && !json_output {
            LogOutput::Discard
        } else if json_output {
            LogOutput::Json
        } else {
            LogOutput::Plain
        },
{
    if is_windows && gui_mode && !json_output {
        LogOutput::Discard
    } else if json_output {
        LogOutput::Json
    } else {
        LogOutput::Plain
    }
}

/// The configuration that the arguments describe, if it is valid.
pub fn validated_config(defaults: AppConfig, args: ValidateArgs) -> (r: Result<AppConfig, ConfigError>)
    ensures
        ({
            let (config, refusal) = config::applied(defaults@, args.config@);
            match r {
                Ok(result) => refusal is None && config::validation(config) is None && result@
                    == config,
                Err(e) => Some(e.refusal()) == if refusal is Some {
                    refusal
                } else {
                    config::validation(config)
                },
            }
        }),
{
    AppConfig::configured(defaults, Some(StartArgs { config: args.config }))
}

/// What a check of a configuration has found.
#[derive(Clone, Copy, Debug, PartialEq, Eq, Structural)]
pub struct ValidationOutcome {
    pub source_available: bool,
    pub ok: bool,
}

/// Judges a configuration: FFmpeg has to be there, the sources have to be listed, and the source
/// has to be among them.
pub fn validate(
    source: &SourceSpec,
    ffmpeg_available: bool,
    window_exists: bool,
    sources: &Vec<CaptureSourceInfo>,
    sources_failed: bool,
) -> (r: ValidationOutcome)
    ensures
        r.source_available == capture::is_available(
            source@,
            window_exists,
            capture::source_views(sources@),
        ),
        r.ok == (ffmpeg_available && r.source_available && !sources_failed),
{
    let source_available = source_is_available(source, window_exists, sources);
    ValidationOutcome {
        source_available,
        ok: ffmpeg_available && source_available && !sources_failed,
    }
}

/// How long a headless host waits for a viewer, in nanoseconds.
pub fn wait_for_viewer_timeout() -> (r: u64)
    ensures
        r == 30_000_000_000,
{
    30_000_000_000
}

} // verus!
