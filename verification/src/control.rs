//! The serialized worker that starts, stops and restarts the stream.
//!
//! A command is taken in steps. Each step changes what the host knows of its stream and says what
//! the program has to do before the next step. A stop that arrives meanwhile takes effect at once;
//! every step of an automatic restart looks whether one did.

use vstd::prelude::*;

use crate::text;
use crate::window_resize::window_resize_retry_delay;

verus! {

/// The revision behind another; it wraps around.
pub open spec fn next_revision(revision: u64) -> u64 {
    if revision == u64::MAX {
        0
    } else {
        (revision + 1) as u64
    }
}

pub fn following_revision(revision: u64) -> (r: u64)
    ensures
        r == next_revision(revision),
{
    if revision == u64::MAX {
        0
    } else {
        revision + 1
    }
}

/// What the host knows of its stream.
#[derive(Clone, Copy, Debug, PartialEq, Eq, Structural)]
pub struct StreamState {
    pub enabled: bool,
    pub resetting: bool,
    /// Changes with every media session, so that viewers negotiate anew.
    pub media_session_revision: u64,
    /// Changes with every start and stop that the host asked for.
    pub stop_request_revision: u64,
}

#[derive(Clone, Copy, Debug, PartialEq, Eq, Structural)]
pub enum HostCommand {
    Start,
    Stop,
    FinalizeStop,
    Update,
    /// The stream's health is checked again; `failing` is the result.
    Recover { failing: bool },
    /// The captured window is captured anew. The request is void once the stop revision has moved.
    RestartWindow { revision: u64, attempt: usize },
}

/// What the program has to do, in this order.
#[derive(Clone, Copy, Debug, PartialEq, Eq, Structural)]
pub enum HostAction {
    /// Take the command's settings over.
    ApplySettings,
    /// Start the capture and the encoder of the first group.
    StartCapture,
    /// Signal encoders, capture and audio to stop.
    SignalStop,
    /// Signal the stop and release encoders and capture.
    StopResources,
    /// Let the running encoders and the audio send.
    ActivateMedia,
    /// Tell every viewer the state of the stream.
    Broadcast,
    ReplyDone,
    ReplyFailure,
    /// Tell the host that the stream has stopped for good.
    ReportFailure,
    /// Try again after a time in nanoseconds, under the stop revision of the first try.
    RetryWindow { delay: u64, revision: u64, attempt: usize },
}

/// What a worker waits for.
#[derive(Clone, Copy, Debug, PartialEq, Eq, Structural)]
pub enum WorkerPhase {
    Idle,
    StartApplying,
    StartCapturing,
    UpdateApplying,
    RecoveryStopping { revision: u64 },
    RecoveryCapturing { revision: u64 },
    RecoveryActivating { revision: u64 },
    RecoveryCleaning { revision: u64 },
    ResizeStopping { revision: u64, attempt: usize },
    ResizeCapturing { revision: u64, attempt: usize },
    ResizeActivating { revision: u64, attempt: usize },
    ResizeCleaning { revision: u64, attempt: usize },
}

impl WorkerPhase {
    /// The stop revision under which an automatic restart began.
    pub open spec fn revision(self) -> Option<u64> {
        match self {
            WorkerPhase::RecoveryStopping { revision } => Some(revision),
            WorkerPhase::RecoveryCapturing { revision } => Some(revision),
            WorkerPhase::RecoveryActivating { revision } => Some(revision),
            WorkerPhase::RecoveryCleaning { revision } => Some(revision),
            WorkerPhase::ResizeStopping { revision, .. } => Some(revision),
            WorkerPhase::ResizeCapturing { revision, .. } => Some(revision),
            WorkerPhase::ResizeActivating { revision, .. } => Some(revision),
            WorkerPhase::ResizeCleaning { revision, .. } => Some(revision),
            _ => None,
        }
    }
}

/// A step of the worker: the phase that follows and what is to be done.
#[derive(Debug)]
pub struct WorkerStep {
    pub phase: WorkerPhase,
    pub actions: Vec<HostAction>,
}

pub struct StepView {
    pub state: StreamState,
    pub phase: WorkerPhase,
    pub actions: Seq<HostAction>,
}

pub open spec fn next_attempt(attempt: usize) -> usize {
    if attempt == usize::MAX {
        attempt
    } else {
        (attempt + 1) as usize
    }
}

pub open spec fn retry_action(revision: u64, attempt: usize) -> HostAction {
    HostAction::RetryWindow {
        delay: if attempt < crate::window_resize::WINDOW_RESIZE_RESTART_ATTEMPTS {
            (crate::window_resize::WINDOW_RESIZE_RETRY_DELAY_NANOS * attempt) as u64
        } else {
            crate::window_resize::WINDOW_RESIZE_RECOVERY_RETRY_DELAY_NANOS
        },
        revision,
        attempt: next_attempt(attempt),
    }
}

pub open spec fn idle(state: StreamState, actions: Seq<HostAction>) -> StepView {
    StepView { state, phase: WorkerPhase::Idle, actions }
}

impl StreamState {
    /// The stream is off; a session that ran is over.
    pub open spec fn stopping(self) -> StreamState {
        StreamState {
            enabled: false,
            media_session_revision: if self.enabled {
                next_revision(self.media_session_revision)
            } else {
                self.media_session_revision
            },
            ..self
        }
    }

    /// The host asked for a stop.
    pub open spec fn stop_requested(self) -> StreamState {
        StreamState {
            resetting: false,
            stop_request_revision: next_revision(self.stop_request_revision),
            ..self
        }.stopping()
    }

    /// A session begins.
    pub open spec fn started(self) -> StreamState {
        StreamState {
            enabled: true,
            media_session_revision: next_revision(self.media_session_revision),
            ..self
        }
    }

    /// The stream is off until an automatic restart has gone through.
    pub open spec fn reset_begun(self) -> StreamState {
        StreamState { resetting: true, ..self }.stopping()
    }

    /// How a command begins.
    pub open spec fn begun(self, command: HostCommand) -> StepView {
        match command {
            HostCommand::Start => StepView {
                state: StreamState {
                    resetting: false,
                    stop_request_revision: next_revision(self.stop_request_revision),
                    ..self
                },
                phase: WorkerPhase::StartApplying,
                actions: seq![HostAction::ApplySettings],
            },
            HostCommand::Stop => idle(
                self.stop_requested(),
                seq![HostAction::StopResources, HostAction::Broadcast, HostAction::ReplyDone],
            ),
            HostCommand::FinalizeStop => idle(
                self.stopping(),
                seq![HostAction::StopResources, HostAction::Broadcast],
            ),
            HostCommand::Update => StepView {
                state: self,
                phase: WorkerPhase::UpdateApplying,
                actions: seq![HostAction::ApplySettings],
            },
            HostCommand::Recover { failing } => if !self.enabled || !failing {
                idle(self, seq![])
            } else {
                StepView {
                    state: self.reset_begun(),
                    phase: WorkerPhase::RecoveryStopping { revision: self.stop_request_revision },
                    actions: seq![
                        HostAction::SignalStop,
                        HostAction::Broadcast,
                        HostAction::StopResources,
                    ],
                }
            },
            HostCommand::RestartWindow { revision, attempt } => if self.stop_request_revision
                != revision {
                idle(self, seq![])
            } else {
                StepView {
                    state: self.reset_begun(),
                    phase: WorkerPhase::ResizeStopping { revision, attempt },
                    actions: seq![
                        HostAction::SignalStop,
                        HostAction::Broadcast,
                        HostAction::StopResources,
                    ],
                }
            },
        }
    }

    /// How the worker goes on once what it waits for is done; `ok` says whether that went well.
    pub open spec fn resumed(self, phase: WorkerPhase, ok: bool) -> StepView {
        match phase {
            WorkerPhase::Idle => idle(self, seq![]),
            WorkerPhase::StartApplying => if !ok {
                idle(self, seq![HostAction::ReplyFailure])
            } else if self.enabled {
                idle(
                    self.started(),
                    seq![HostAction::ActivateMedia, HostAction::Broadcast, HostAction::ReplyDone],
                )
            } else {
                StepView {
                    state: self,
                    phase: WorkerPhase::StartCapturing,
                    actions: seq![HostAction::StartCapture],
                }
            },
            WorkerPhase::StartCapturing => if ok {
                idle(
                    self.started(),
                    seq![HostAction::ActivateMedia, HostAction::Broadcast, HostAction::ReplyDone],
                )
            } else {
                idle(
                    self.stopping(),
                    seq![HostAction::StopResources, HostAction::ReplyFailure],
                )
            },
            WorkerPhase::UpdateApplying => idle(
                self,
                if ok {
                    seq![HostAction::Broadcast]
                } else {
                    seq![]
                },
            ),
            WorkerPhase::RecoveryStopping { revision } => if self.stop_request_revision
                != revision {
                idle(self, seq![HostAction::Broadcast])
            } else {
                StepView {
                    state: self,
                    phase: WorkerPhase::RecoveryCapturing { revision },
                    actions: seq![HostAction::StartCapture],
                }
            },
            WorkerPhase::RecoveryCapturing { revision } => if self.stop_request_revision
                != revision {
                idle(self.stopping(), seq![HostAction::StopResources, HostAction::Broadcast])
            } else if ok {
                StepView {
                    state: StreamState { resetting: false, ..self }.started(),
                    phase: WorkerPhase::RecoveryActivating { revision },
                    actions: seq![HostAction::ActivateMedia],
                }
            } else {
                StepView {
                    state: self.stopping(),
                    phase: WorkerPhase::RecoveryCleaning { revision },
                    actions: seq![HostAction::StopResources],
                }
            },
            WorkerPhase::RecoveryActivating { revision } => if self.stop_request_revision
                != revision {
                idle(self.stopping(), seq![HostAction::StopResources, HostAction::Broadcast])
            } else {
                idle(self, seq![HostAction::Broadcast])
            },
            WorkerPhase::RecoveryCleaning { revision } => if self.stop_request_revision
                != revision {
                idle(self, seq![HostAction::Broadcast])
            } else {
                idle(
                    StreamState {
                        enabled: false,
                        resetting: false,
                        media_session_revision: next_revision(self.media_session_revision),
                        ..self
                    },
                    seq![HostAction::Broadcast, HostAction::ReportFailure],
                )
            },
            WorkerPhase::ResizeStopping { revision, attempt } => if self.stop_request_revision
                != revision {
                idle(self, seq![HostAction::Broadcast])
            } else {
                StepView {
                    state: self,
                    phase: WorkerPhase::ResizeCapturing { revision, attempt },
                    actions: seq![HostAction::StartCapture],
                }
            },
            WorkerPhase::ResizeCapturing { revision, attempt } => if self.stop_request_revision
                != revision {
                idle(self, seq![])
            } else if ok {
                StepView {
                    state: StreamState { resetting: false, enabled: true, ..self },
                    phase: WorkerPhase::ResizeActivating { revision, attempt },
                    actions: seq![HostAction::ActivateMedia],
                }
            } else {
                StepView {
                    state: self.stopping(),
                    phase: WorkerPhase::ResizeCleaning { revision, attempt },
                    actions: seq![HostAction::StopResources],
                }
            },
            WorkerPhase::ResizeActivating { revision, attempt } => if self.stop_request_revision
                != revision {
                idle(self, seq![])
            } else {
                idle(
                    StreamState {
                        media_session_revision: next_revision(self.media_session_revision),
                        ..self
                    },
                    seq![HostAction::Broadcast],
                )
            },
            WorkerPhase::ResizeCleaning { revision, attempt } => if self.stop_request_revision
                != revision {
                idle(self, seq![])
            } else {
                idle(self, seq![retry_action(revision, attempt)])
            },
        }
    }

    /// A stream that has not been started.
    pub fn new() -> (r: Self)
        ensures
            r == (StreamState {
                enabled: false,
                resetting: false,
                media_session_revision: 0,
                stop_request_revision: 0,
            }),
    {
        StreamState {
            enabled: false,
            resetting: false,
            media_session_revision: 0,
            stop_request_revision: 0,
        }
    }

    /// Turns the stream off.
    pub fn request_stream_stop(&mut self)
        ensures
            *final(self) == old(self).stopping(),
    {
        if self.enabled {
            self.enabled = false;
            self.media_session_revision = following_revision(self.media_session_revision);
        }
    }

    /// Takes a stop of the host at once, ahead of the commands that wait. The program signals the
    /// stop and lets the worker finish it.
    pub fn urgent_stop(&mut self)
        ensures
            *final(self) == old(self).stop_requested(),
    {
        self.resetting = false;
        self.stop_request_revision = following_revision(self.stop_request_revision);
        self.request_stream_stop();
    }

    /// Gives viewers reason to negotiate anew.
    pub fn advance_media_session(&mut self)
        ensures
            *final(self) == (StreamState {
                media_session_revision: next_revision(old(self).media_session_revision),
                ..*old(self)
            }),
    {
        self.media_session_revision = following_revision(self.media_session_revision);
    }

    fn start_session(&mut self)
        ensures
            *final(self) == old(self).started(),
    {
        self.enabled = true;
        self.media_session_revision = following_revision(self.media_session_revision);
    }

    fn begin_reset(&mut self)
        ensures
            *final(self) == old(self).reset_begun(),
    {
        self.resetting = true;
        self.request_stream_stop();
    }

    /// Begins a command.
    pub fn begin(&mut self, command: HostCommand) -> (r: WorkerStep)
        ensures
            ({
                let step = old(self).begun(command);
                *final(self) == step.state && r.phase == step.phase && r.actions@ == step.actions
            }),
    {
        match command {
            HostCommand::Start => {
                self.resetting = false;
                self.stop_request_revision = following_revision(self.stop_request_revision);
                waiting(WorkerPhase::StartApplying, vec![HostAction::ApplySettings])
            },
            HostCommand::Stop => {
                self.urgent_stop();
                finished(
                    vec![HostAction::StopResources, HostAction::Broadcast, HostAction::ReplyDone],
                )
            },
            HostCommand::FinalizeStop => {
                self.request_stream_stop();
                finished(vec![HostAction::StopResources, HostAction::Broadcast])
            },
            HostCommand::Update => {
                waiting(WorkerPhase::UpdateApplying, vec![HostAction::ApplySettings])
            },
            HostCommand::Recover { failing } => {
                if !self.enabled || !failing {
                    return finished(vec![]);
                }
                let revision = self.stop_request_revision;
                self.begin_reset();
                waiting(
                    WorkerPhase::RecoveryStopping { revision },
                    vec![HostAction::SignalStop, HostAction::Broadcast, HostAction::StopResources],
                )
            },
            HostCommand::RestartWindow { revision, attempt } => {
                if self.stop_request_revision != revision {
                    return finished(vec![]);
                }
                self.begin_reset();
                waiting(
                    WorkerPhase::ResizeStopping { revision, attempt },
                    vec![HostAction::SignalStop, HostAction::Broadcast, HostAction::StopResources],
                )
            },
        }
    }

    fn resume_start(&mut self, capturing: bool, ok: bool) -> (r: WorkerStep)
        ensures
            ({
                let step = old(self).resumed(
                    if capturing {
                        WorkerPhase::StartCapturing
                    } else {
                        WorkerPhase::StartApplying
                    },
                    ok,
                );
                *final(self) == step.state && r.phase == step.phase && r.actions@ == step.actions
            }),
    {
        if !ok {
            if capturing {
                self.request_stream_stop();
                return finished(vec![HostAction::StopResources, HostAction::ReplyFailure]);
            }
            return finished(vec![HostAction::ReplyFailure]);
        }
        if !capturing && !self.enabled {
            return waiting(WorkerPhase::StartCapturing, vec![HostAction::StartCapture]);
        }
        self.start_session();
        finished(vec![HostAction::ActivateMedia, HostAction::Broadcast, HostAction::ReplyDone])
    }

    /// Goes on with a command.
    pub fn resume(&mut self, phase: WorkerPhase, ok: bool) -> (r: WorkerStep)
        ensures
            ({
                let step = old(self).resumed(phase, ok);
                *final(self) == step.state && r.phase == step.phase && r.actions@ == step.actions
            }),
    {
        match phase {
            WorkerPhase::Idle => finished(vec![]),
            WorkerPhase::StartApplying => self.resume_start(false, ok),
            WorkerPhase::StartCapturing => self.resume_start(true, ok),
            WorkerPhase::UpdateApplying => {
                if ok {
                    finished(vec![HostAction::Broadcast])
                } else {
                    finished(vec![])
                }
            },
            WorkerPhase::RecoveryStopping { revision } => {
                if self.stop_request_revision != revision {
                    return finished(vec![HostAction::Broadcast]);
                }
                waiting(
                    WorkerPhase::RecoveryCapturing { revision },
                    vec![HostAction::StartCapture],
                )
            },
            WorkerPhase::RecoveryCapturing { revision } => {
                if self.stop_request_revision != revision {
                    self.request_stream_stop();
                    return finished(vec![HostAction::StopResources, HostAction::Broadcast]);
                }
                if ok {
                    self.resetting = false;
                    self.start_session();
                    waiting(
                        WorkerPhase::RecoveryActivating { revision },
                        vec![HostAction::ActivateMedia],
                    )
                } else {
                    self.request_stream_stop();
                    waiting(
                        WorkerPhase::RecoveryCleaning { revision },
                        vec![HostAction::StopResources],
                    )
                }
            },
            WorkerPhase::RecoveryActivating { revision } => {
                if self.stop_request_revision != revision {
                    self.request_stream_stop();
                    return finished(vec![HostAction::StopResources, HostAction::Broadcast]);
                }
                finished(vec![HostAction::Broadcast])
            },
            WorkerPhase::RecoveryCleaning { revision } => {
                if self.stop_request_revision != revision {
                    return finished(vec![HostAction::Broadcast]);
                }
                self.resetting = false;
                self.enabled = false;
                self.advance_media_session();
                finished(vec![HostAction::Broadcast, HostAction::ReportFailure])
            },
            WorkerPhase::ResizeStopping { revision, attempt } => {
                if self.stop_request_revision != revision {
                    return finished(vec![HostAction::Broadcast]);
                }
                waiting(
                    WorkerPhase::ResizeCapturing { revision, attempt },
                    vec![HostAction::StartCapture],
                )
            },
            WorkerPhase::ResizeCapturing { revision, attempt } => {
                if self.stop_request_revision != revision {
                    return finished(vec![]);
                }
                if ok {
                    self.resetting = false;
                    self.enabled = true;
                    waiting(
                        WorkerPhase::ResizeActivating { revision, attempt },
                        vec![HostAction::ActivateMedia],
                    )
                } else {
                    self.request_stream_stop();
                    waiting(
                        WorkerPhase::ResizeCleaning { revision, attempt },
                        vec![HostAction::StopResources],
                    )
                }
            },
            WorkerPhase::ResizeActivating { revision, attempt } => {
                if self.stop_request_revision != revision {
                    return finished(vec![]);
                }
                self.advance_media_session();
                finished(vec![HostAction::Broadcast])
            },
            WorkerPhase::ResizeCleaning { revision, attempt } => {
                if self.stop_request_revision != revision {
                    return finished(vec![]);
                }
                let following: usize = if attempt == usize::MAX {
                    attempt
                } else {
                    attempt + 1
                };
                let retry = HostAction::RetryWindow {
                    delay: window_resize_retry_delay(attempt),
                    revision,
                    attempt: following,
                };
                finished(vec![retry])
            },
        }
    }
}

fn waiting(phase: WorkerPhase, actions: Vec<HostAction>) -> (r: WorkerStep)
    ensures
        r.phase == phase,
        r.actions@ == actions@,
{
    WorkerStep { phase, actions }
}

fn finished(actions: Vec<HostAction>) -> (r: WorkerStep)
    ensures
        r.phase == WorkerPhase::Idle,
        r.actions@ == actions@,
{
    WorkerStep { phase: WorkerPhase::Idle, actions }
}

/// What the host is told when a restart failed for good.
pub fn recovery_failure(error: &str) -> (r: String)
    ensures
        r@ == "stream stopped after automatic recovery failed: "@ + error@,
{
    text::joined("stream stopped after automatic recovery failed: ", error)
}

/// A stop of the host leaves the stream off and no restart under way.
pub proof fn lemma_stop_turns_off(state: StreamState)
    ensures
        ({
            let after = state.begun(HostCommand::Stop).state;
            &&& !after.enabled
            &&& !after.resetting
            &&& after == state.stop_requested()
            &&& after.stop_request_revision != state.stop_request_revision
        }),
{
}

/// Once the host has asked for a start or a stop, an automatic restart that began before it cannot
/// turn the stream on again, whatever came of its work.
pub proof fn lemma_host_outranks_restart(state: StreamState, phase: WorkerPhase, ok: bool)
    requires
        phase.revision() matches Some(revision) && revision != state.stop_request_revision,
    ensures
        state.resumed(phase, ok).phase == WorkerPhase::Idle,
        state.resumed(phase, ok).state.enabled ==> state.enabled,
        state.resumed(phase, ok).state.resetting == state.resetting,
        state.resumed(phase, ok).state.stop_request_revision == state.stop_request_revision,
        !state.resumed(phase, ok).actions.contains(HostAction::ActivateMedia),
        !state.resumed(phase, ok).actions.contains(HostAction::StartCapture),
        !state.begun(
            HostCommand::RestartWindow { revision: phase.revision()->0, attempt: 0 },
        ).state.resetting || state.resetting,
{
}

/// A window restart that failed is tried again under the revision with which it began, so a start or
/// a stop of the host before the retry makes it void.
pub proof fn lemma_stale_retry_is_void(
    state: StreamState,
    revision: u64,
    attempt: usize,
    later: StreamState,
)
    requires
        state.stop_request_revision == revision,
        later.stop_request_revision != revision,
    ensures
        ({
            let step = state.resumed(WorkerPhase::ResizeCleaning { revision, attempt }, true);
            &&& step.actions.len() == 1
            &&& step.actions[0] matches HostAction::RetryWindow {
                revision: retried,
                attempt: following,
                ..
            } && later.begun(
                HostCommand::RestartWindow { revision: retried, attempt: following },
            ) == idle(later, seq![])
        }),
{
}

/// Whenever a step turns the stream off, the media session gets another revision.
pub proof fn lemma_turning_off_ends_the_session(
    state: StreamState,
    command: HostCommand,
    phase: WorkerPhase,
    ok: bool,
)
    ensures
        state.enabled && !state.begun(command).state.enabled
            ==> state.begun(command).state.media_session_revision != state.media_session_revision,
        state.enabled && !state.resumed(phase, ok).state.enabled ==> state.resumed(
            phase,
            ok,
        ).state.media_session_revision != state.media_session_revision,
{
}

/// A start that goes well turns the stream on under a new media session, whether or not it ran.
pub proof fn lemma_start_opens_a_session(state: StreamState)
    ensures
        ({
            let applying = state.begun(HostCommand::Start);
            let applied = applying.state.resumed(applying.phase, true);
            let done = if state.enabled {
                applied
            } else {
                applied.state.resumed(applied.phase, true)
            };
            &&& done.phase == WorkerPhase::Idle
            &&& done.state.enabled
            &&& !done.state.resetting
            &&& done.state.media_session_revision == next_revision(state.media_session_revision)
            &&& done.actions.contains(HostAction::ActivateMedia)
            &&& done.actions.last() == HostAction::ReplyDone
        }),
{
    let applying = state.begun(HostCommand::Start);
    let applied = applying.state.resumed(applying.phase, true);
    let done = if state.enabled {
        applied
    } else {
        applied.state.resumed(applied.phase, true)
    };
    assert(done.actions[0] == HostAction::ActivateMedia);
}

/// A recovery that goes well leaves the stream on and out of its reset, two revisions on: one for
/// the session that ended, one for that which began.
pub proof fn lemma_recovery_resumes(state: StreamState)
    requires
        state.enabled,
    ensures
        ({
            let stopping = state.begun(HostCommand::Recover { failing: true });
            let capturing = stopping.state.resumed(stopping.phase, true);
            let activating = capturing.state.resumed(capturing.phase, true);
            let done = activating.state.resumed(activating.phase, true);
            &&& !stopping.state.enabled
            &&& stopping.state.resetting
            &&& done.phase == WorkerPhase::Idle
            &&& done.state.enabled
            &&& !done.state.resetting
            &&& done.state.stop_request_revision == state.stop_request_revision
            &&& done.state.media_session_revision == next_revision(
                next_revision(state.media_session_revision),
            )
        }),
{
}

/// A failed restart of a window is tried again after 150 ms, then after 300 ms, and from then on every
/// two seconds, as the next attempt under the same revision.
pub proof fn lemma_retry_delays(revision: u64, attempt: usize)
    requires
        1 <= attempt < usize::MAX,
    ensures
        retry_action(revision, attempt) == (HostAction::RetryWindow {
            delay: if attempt == 1 {
                150_000_000
            } else if attempt == 2 {
                300_000_000
            } else {
                2_000_000_000
            },
            revision,
            attempt: (attempt + 1) as usize,
        }),
{
}

/// A restart of the window that goes well leaves the stream on and out of its reset, under another
/// media session than the one that ended.
pub proof fn lemma_window_restart_resumes(state: StreamState, attempt: usize)
    requires
        state.enabled,
    ensures
        ({
            let command = HostCommand::RestartWindow {
                revision: state.stop_request_revision,
                attempt,
            };
            let stopping = state.begun(command);
            let capturing = stopping.state.resumed(stopping.phase, true);
            let activating = capturing.state.resumed(capturing.phase, true);
            let done = activating.state.resumed(activating.phase, true);
            &&& !stopping.state.enabled && stopping.state.resetting
            &&& stopping.actions.contains(HostAction::StopResources)
            &&& capturing.actions.contains(HostAction::StartCapture)
            &&& activating.actions.contains(HostAction::ActivateMedia)
            &&& done.phase == WorkerPhase::Idle
            &&& done.actions.contains(HostAction::Broadcast)
            &&& done.state.enabled
            &&& !done.state.resetting
            &&& done.state.stop_request_revision == state.stop_request_revision
        }),
{
    let command = HostCommand::RestartWindow { revision: state.stop_request_revision, attempt };
    let stopping = state.begun(command);
    let capturing = stopping.state.resumed(stopping.phase, true);
    let activating = capturing.state.resumed(capturing.phase, true);
    let done = activating.state.resumed(activating.phase, true);
    assert(stopping.actions[2] == HostAction::StopResources);
    assert(capturing.actions[0] == HostAction::StartCapture);
    assert(activating.actions[0] == HostAction::ActivateMedia);
    assert(done.actions[0] == HostAction::Broadcast);
}

/// A start that fails is answered as a failure, and leaves the stream as it was or off.
pub proof fn lemma_failed_start(state: StreamState)
    ensures
        ({
            let applying = state.begun(HostCommand::Start);
            let refused = applying.state.resumed(applying.phase, false);
            &&& applying.actions == seq![HostAction::ApplySettings]
            &&& refused.phase == WorkerPhase::Idle
            &&& refused.actions == seq![HostAction::ReplyFailure]
            &&& refused.state.enabled == state.enabled
            &&& !state.enabled ==> ({
                let capturing = applying.state.resumed(applying.phase, true);
                let failed = capturing.state.resumed(capturing.phase, false);
                &&& capturing.actions == seq![HostAction::StartCapture]
                &&& failed.phase == WorkerPhase::Idle
                &&& !failed.state.enabled
                &&& failed.actions == seq![HostAction::StopResources, HostAction::ReplyFailure]
            })
        }),
{
}

/// A recovery that fails for good turns the stream off and tells the host.
pub proof fn lemma_failed_recovery_is_reported(state: StreamState)
    requires
        state.enabled,
    ensures
        ({
            let stopping = state.begun(HostCommand::Recover { failing: true });
            let capturing = stopping.state.resumed(stopping.phase, true);
            let cleaning = capturing.state.resumed(capturing.phase, false);
            let done = cleaning.state.resumed(cleaning.phase, true);
            &&& done.phase == WorkerPhase::Idle
            &&& !done.state.enabled
            &&& !done.state.resetting
            &&& done.actions == seq![HostAction::Broadcast, HostAction::ReportFailure]
            &&& cleaning.actions == seq![HostAction::StopResources]
        }),
        state.begun(HostCommand::Recover { failing: false }) == idle(state, seq![]),
{
}

} // verus!
