//! New settings for the host: what is restarted for them, and what is put back if that fails.

use vstd::prelude::*;

use vstd::string::*;

use crate::media::{CaptureSettings, CaptureSettingsView};
use crate::profile;
use crate::profile::{audio_enabled, capture_format_changed, encoder_profile_changed};
use crate::text;

verus! {

/// The settings from before the change, or those that it brings.
#[derive(Clone, Copy, Debug, PartialEq, Eq, Structural)]
pub enum SettingsVersion {
    Previous,
    Next,
}

/// Why viewers have to negotiate anew.
#[derive(Clone, Copy, Debug, PartialEq, Eq, Structural)]
pub enum RestartReason {
    SourceRestored,
    EncodersRestored,
    CaptureFormat,
    StreamProfile,
    GroupBudget,
}

impl RestartReason {
    pub open spec fn wording(self) -> Seq<char> {
        match self {
            RestartReason::SourceRestored => "source switch failed; previous source restored"@,
            RestartReason::EncodersRestored =>
                "encoder replacement failed; previous source restored"@,
            RestartReason::CaptureFormat => "capture format changed"@,
            RestartReason::StreamProfile => "stream profile changed"@,
            RestartReason::GroupBudget => "transcode group budget changed"@,
        }
    }

    pub fn text(self) -> (r: &'static str)
        ensures
            r@ == self.wording(),
    {
        match self {
            RestartReason::SourceRestored => "source switch failed; previous source restored",
            RestartReason::EncodersRestored =>
                "encoder replacement failed; previous source restored",
            RestartReason::CaptureFormat => "capture format changed",
            RestartReason::StreamProfile => "stream profile changed",
            RestartReason::GroupBudget => "transcode group budget changed",
        }
    }
}

/// How a change failed. The program keeps the first error and the latest one.
#[derive(Clone, Copy, Debug, PartialEq, Eq, Structural)]
pub enum ChangeFailure {
    /// What was running is back; the first error says what went wrong.
    RolledBack,
    EncodersOfPreviousSourceFailed,
    PreviousSourceFailed,
    CaptureMissing,
    PreviousCaptureFailed,
    EncodersOfPreviousCaptureFailed,
}

impl ChangeFailure {
    pub open spec fn wording(self, first: Seq<char>, latest: Seq<char>) -> Seq<char> {
        match self {
            ChangeFailure::RolledBack => first,
            ChangeFailure::EncodersOfPreviousSourceFailed =>
                "capture refresh failed; the previous source returned, but its encoder restart failed: "@
                    + latest,
            ChangeFailure::PreviousSourceFailed =>
                "capture refresh failed and restoring the previous source also failed: "@ + latest,
            ChangeFailure::CaptureMissing => "shared capture is unavailable during rollback"@,
            ChangeFailure::PreviousCaptureFailed =>
                "encoder replacement failed and restoring the previous capture also failed: "@
                    + latest,
            ChangeFailure::EncodersOfPreviousCaptureFailed =>
                "encoder replacement failed; the previous capture returned, but rebuilding its encoders also failed: "@
                    + latest,
        }
    }

    /// What the host is told.
    pub fn message(self, first: &str, latest: &str) -> (r: String)
        ensures
            r@ == self.wording(first@, latest@),
    {
        match self {
            ChangeFailure::RolledBack => first.to_owned(),
            ChangeFailure::EncodersOfPreviousSourceFailed => text::joined(
                "capture refresh failed; the previous source returned, but its encoder restart failed: ",
                latest,
            ),
            ChangeFailure::PreviousSourceFailed => text::joined(
                "capture refresh failed and restoring the previous source also failed: ",
                latest,
            ),
            ChangeFailure::CaptureMissing =>
                "shared capture is unavailable during rollback".to_owned(),
            ChangeFailure::PreviousCaptureFailed => text::joined(
                "encoder replacement failed and restoring the previous capture also failed: ",
                latest,
            ),
            ChangeFailure::EncodersOfPreviousCaptureFailed => text::joined(
                "encoder replacement failed; the previous capture returned, but rebuilding its encoders also failed: ",
                latest,
            ),
        }
    }
}

/// What the program has to do, in this order. After a request whose outcome decides, it reports
/// that outcome.
#[derive(Clone, Copy, Debug, PartialEq, Eq, Structural)]
pub enum ChangeAction {
    /// Make settings the current ones.
    Store(SettingsVersion),
    /// Capture with settings; reports `CaptureRestarted`.
    RestartCapture(SettingsVersion),
    /// Start new encoders for settings; reports `EncodersReplaced`.
    ReplaceEncoders(SettingsVersion),
    /// Give the groups the new settings; reports `GroupsReconfigured` unless the change is over.
    ReconfigureGroups,
    ReconfigureAudio,
    RestartViewers(RestartReason),
    Broadcast,
    AdvanceMediaSession,
    Succeed,
    Fail(ChangeFailure),
}

#[derive(Clone, Copy, Debug, PartialEq, Eq, Structural)]
pub enum ChangeOutcome {
    CaptureRestarted { ok: bool },
    /// `capture_runs` says whether there still is a capture.
    EncodersReplaced { ok: bool, topology_changed: bool, capture_runs: bool },
    GroupsReconfigured { topology_changed: bool },
}

#[derive(Clone, Copy, Debug, PartialEq, Eq, Structural)]
pub enum ChangeStage {
    RestartingCapture,
    RestoringSource,
    RestoringEncoders,
    ReplacingEncoders,
    ReconfiguringGroups,
    RollingBackCapture,
    RollingBackEncoders,
    Finished,
}

/// What a change of settings affects, and how far it is.
#[derive(Clone, Copy, Debug, PartialEq, Eq, Structural)]
pub struct SettingsChange {
    pub capture_changes: bool,
    pub profile_changes: bool,
    pub audio_changes: bool,
    pub stage: ChangeStage,
}

pub open spec fn change_between(
    previous: CaptureSettingsView,
    next: CaptureSettingsView,
    stage: ChangeStage,
) -> SettingsChange {
    SettingsChange {
        capture_changes: profile::format_changes(previous, next),
        profile_changes: profile::profile_changes(previous, next),
        audio_changes: profile::has_audio(previous) != profile::has_audio(next),
        stage,
    }
}

impl SettingsChange {
    pub open spec fn at(self, stage: ChangeStage) -> SettingsChange {
        SettingsChange { stage, ..self }
    }

    /// New settings are stored, and the encoders that they need are started.
    pub open spec fn storing(self) -> (SettingsChange, Seq<ChangeAction>) {
        if self.capture_changes || self.profile_changes {
            (
                self.at(ChangeStage::ReplacingEncoders),
                seq![
                    ChangeAction::Store(SettingsVersion::Next),
                    ChangeAction::ReplaceEncoders(SettingsVersion::Next),
                ],
            )
        } else {
            (
                self.at(ChangeStage::ReconfiguringGroups),
                seq![
                    ChangeAction::Store(SettingsVersion::Next),
                    ChangeAction::ReconfigureGroups,
                ],
            )
        }
    }

    /// How a change begins. Without a running capture, another capture format is only stored: the
    /// next start captures with it.
    pub open spec fn begun(self, capture_runs: bool) -> (SettingsChange, Seq<ChangeAction>) {
        if !self.capture_changes {
            self.storing()
        } else if capture_runs {
            (
                self.at(ChangeStage::RestartingCapture),
                seq![ChangeAction::RestartCapture(SettingsVersion::Next)],
            )
        } else {
            (
                self.at(ChangeStage::Finished),
                seq![
                    ChangeAction::Store(SettingsVersion::Next),
                    ChangeAction::ReconfigureGroups,
                    ChangeAction::ReconfigureAudio,
                    ChangeAction::Succeed,
                ],
            )
        }
    }

    pub open spec fn failing(self, failure: ChangeFailure) -> (SettingsChange, Seq<ChangeAction>) {
        (self.at(ChangeStage::Finished), seq![ChangeAction::Fail(failure)])
    }

    /// Why viewers negotiate anew once the groups have the new settings.
    pub open spec fn reason(self, topology_changed: bool) -> Option<RestartReason> {
        if self.capture_changes {
            Some(RestartReason::CaptureFormat)
        } else if self.profile_changes {
            Some(RestartReason::StreamProfile)
        } else if topology_changed {
            Some(RestartReason::GroupBudget)
        } else {
            None
        }
    }

    pub open spec fn applied(self, topology_changed: bool) -> (SettingsChange, Seq<ChangeAction>) {
        let restart = match self.reason(topology_changed) {
            Some(reason) => seq![ChangeAction::RestartViewers(reason)],
            None => seq![],
        };
        let session = if self.audio_changes {
            seq![ChangeAction::AdvanceMediaSession]
        } else {
            seq![]
        };
        (
            self.at(ChangeStage::Finished),
            restart + seq![ChangeAction::ReconfigureAudio] + session + seq![ChangeAction::Succeed],
        )
    }

    /// What was running is back, and viewers have to negotiate with it anew.
    pub open spec fn rolled_back(self, reason: RestartReason) -> (
        SettingsChange,
        Seq<ChangeAction>,
    ) {
        (
            self.at(ChangeStage::Finished),
            seq![
                ChangeAction::RestartViewers(reason),
                ChangeAction::Broadcast,
                ChangeAction::Fail(ChangeFailure::RolledBack),
            ],
        )
    }

    /// How a change goes on after an outcome. One that does not belong to the stage changes
    /// nothing.
    pub open spec fn after(self, outcome: ChangeOutcome) -> (SettingsChange, Seq<ChangeAction>) {
        match (self.stage, outcome) {
            (ChangeStage::RestartingCapture, ChangeOutcome::CaptureRestarted { ok }) => if ok {
                self.storing()
            } else {
                (
                    self.at(ChangeStage::RestoringSource),
                    seq![ChangeAction::RestartCapture(SettingsVersion::Previous)],
                )
            },
            (ChangeStage::RestoringSource, ChangeOutcome::CaptureRestarted { ok }) => if ok {
                (
                    self.at(ChangeStage::RestoringEncoders),
                    seq![ChangeAction::ReplaceEncoders(SettingsVersion::Previous)],
                )
            } else {
                self.failing(ChangeFailure::PreviousSourceFailed)
            },
            (
                ChangeStage::RestoringEncoders,
                ChangeOutcome::EncodersReplaced { ok, topology_changed, capture_runs },
            ) => if ok {
                self.rolled_back(RestartReason::SourceRestored)
            } else {
                self.failing(ChangeFailure::EncodersOfPreviousSourceFailed)
            },
            (
                ChangeStage::ReplacingEncoders,
                ChangeOutcome::EncodersReplaced { ok, topology_changed, capture_runs },
            ) => if ok {
                self.applied(topology_changed)
            } else if !self.capture_changes {
                (
                    self.at(ChangeStage::Finished),
                    seq![
                        ChangeAction::Store(SettingsVersion::Previous),
                        ChangeAction::Fail(ChangeFailure::RolledBack),
                    ],
                )
            } else if !capture_runs {
                (
                    self.at(ChangeStage::Finished),
                    seq![
                        ChangeAction::Store(SettingsVersion::Previous),
                        ChangeAction::Fail(ChangeFailure::CaptureMissing),
                    ],
                )
            } else {
                (
                    self.at(ChangeStage::RollingBackCapture),
                    seq![
                        ChangeAction::Store(SettingsVersion::Previous),
                        ChangeAction::RestartCapture(SettingsVersion::Previous),
                    ],
                )
            },
            (
                ChangeStage::ReconfiguringGroups,
                ChangeOutcome::GroupsReconfigured { topology_changed },
            ) => self.applied(topology_changed),
            (ChangeStage::RollingBackCapture, ChangeOutcome::CaptureRestarted { ok }) => if ok {
                (
                    self.at(ChangeStage::RollingBackEncoders),
                    seq![ChangeAction::ReplaceEncoders(SettingsVersion::Previous)],
                )
            } else {
                self.failing(ChangeFailure::PreviousCaptureFailed)
            },
            (
                ChangeStage::RollingBackEncoders,
                ChangeOutcome::EncodersReplaced { ok, topology_changed, capture_runs },
            ) => if ok {
                self.rolled_back(RestartReason::EncodersRestored)
            } else {
                self.failing(ChangeFailure::EncodersOfPreviousCaptureFailed)
            },
            _ => (self, seq![]),
        }
    }

    fn store(&mut self) -> (r: Vec<ChangeAction>)
        ensures
            (*final(self), r@) == old(self).storing(),
    {
        if self.capture_changes || self.profile_changes {
            self.stage = ChangeStage::ReplacingEncoders;
            vec![
                ChangeAction::Store(SettingsVersion::Next),
                ChangeAction::ReplaceEncoders(SettingsVersion::Next),
            ]
        } else {
            self.stage = ChangeStage::ReconfiguringGroups;
            vec![ChangeAction::Store(SettingsVersion::Next), ChangeAction::ReconfigureGroups]
        }
    }

    /// Begins the change from one set of settings to another.
    pub fn begin(previous: &CaptureSettings, next: &CaptureSettings, capture_runs: bool) -> (r: (
        Self,
        Vec<ChangeAction>,
    ))
        ensures
            (r.0, r.1@) == change_between(previous@, next@, ChangeStage::Finished).begun(
                capture_runs,
            ),
    {
        let mut change = SettingsChange {
            capture_changes: capture_format_changed(previous, next),
            profile_changes: encoder_profile_changed(previous, next),
            audio_changes: audio_enabled(previous) != audio_enabled(next),
            stage: ChangeStage::Finished,
        };
        if !change.capture_changes {
            let actions = change.store();
            return (change, actions);
        }
        if capture_runs {
            change.stage = ChangeStage::RestartingCapture;
            (change, vec![ChangeAction::RestartCapture(SettingsVersion::Next)])
        } else {
            (
                change,
                vec![
                    ChangeAction::Store(SettingsVersion::Next),
                    ChangeAction::ReconfigureGroups,
                    ChangeAction::ReconfigureAudio,
                    ChangeAction::Succeed,
                ],
            )
        }
    }

    fn fail(&mut self, failure: ChangeFailure) -> (r: Vec<ChangeAction>)
        ensures
            (*final(self), r@) == old(self).failing(failure),
    {
        self.stage = ChangeStage::Finished;
        vec![ChangeAction::Fail(failure)]
    }

    fn roll_back(&mut self, reason: RestartReason) -> (r: Vec<ChangeAction>)
        ensures
            (*final(self), r@) == old(self).rolled_back(reason),
    {
        self.stage = ChangeStage::Finished;
        vec![
            ChangeAction::RestartViewers(reason),
            ChangeAction::Broadcast,
            ChangeAction::Fail(ChangeFailure::RolledBack),
        ]
    }

    fn succeed(&mut self, topology_changed: bool) -> (r: Vec<ChangeAction>)
        ensures
            (*final(self), r@) == old(self).applied(topology_changed),
    {
        self.stage = ChangeStage::Finished;
        let mut actions: Vec<ChangeAction> = Vec::new();
        if self.capture_changes {
            actions.push(ChangeAction::RestartViewers(RestartReason::CaptureFormat));
        } else if self.profile_changes {
            actions.push(ChangeAction::RestartViewers(RestartReason::StreamProfile));
        } else if topology_changed {
            actions.push(ChangeAction::RestartViewers(RestartReason::GroupBudget));
        }
        actions.push(ChangeAction::ReconfigureAudio);
        if self.audio_changes {
            actions.push(ChangeAction::AdvanceMediaSession);
        }
        actions.push(ChangeAction::Succeed);
        assert(actions@ =~= old(self).applied(topology_changed).1);
        actions
    }

    fn encoders_failed(&mut self, capture_runs: bool) -> (r: Vec<ChangeAction>)
        requires
            old(self).stage == ChangeStage::ReplacingEncoders,
        ensures
            (*final(self), r@) == old(self).after(
                ChangeOutcome::EncodersReplaced {
                    ok: false,
                    topology_changed: false,
                    capture_runs,
                },
            ),
    {
        if self.capture_changes && capture_runs {
            self.stage = ChangeStage::RollingBackCapture;
            return vec![
                ChangeAction::Store(SettingsVersion::Previous),
                ChangeAction::RestartCapture(SettingsVersion::Previous),
            ];
        }
        self.stage = ChangeStage::Finished;
        let failure = if self.capture_changes {
            ChangeFailure::CaptureMissing
        } else {
            ChangeFailure::RolledBack
        };
        vec![ChangeAction::Store(SettingsVersion::Previous), ChangeAction::Fail(failure)]
    }

    /// Goes on with the change.
    pub fn advance(&mut self, outcome: ChangeOutcome) -> (r: Vec<ChangeAction>)
        ensures
            (*final(self), r@) == old(self).after(outcome),
    {
        match outcome {
            ChangeOutcome::CaptureRestarted { ok } => match self.stage {
                ChangeStage::RestartingCapture => {
                    if ok {
                        return self.store();
                    }
                    self.stage = ChangeStage::RestoringSource;
                    vec![ChangeAction::RestartCapture(SettingsVersion::Previous)]
                },
                ChangeStage::RestoringSource => {
                    if !ok {
                        return self.fail(ChangeFailure::PreviousSourceFailed);
                    }
                    self.stage = ChangeStage::RestoringEncoders;
                    vec![ChangeAction::ReplaceEncoders(SettingsVersion::Previous)]
                },
                ChangeStage::RollingBackCapture => {
                    if !ok {
                        return self.fail(ChangeFailure::PreviousCaptureFailed);
                    }
                    self.stage = ChangeStage::RollingBackEncoders;
                    vec![ChangeAction::ReplaceEncoders(SettingsVersion::Previous)]
                },
                _ => vec![],
            },
            ChangeOutcome::EncodersReplaced { ok, topology_changed, capture_runs } => match self.stage {
                ChangeStage::RestoringEncoders => {
                    if ok {
                        self.roll_back(RestartReason::SourceRestored)
                    } else {
                        self.fail(ChangeFailure::EncodersOfPreviousSourceFailed)
                    }
                },
                ChangeStage::RollingBackEncoders => {
                    if ok {
                        self.roll_back(RestartReason::EncodersRestored)
                    } else {
                        self.fail(ChangeFailure::EncodersOfPreviousCaptureFailed)
                    }
                },
                ChangeStage::ReplacingEncoders => {
                    if ok {
                        self.succeed(topology_changed)
                    } else {
                        self.encoders_failed(capture_runs)
                    }
                },
                _ => vec![],
            },
            ChangeOutcome::GroupsReconfigured { topology_changed } => match self.stage {
                ChangeStage::ReconfiguringGroups => self.succeed(topology_changed),
                _ => vec![],
            },
        }
    }
}

/// The settings that are current after a list of actions.
pub open spec fn current_after(current: SettingsVersion, actions: Seq<ChangeAction>) -> SettingsVersion
    decreases actions.len(),
{
    if actions.len() == 0 {
        current
    } else {
        let before = current_after(current, actions.drop_last());
        match actions.last() {
            ChangeAction::Store(version) => version,
            _ => before,
        }
    }
}

/// The settings that are current at a stage of a running change.
pub open spec fn current_at(stage: ChangeStage) -> SettingsVersion {
    match stage {
        ChangeStage::ReplacingEncoders => SettingsVersion::Next,
        ChangeStage::ReconfiguringGroups => SettingsVersion::Next,
        _ => SettingsVersion::Previous,
    }
}

/// A change that fails leaves the previous settings current, and one that succeeds the new ones.
pub proof fn lemma_failed_change_keeps_settings(change: SettingsChange, outcome: ChangeOutcome)
    requires
        change.stage != ChangeStage::Finished,
    ensures
        ({
            let (after, actions) = change.after(outcome);
            let current = current_after(current_at(change.stage), actions);
            if after.stage != ChangeStage::Finished {
                current == current_at(after.stage)
            } else {
                &&& actions.last() is Fail ==> current == SettingsVersion::Previous
                &&& actions.last() is Succeed ==> current == SettingsVersion::Next
                &&& actions.last() is Fail || actions.last() is Succeed
            }
        }),
{
    reveal_with_fuel(current_after, 6);
}

/// The same holds of the first step.
pub proof fn lemma_begun_change_keeps_settings(change: SettingsChange, capture_runs: bool)
    ensures
        ({
            let (after, actions) = change.begun(capture_runs);
            let current = current_after(SettingsVersion::Previous, actions);
            if after.stage != ChangeStage::Finished {
                current == current_at(after.stage)
            } else {
                current == SettingsVersion::Next && actions.last() == ChangeAction::Succeed
            }
        }),
{
    reveal_with_fuel(current_after, 6);
}

/// A change that concerns neither the capture nor the profile touches no viewer: the settings are
/// stored, the groups take them over, and it is done.
pub proof fn lemma_small_change_disturbs_nobody(
    previous: CaptureSettingsView,
    next: CaptureSettingsView,
    capture_runs: bool,
)
    requires
        !profile::format_changes(previous, next),
        !profile::profile_changes(previous, next),
    ensures
        ({
            let change = change_between(previous, next, ChangeStage::Finished);
            let (waiting, first) = change.begun(capture_runs);
            let (done, second) = waiting.after(
                ChangeOutcome::GroupsReconfigured { topology_changed: false },
            );
            &&& first == seq![
                ChangeAction::Store(SettingsVersion::Next),
                ChangeAction::ReconfigureGroups,
            ]
            &&& done.stage == ChangeStage::Finished
            &&& second.last() == ChangeAction::Succeed
            &&& second.contains(ChangeAction::ReconfigureAudio)
            &&& forall|i: int|
                0 <= i < second.len() ==> !((#[trigger] second[i]) is RestartViewers)
            &&& (second.contains(ChangeAction::AdvanceMediaSession) <==> profile::has_audio(
                previous,
            ) != profile::has_audio(next))
        }),
{
    let change = change_between(previous, next, ChangeStage::Finished);
    let (waiting, first) = change.begun(capture_runs);
    let (done, second) = waiting.after(
        ChangeOutcome::GroupsReconfigured { topology_changed: false },
    );
    assert(second[0] == ChangeAction::ReconfigureAudio);
    if change.audio_changes {
        assert(second[1] == ChangeAction::AdvanceMediaSession);
        assert(second.len() == 3);
    } else {
        assert(second.len() == 2);
    }
}

/// Another source is captured before anything is stored or any encoder replaced; when all of that has
/// gone well, viewers connect anew.
pub proof fn lemma_source_change_goes_in_order(
    previous: CaptureSettingsView,
    next: CaptureSettingsView,
    topology_changed: bool,
)
    requires
        profile::format_changes(previous, next),
    ensures
        ({
            let change = change_between(previous, next, ChangeStage::Finished);
            let (capturing, first) = change.begun(true);
            let (replacing, second) = capturing.after(
                ChangeOutcome::CaptureRestarted { ok: true },
            );
            let (done, third) = replacing.after(
                ChangeOutcome::EncodersReplaced { ok: true, topology_changed, capture_runs: true },
            );
            let (restoring, back) = capturing.after(
                ChangeOutcome::CaptureRestarted { ok: false },
            );
            &&& first == seq![ChangeAction::RestartCapture(SettingsVersion::Next)]
            &&& second == seq![
                ChangeAction::Store(SettingsVersion::Next),
                ChangeAction::ReplaceEncoders(SettingsVersion::Next),
            ]
            &&& done.stage == ChangeStage::Finished
            &&& third[0] == ChangeAction::RestartViewers(RestartReason::CaptureFormat)
            &&& third.last() == ChangeAction::Succeed
            &&& back == seq![ChangeAction::RestartCapture(SettingsVersion::Previous)]
        }),
{
}

/// A change that fails puts the previous settings back into force step by step: the capture before the
/// encoders, and viewers negotiate anew only once both are back. A step that fails on this way ends it
/// with a failure of its own.
pub proof fn lemma_failed_source_change_is_undone(change: SettingsChange)
    requires
        change.capture_changes,
    ensures
        ({
            let capture_ok = ChangeOutcome::CaptureRestarted { ok: true };
            let capture_failed = ChangeOutcome::CaptureRestarted { ok: false };
            let encoders_ok = ChangeOutcome::EncodersReplaced {
                ok: true,
                topology_changed: false,
                capture_runs: true,
            };
            let encoders_failed = ChangeOutcome::EncodersReplaced {
                ok: false,
                topology_changed: false,
                capture_runs: true,
            };
            let replacing = change.at(ChangeStage::ReplacingEncoders);
            let (rolling, first) = replacing.after(encoders_failed);
            let (encoders, second) = rolling.after(capture_ok);
            let (done, third) = encoders.after(encoders_ok);
            let (stuck, fourth) = encoders.after(encoders_failed);
            let (lost, fifth) = rolling.after(capture_failed);
            &&& first == seq![
                ChangeAction::Store(SettingsVersion::Previous),
                ChangeAction::RestartCapture(SettingsVersion::Previous),
            ]
            &&& second == seq![ChangeAction::ReplaceEncoders(SettingsVersion::Previous)]
            &&& done.stage == ChangeStage::Finished && third[0] is RestartViewers
                && third.last() is Fail
            &&& stuck.stage == ChangeStage::Finished && fourth.len() == 1 && fourth[0] is Fail
            &&& lost.stage == ChangeStage::Finished && fifth.len() == 1 && fifth[0] is Fail
        }),
        ({
            let encoders_ok = ChangeOutcome::EncodersReplaced {
                ok: true,
                topology_changed: false,
                capture_runs: true,
            };
            let encoders_failed = ChangeOutcome::EncodersReplaced {
                ok: false,
                topology_changed: false,
                capture_runs: true,
            };
            let source = change.at(ChangeStage::RestoringSource);
            let (encoders, first) = source.after(ChangeOutcome::CaptureRestarted { ok: true });
            let (lost, second) = source.after(ChangeOutcome::CaptureRestarted { ok: false });
            let (done, third) = encoders.after(encoders_ok);
            let (stuck, fourth) = encoders.after(encoders_failed);
            &&& first == seq![ChangeAction::ReplaceEncoders(SettingsVersion::Previous)]
            &&& lost.stage == ChangeStage::Finished && second.len() == 1 && second[0] is Fail
            &&& done.stage == ChangeStage::Finished && third[0] == ChangeAction::RestartViewers(
                RestartReason::SourceRestored,
            ) && third.last() == ChangeAction::Fail(ChangeFailure::RolledBack)
            &&& stuck.stage == ChangeStage::Finished && fourth.len() == 1 && fourth[0] is Fail
        }),
{
}

/// A change of the profile alone leaves the capture running: encoders are replaced, and where that
/// fails the previous settings are stored again.
pub proof fn lemma_profile_change_spares_the_capture(
    previous: CaptureSettingsView,
    next: CaptureSettingsView,
    capture_runs: bool,
    topology_changed: bool,
)
    requires
        !profile::format_changes(previous, next),
        profile::profile_changes(previous, next),
    ensures
        ({
            let change = change_between(previous, next, ChangeStage::Finished);
            let (replacing, first) = change.begun(capture_runs);
            let (done, second) = replacing.after(
                ChangeOutcome::EncodersReplaced { ok: true, topology_changed, capture_runs },
            );
            let (back, third) = replacing.after(
                ChangeOutcome::EncodersReplaced { ok: false, topology_changed, capture_runs },
            );
            &&& first == seq![
                ChangeAction::Store(SettingsVersion::Next),
                ChangeAction::ReplaceEncoders(SettingsVersion::Next),
            ]
            &&& second[0] == ChangeAction::RestartViewers(RestartReason::StreamProfile)
            &&& second.last() == ChangeAction::Succeed
            &&& third[0] == ChangeAction::Store(SettingsVersion::Previous)
            &&& third.last() == ChangeAction::Fail(ChangeFailure::RolledBack)
            &&& back.stage == ChangeStage::Finished
        }),
{
}

} // verus!
