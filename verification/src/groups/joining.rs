//! A viewer joins: the group it is placed in, and the profile it gets.

use vstd::prelude::*;
use vstd::string::*;

use crate::config;
use crate::config::clone_texts;
use crate::float;
use crate::groups;
use crate::groups::{
    Activation, AssignmentView, ClientView, GroupAssignment, GroupView, GroupsView, MediaUpdate,
    TranscodeGroups, ASSIGNMENT_HOLD_NANOS,
};
use crate::groups::codecs;
use crate::groups::codecs::{
    contains_codec, display_codec_name, viewer_supported_codecs, ViewerBootstrap,
};
use crate::list;
use crate::media::{CaptureSettings, CaptureSettingsView};
use crate::metrics;
use crate::profile;

verus! {

/// Whether the throughput carries a bitrate with a quarter to spare, at a delay of at most a second
/// and a half.
pub open spec fn can_carry(probe: ViewerBootstrap, bitrate: u32) -> bool {
    &&& metrics::is_at_least(probe.download_bps, metrics::share_of(bitrate, 125))
    &&& metrics::is_at_most(probe.latency_ms, float::ratio(1500, 1))
}

/// The bitrate that a measured throughput allows: 65 hundredths of it, but not below the minimum.
pub open spec fn delivery_budget(probe: ViewerBootstrap) -> u32 {
    if probe.timed_out || !metrics::is_positive(probe.download_bps) {
        250_000
    } else {
        let share = float::rounded(
            float::product(metrics::value(probe.download_bps), float::ratio(65, 100)),
        );
        if share < 250_000 {
            250_000
        } else if share > u32::MAX {
            u32::MAX
        } else {
            share as u32
        }
    }
}

/// A profile lowered until its bitrate fits a budget.
pub open spec fn fitted(profile: CaptureSettingsView, budget: u32) -> CaptureSettingsView
    decreases profile.bitrate,
    when budget >= 250_000
{
    if profile.bitrate > budget {
        fitted(
            CaptureSettingsView {
                bitrate: profile::reduced_bitrate(profile.bitrate),
                output_fps: Some(
                    profile::step_down_fps(config::value_or(profile.output_fps, profile.fps)),
                ),
                output_height: Some(
                    profile::step_down_height(config::value_or(profile.output_height, profile.height)),
                ),
                ..profile
            },
            budget,
        )
    } else {
        profile
    }
}

impl GroupsView {
    /// The codec for a viewer. Without a policy everything is VP8.
    pub open spec fn selected_codec(
        self,
        supported: Seq<Seq<char>>,
        rejected: Seq<Seq<char>>,
    ) -> Seq<char> {
        match self.policy {
            None => "vp8"@,
            Some(policy) => codecs::chosen_codec(
                policy.codec_policy,
                policy.host_codecs,
                supported,
                rejected,
            ),
        }
    }

    /// The group that can serve a codec: the preferred one, else one that is offered, else an
    /// idle one. An idle group is given the codec and the profile.
    pub open spec fn group_for(
        self,
        codec: Seq<char>,
        preferred: usize,
        settings: CaptureSettingsView,
        ceiling: CaptureSettingsView,
    ) -> (GroupsView, Option<usize>) {
        if self.speaks(self.at(preferred), codec) {
            (self.configured(preferred, codec, settings, ceiling), Some(preferred))
        } else {
            let n = self.groups.len() as int;
            match list::first_in(0, n, |i: int| self.is_active(i) && self.speaks(i, codec)) {
                Some(i) => (self, Some(i as usize)),
                None => match list::first_in(
                    0,
                    n,
                    |i: int| i < self.capacity() && self.groups[i].media is None,
                ) {
                    Some(i) => (
                        self.configured(i as usize, codec, settings, ceiling),
                        Some(i as usize),
                    ),
                    None => (self, None),
                },
            }
        }
    }

    /// The best group whose bitrate the viewer's path carries, or the last one in use.
    pub open spec fn preferred_group(self, probe: ViewerBootstrap) -> usize {
        let last = (self.capacity() - 1) as usize;
        if probe.timed_out || !metrics::is_positive(probe.download_bps) {
            last
        } else {
            match list::first_in(
                0,
                self.groups.len() as int,
                |i: int| i < self.capacity() && can_carry(probe, self.groups[i].settings.bitrate),
            ) {
                Some(i) => i as usize,
                None => last,
            }
        }
    }

    pub open spec fn rejected_by(self, client: Seq<char>) -> Seq<Seq<char>> {
        if self.knows(client) {
            self.assignments[self.client_at(client)].rejected_codecs
        } else {
            Seq::empty()
        }
    }

    /// The groups and the target when a viewer with the given probe joins, before an encoder is
    /// started for it.
    pub open spec fn prepared(self, client: Seq<char>, probe: ViewerBootstrap) -> (
        GroupsView,
        usize,
    ) {
        let codec = self.selected_codec(
            codecs::known_codecs(config::texts(probe.video_capabilities@)),
            self.rejected_by(client),
        );
        let preferred = self.preferred_group(probe);
        let ceiling = self.group(preferred).settings;
        let profile = fitted(ceiling, delivery_budget(probe));
        let (found, target) = self.group_for(codec, preferred, profile, ceiling);
        let group_id = match target {
            Some(group_id) => group_id,
            None => found.primary(),
        };
        if found.group(group_id).media is None || group_id == preferred {
            (
                found.with_group(
                    group_id,
                    GroupView { settings: profile, ..found.group(group_id) },
                ),
                group_id,
            )
        } else {
            (found, group_id)
        }
    }

    /// The groups once a viewer that joined has its place.
    pub open spec fn joined(
        self,
        client: Seq<char>,
        supported: Seq<Seq<char>>,
        codec: Seq<char>,
        timed_out: bool,
        group_id: usize,
        now: u64,
    ) -> GroupsView {
        let state = self.client_or_new(
            client,
            (now - ASSIGNMENT_HOLD_NANOS) as u64,
            "bootstrap probe"@,
            group_id,
        );
        self.with_client(
            ClientView {
                group_id,
                supported_codecs: supported,
                rejected_codecs: list::kept(
                    state.rejected_codecs,
                    |codec: Seq<char>| supported.contains(codec),
                ),
                last_change: now,
                reason: join_reason(codec, timed_out),
                ..state
            },
        )
    }
}

/// Why a viewer that joined is in its group.
pub open spec fn join_reason(codec: Seq<char>, timed_out: bool) -> Seq<char> {
    if timed_out {
        "bootstrap probe timed out; selected safe "@ + codecs::codec_display(codec) + " group"@
    } else {
        "initial TCP throughput probe; selected "@ + codecs::codec_display(codec)
    }
}

/// A viewer that waits for an encoder to start.
#[derive(Debug)]
pub struct PendingJoin {
    pub client_id: String,
    pub supported_codecs: Vec<String>,
    pub codec: String,
    pub timed_out: bool,
    pub group_id: usize,
}

/// Whether a viewer has its place, or an encoder has to be started first.
#[derive(Debug)]
pub enum JoinStep {
    Joined(GroupAssignment),
    Start(PendingJoin),
}

/// The answer to a viewer that joins.
#[derive(Debug)]
pub struct Join {
    pub update: Option<MediaUpdate>,
    pub step: JoinStep,
}

fn carries(probe: &ViewerBootstrap, bitrate: u32) -> (r: bool)
    ensures
        r == can_carry(*probe, bitrate),
{
    metrics::at_least(probe.download_bps, metrics::bitrate_share(bitrate, 125)) && metrics::at_most(
        probe.latency_ms,
        float::fraction(1500, 1),
    )
}

fn probe_budget(probe: &ViewerBootstrap) -> (r: u32)
    ensures
        r == delivery_budget(*probe),
        r >= 250_000,
{
    if probe.timed_out || !metrics::positive(probe.download_bps) {
        return 250_000;
    }
    let share = float::multiply(
        metrics::decoded(probe.download_bps),
        float::fraction(65, 100),
    );
    let rounded: u32 = float::rounded_to(share, u32::MAX as u64) as u32;
    if rounded < 250_000 {
        250_000
    } else {
        rounded
    }
}

fn fit_profile(ceiling: &CaptureSettings, budget: u32) -> (r: CaptureSettings)
    requires
        budget >= 250_000,
    ensures
        r@ == fitted(ceiling@, budget),
{
    let mut profile = ceiling.clone();
    while profile.bitrate > budget
        invariant
            budget >= 250_000,
            fitted(profile@, budget) == fitted(ceiling@, budget),
        decreases profile.bitrate,
    {
        let ghost before = profile@;
        let fps = profile::profile_fps(&profile);
        let height = profile::profile_height(&profile);
        profile.bitrate = profile::reduce_bitrate(profile.bitrate);
        profile.output_fps = Some(profile::lower_fps(fps));
        profile.output_height = Some(profile::lower_height(height));
        assert(profile@ == (CaptureSettingsView {
            bitrate: profile::reduced_bitrate(before.bitrate),
            output_fps: Some(profile::step_down_fps(config::value_or(before.output_fps, before.fps))),
            output_height: Some(
                profile::step_down_height(config::value_or(before.output_height, before.height)),
            ),
            ..before
        }));
    }
    profile
}

impl TranscodeGroups {
    pub fn select_codec(
        &self,
        supported_codecs: &Vec<String>,
        rejected_codecs: &Vec<String>,
    ) -> (r: String)
        ensures
            r@ == self@.selected_codec(config::texts(supported_codecs@), config::texts(rejected_codecs@)),
    {
        match &self.policy {
            None => "vp8".to_owned(),
            Some(policy) => codecs::choose_codec(
                policy.codec_policy.as_str(),
                &policy.host_codecs,
                supported_codecs,
                rejected_codecs,
            ),
        }
    }

    /// Finds a group for a codec, and gives an idle one the codec and the profile.
    pub fn group_for_codec_profile(
        &mut self,
        codec: &str,
        preferred_group_id: usize,
        profile: CaptureSettings,
        ceiling: CaptureSettings,
    ) -> (r: Option<usize>)
        requires
            old(self)@.wf(),
        ensures
            (final(self)@, r) == old(self)@.group_for(
                codec@,
                preferred_group_id,
                profile@,
                ceiling@,
            ),
            final(self)@.wf(),
    {
        let preferred = self.index(preferred_group_id);
        if self.group_speaks(preferred, codec) {
            let _ = self.configure_stopped_group(preferred_group_id, codec, profile, ceiling);
            return Some(preferred_group_id);
        }
        let ghost n = self@.groups.len() as int;
        let ghost offered = |i: int| self@.is_active(i) && self@.speaks(i, codec@);
        let mut i: usize = 0;
        while i < self.groups.len()
            invariant
                i <= self.groups@.len(),
                self@ == old(self)@,
                self@.wf(),
                !old(self)@.speaks(old(self)@.at(preferred_group_id), codec@),
                offered == (|i: int| old(self)@.is_active(i) && old(self)@.speaks(i, codec@)),
                forall|j: int| 0 <= j < i ==> !#[trigger] offered(j),
            decreases self.groups@.len() - i,
        {
            if self.group_is_active(i) && self.group_speaks(i, codec) {
                proof {
                    list::lemma_first_found(0, old(self)@.groups.len() as int, offered, i as int);
                }
                return Some(i);
            }
            assert(!offered(i as int));
            i += 1;
        }
        proof {
            list::lemma_first_missing(0, n, offered);
        }
        let capacity = self.capacity();
        let ghost idle = |i: int| i < self@.capacity() && self@.groups[i].media is None;
        let mut k: usize = 0;
        while k < self.groups.len()
            invariant
                k <= self.groups@.len(),
                self@ == old(self)@,
                self@.wf(),
                capacity == old(self)@.capacity(),
                idle == (|i: int| i < old(self)@.capacity() && old(self)@.groups[i].media is None),
                n == self@.groups.len(),
                !old(self)@.speaks(old(self)@.at(preferred_group_id), codec@),
                list::first_in(
                    0,
                    n,
                    |i: int| old(self)@.is_active(i) && old(self)@.speaks(i, codec@),
                ) is None,
                forall|j: int| 0 <= j < k ==> !#[trigger] idle(j),
            decreases self.groups@.len() - k,
        {
            if k < capacity && self.groups[k].media.is_none() {
                proof {
                    list::lemma_first_found(0, n, idle, k as int);
                }
                let _ = self.configure_stopped_group(k, codec, profile, ceiling);
                return Some(k);
            }
            assert(!idle(k as int));
            k += 1;
        }
        proof {
            list::lemma_first_missing(0, n, idle);
        }
        None
    }

    fn preferred_for(&self, probe: &ViewerBootstrap) -> (r: usize)
        requires
            self@.wf(),
        ensures
            r == self@.preferred_group(*probe),
            r < self.groups@.len(),
    {
        let capacity = self.capacity();
        if probe.timed_out || !metrics::positive(probe.download_bps) {
            return capacity - 1;
        }
        let ghost p = |i: int|
            i < self@.capacity() && can_carry(*probe, self@.groups[i].settings.bitrate);
        let mut i: usize = 0;
        while i < self.groups.len()
            invariant
                i <= self.groups@.len(),
                capacity == self@.capacity(),
                1 <= capacity <= self.groups@.len(),
                !probe.timed_out,
                metrics::is_positive(probe.download_bps),
                p == (|i: int|
                    i < self@.capacity() && can_carry(*probe, self@.groups[i].settings.bitrate)),
                forall|j: int| 0 <= j < i ==> !#[trigger] p(j),
            decreases self.groups@.len() - i,
        {
            if i < capacity && carries(probe, self.groups[i].settings.bitrate) {
                proof {
                    list::lemma_first_found(0, self@.groups.len() as int, p, i as int);
                }
                return i;
            }
            assert(!p(i as int));
            i += 1;
        }
        proof {
            list::lemma_first_missing(0, self@.groups.len() as int, p);
        }
        capacity - 1
    }

    /// Gives a viewer that joined its place.
    fn join_group(
        &mut self,
        client_id: &str,
        supported_codecs: Vec<String>,
        codec: &str,
        timed_out: bool,
        group_id: usize,
        now: u64,
    ) -> (r: GroupAssignment)
        requires
            old(self)@.wf(),
            now >= ASSIGNMENT_HOLD_NANOS,
        ensures
            final(self)@ == old(self)@.joined(
                client_id@,
                config::texts(supported_codecs@),
                codec@,
                timed_out,
                group_id,
                now,
            ),
            final(self)@.wf(),
            r@ == (AssignmentView {
                group_id,
                reason: join_reason(codec@, timed_out),
                restart: false,
            }),
    {
        let at = self.client_index(client_id);
        let mut state = self.client_state(
            at,
            client_id,
            now - ASSIGNMENT_HOLD_NANOS,
            "bootstrap probe",
            group_id,
        );
        let mut reason: String;
        if timed_out {
            reason = "bootstrap probe timed out; selected safe ".to_owned();
            reason.append(display_codec_name(codec));
            reason.append(" group");
        } else {
            reason = "initial TCP throughput probe; selected ".to_owned();
            reason.append(display_codec_name(codec));
        }
        let rejected = retain_supported(&state.rejected_codecs, &supported_codecs);
        state.group_id = group_id;
        state.rejected_codecs = rejected;
        state.supported_codecs = supported_codecs;
        state.last_change = now;
        state.reason = reason.clone();
        self.store_client(at, state);
        GroupAssignment { group_id, reason, restart: false }
    }

    /// A viewer joins with the result of its probe.
    pub fn bootstrap(&mut self, client_id: &str, probe: &ViewerBootstrap, now: u64) -> (r: Join)
        requires
            old(self)@.wf(),
            now >= ASSIGNMENT_HOLD_NANOS,
        ensures
            final(self)@.wf(),
            ({
                let supported = codecs::known_codecs(config::texts(probe.video_capabilities@));
                let codec = old(self)@.selected_codec(supported, old(self)@.rejected_by(client_id@));
                let (prepared, group_id) = old(self)@.prepared(client_id@, *probe);
                let ready = prepared.group(group_id).media is Some;
                let target = if ready {
                    group_id
                } else {
                    prepared.primary()
                };
                &&& match r.update {
                    Some(update) => prepared.group(group_id).media == Some(update.media)
                        && update.settings@ == prepared.group(group_id).settings && group_id
                        == old(self)@.preferred_group(*probe),
                    None => prepared.group(group_id).media is None || group_id
                        != old(self)@.preferred_group(*probe),
                }
                &&& match r.step {
                    JoinStep::Joined(assignment) => {
                        &&& ready || prepared.policy is None
                        &&& final(self)@ == prepared.joined(
                            client_id@,
                            supported,
                            codec,
                            probe.timed_out,
                            target,
                            now,
                        )
                        &&& assignment@ == (AssignmentView {
                            group_id: target,
                            reason: join_reason(codec, probe.timed_out),
                            restart: false,
                        })
                    },
                    JoinStep::Start(pending) => {
                        &&& !ready && prepared.policy is Some
                        &&& final(self)@ == prepared
                        &&& pending.client_id@ == client_id@
                        &&& config::texts(pending.supported_codecs@) == supported
                        &&& pending.codec@ == codec
                        &&& pending.timed_out == probe.timed_out
                        &&& pending.group_id == group_id
                    },
                }
            }),
    {
        let supported = viewer_supported_codecs(probe);
        let at = self.client_index(client_id);
        let rejected = if at < self.assignments.len() {
            clone_texts(&self.assignments[at].rejected_codecs)
        } else {
            Vec::new()
        };
        assert(config::texts(rejected@) =~= old(self)@.rejected_by(client_id@));
        let codec = self.select_codec(&supported, &rejected);
        let preferred = self.preferred_for(probe);
        let ceiling = self.group_settings(preferred);
        let profile = fit_profile(&ceiling, probe_budget(probe));
        let target = self.group_for_codec_profile(
            codec.as_str(),
            preferred,
            profile.clone(),
            ceiling,
        );
        let group_id: usize = match target {
            Some(group_id) => group_id,
            None => self.primary_group_id(),
        };
        let mut update: Option<MediaUpdate> = None;
        if self.media_by_id(group_id).is_none() || group_id == preferred {
            let settings = profile.clone();
            if let Some(media) = self.set_group_profile(group_id, profile) {
                update = Some(MediaUpdate { media, settings });
            }
        }
        let ghost prepared = self@;
        assert((prepared, group_id) == old(self)@.prepared(client_id@, *probe));
        match self.activation(group_id) {
            Activation::Running(_) => {
                let assignment = self.join_group(
                    client_id,
                    supported,
                    codec.as_str(),
                    probe.timed_out,
                    group_id,
                    now,
                );
                Join { update, step: JoinStep::Joined(assignment) }
            },
            Activation::Unavailable => {
                let fallback = self.primary_group_id();
                let assignment = self.join_group(
                    client_id,
                    supported,
                    codec.as_str(),
                    probe.timed_out,
                    fallback,
                    now,
                );
                Join { update, step: JoinStep::Joined(assignment) }
            },
            Activation::Start => {
                let pending = PendingJoin {
                    client_id: client_id.to_owned(),
                    supported_codecs: supported,
                    codec,
                    timed_out: probe.timed_out,
                    group_id,
                };
                Join { update, step: JoinStep::Start(pending) }
            },
        }
    }

    /// A viewer joins once the start of its encoder has succeeded or failed.
    pub fn bootstrap_started(&mut self, pending: PendingJoin, started: Option<u64>, now: u64) -> (r:
        GroupAssignment)
        requires
            old(self)@.wf(),
            now >= ASSIGNMENT_HOLD_NANOS,
        ensures
            final(self)@.wf(),
            ({
                let (ready, target) = match started {
                    Some(media) => (
                        old(self)@.installed(pending.group_id, media),
                        pending.group_id,
                    ),
                    None => (old(self)@, old(self)@.primary()),
                };
                &&& final(self)@ == ready.joined(
                    pending.client_id@,
                    config::texts(pending.supported_codecs@),
                    pending.codec@,
                    pending.timed_out,
                    target,
                    now,
                )
                &&& r@ == (AssignmentView {
                    group_id: target,
                    reason: join_reason(pending.codec@, pending.timed_out),
                    restart: false,
                })
            }),
    {
        let target: usize = match started {
            Some(media) => {
                self.install(pending.group_id, media);
                pending.group_id
            },
            None => self.primary_group_id(),
        };
        self.join_group(
            pending.client_id.as_str(),
            pending.supported_codecs,
            pending.codec.as_str(),
            pending.timed_out,
            target,
            now,
        )
    }
}

fn retain_supported(rejected: &Vec<String>, supported: &Vec<String>) -> (r: Vec<String>)
    ensures
        config::texts(r@) == list::kept(
            config::texts(rejected@),
            |codec: Seq<char>| config::texts(supported@).contains(codec),
        ),
{
    let ghost p = |codec: Seq<char>| config::texts(supported@).contains(codec);
    let ghost all = config::texts(rejected@);
    let mut r: Vec<String> = Vec::new();
    let mut i: usize = 0;
    assert(config::texts(r@) =~= list::kept(all.take(0), p));
    while i < rejected.len()
        invariant
            i <= rejected@.len(),
            all == config::texts(rejected@),
            p == (|codec: Seq<char>| config::texts(supported@).contains(codec)),
            config::texts(r@) == list::kept(all.take(i as int), p),
        decreases rejected@.len() - i,
    {
        assert(all.take(i + 1).drop_last() =~= all.take(i as int));
        let ghost before = r@;
        if contains_codec(supported, rejected[i].as_str()) {
            r.push(rejected[i].clone());
            assert(config::texts(r@) =~= config::texts(before).push(all[i as int]));
        }
        i += 1;
    }
    assert(all.take(i as int) =~= all);
    r
}

} // verus!
