//! New settings for a running stream: the budget and the profiles of its groups.

use vstd::prelude::*;

use crate::groups;
use crate::groups::{
    ClientView, CodecPolicy, GroupLifecycle, GroupView, GroupsView, MediaUpdate, MediaUpdateView,
    TranscodeGroup, TranscodeGroups, ASSIGNMENT_HOLD_NANOS,
};
use crate::media::{CaptureSettings, CaptureSettingsView};
use crate::profile;

verus! {

/// What new settings did to the groups: whether the number in use changed, which encoders take
/// another profile, and which stop.
#[derive(Debug)]
pub struct GroupReconfiguration {
    pub topology_changed: bool,
    pub updates: Vec<MediaUpdate>,
    pub stopped: Vec<u64>,
}

/// An encoder that has to be started before new settings can be taken over.
#[derive(Debug)]
pub struct Replacement {
    pub group_id: usize,
    pub codec: String,
    pub settings: CaptureSettings,
}

pub struct ReplacementView {
    pub group_id: usize,
    pub codec: Seq<char>,
    pub settings: CaptureSettingsView,
}

impl View for Replacement {
    type V = ReplacementView;

    open spec fn view(&self) -> ReplacementView {
        ReplacementView {
            group_id: self.group_id,
            codec: self.codec@,
            settings: self.settings@,
        }
    }
}

pub open spec fn replacement_views(replacements: Seq<Replacement>) -> Seq<ReplacementView> {
    replacements.map_values(|r: Replacement| r@)
}

/// An encoder that was started for a group.
#[derive(Clone, Copy, Debug, PartialEq, Eq, Structural)]
pub struct StartedGroup {
    pub group_id: usize,
    pub media: u64,
}

impl GroupsView {
    /// The budget that settings ask for, as far as there are groups.
    pub open spec fn requested_budget(self, settings: CaptureSettingsView) -> int {
        let wanted = profile::wanted_groups(settings) as int;
        if wanted <= self.groups.len() {
            wanted
        } else {
            self.groups.len() as int
        }
    }

    /// The groups with the budget and the profiles of new settings.
    pub open spec fn reprofiled(self, settings: CaptureSettingsView) -> GroupsView {
        GroupsView {
            active_budget: self.requested_budget(settings) as usize,
            groups: Seq::new(
                self.groups.len(),
                |i: int|
                    GroupView {
                        settings: profile::profile_of_group(settings, i as nat),
                        ceiling: profile::profile_of_group(settings, i as nat),
                        ..self.groups[i]
                    },
            ),
            ..self
        }
    }

    /// The groups after new settings. Where the budget shrinks, the groups beyond it stop and
    /// their viewers join the primary group.
    pub open spec fn reconfigured(self, settings: CaptureSettingsView, now: u64) -> GroupsView {
        let budget = self.requested_budget(settings);
        let profiled = self.reprofiled(settings);
        if budget < self.capacity() {
            GroupsView {
                assignments: profiled.assignments.map_values(
                    |c: ClientView|
                        if c.group_id < budget {
                            c
                        } else {
                            ClientView {
                                group_id: profiled.primary(),
                                last_change: now,
                                reason: "group budget reduced"@,
                                ..c
                            }
                        },
                ),
                groups: Seq::new(
                    profiled.groups.len(),
                    |i: int|
                        if i < budget {
                            profiled.groups[i]
                        } else {
                            GroupView {
                                media: None,
                                lifecycle: GroupLifecycle::Stopped,
                                drain_started_at: None,
                                ..profiled.groups[i]
                            }
                        },
                ),
                ..profiled
            }
        } else {
            profiled
        }
    }

    /// The running encoders of the groups below `n` within the budget of new settings.
    pub open spec fn profile_updates(self, settings: CaptureSettingsView, n: int) -> Seq<
        MediaUpdateView,
    >
        decreases n,
    {
        if n <= 0 {
            Seq::empty()
        } else {
            let rest = self.profile_updates(settings, n - 1);
            if n - 1 < self.requested_budget(settings) && self.groups[n - 1].media is Some {
                rest.push(
                    MediaUpdateView {
                        media: self.groups[n - 1].media->0,
                        settings: profile::profile_of_group(settings, (n - 1) as nat),
                    },
                )
            } else {
                rest
            }
        }
    }

    /// The running encoders of the groups from `budget` up to but not including `n`.
    pub open spec fn media_beyond(self, budget: int, n: int) -> Seq<u64>
        decreases n,
    {
        if n <= budget || n <= 0 {
            Seq::empty()
        } else {
            let rest = self.media_beyond(budget, n - 1);
            match self.groups[n - 1].media {
                Some(media) => rest.push(media),
                None => rest,
            }
        }
    }

    /// The encoders that have to be started before new settings can be taken over: one for each
    /// offered group below `n` that stays within the budget.
    pub open spec fn needed_replacements(self, settings: CaptureSettingsView, n: int) -> Seq<
        ReplacementView,
    >
        decreases n,
    {
        if n <= 0 {
            Seq::empty()
        } else {
            let rest = self.needed_replacements(settings, n - 1);
            if n - 1 < self.requested_budget(settings) && self.groups[n - 1].lifecycle
                == GroupLifecycle::Active && self.groups[n - 1].media is Some {
                rest.push(
                    ReplacementView {
                        group_id: (n - 1) as usize,
                        codec: self.groups[n - 1].codec,
                        settings: profile::profile_of_group(settings, (n - 1) as nat),
                    },
                )
            } else {
                rest
            }
        }
    }

    /// The groups once the first `n` started encoders have taken the place of the old ones.
    pub open spec fn with_started(self, started: Seq<StartedGroup>, n: int) -> GroupsView
        decreases n,
    {
        if n <= 0 {
            self
        } else {
            let before = self.with_started(started, n - 1);
            let group_id = started[n - 1].group_id;
            before.with_group(
                group_id,
                GroupView { media: Some(started[n - 1].media), ..before.group(group_id) },
            )
        }
    }

    /// The encoders that the first `n` started ones have replaced.
    pub open spec fn replaced_media(self, started: Seq<StartedGroup>, n: int) -> Seq<u64>
        decreases n,
    {
        if n <= 0 {
            Seq::empty()
        } else {
            let rest = self.replaced_media(started, n - 1);
            match self.with_started(started, n - 1).group(started[n - 1].group_id).media {
                Some(media) => rest.push(media),
                None => rest,
            }
        }
    }
}

proof fn lemma_reconfigured_shape(v: GroupsView, settings: CaptureSettingsView, now: u64)
    requires
        v.wf(),
    ensures
        v.reconfigured(settings, now).wf(),
        v.reconfigured(settings, now).groups.len() == v.groups.len(),
{
    let after = v.reconfigured(settings, now);
    assert(groups::client_ids(after.assignments) =~= groups::client_ids(v.assignments));
    assert forall|i: int| 0 <= i < after.groups.len() implies (#[trigger] after.groups[i]).id
        == i by {
        assert(v.groups[i].id == i);
    }
}

proof fn lemma_started_shape(v: GroupsView, started: Seq<StartedGroup>, n: int)
    requires
        v.wf(),
    ensures
        v.with_started(started, n).wf(),
        v.with_started(started, n).groups.len() == v.groups.len(),
    decreases n,
{
    if n > 0 {
        lemma_started_shape(v, started, n - 1);
    }
}

impl TranscodeGroups {
    fn budget_for(&self, settings: &CaptureSettings) -> (r: usize)
        requires
            self@.wf(),
        ensures
            r == self@.requested_budget(settings@),
            1 <= r <= self.groups@.len(),
    {
        let wanted = profile::requested_groups(settings);
        if wanted <= self.groups.len() {
            wanted
        } else {
            self.groups.len()
        }
    }

    /// Gives every group the profile of new settings.
    fn reprofile(&mut self, settings: &CaptureSettings, replace_active_media: bool) -> (r: Vec<
        MediaUpdate,
    >)
        requires
            old(self)@.wf(),
        ensures
            final(self)@ == old(self)@.reprofiled(settings@),
            groups::update_views(r@) == if replace_active_media {
                Seq::empty()
            } else {
                old(self)@.profile_updates(settings@, old(self)@.groups.len() as int)
            },
    {
        let budget = self.budget_for(settings);
        self.active_budget = budget;
        let mut updates: Vec<MediaUpdate> = Vec::new();
        let ghost goal = old(self)@.reprofiled(settings@);
        let mut i: usize = 0;
        assert(groups::update_views(updates@) =~= Seq::empty());
        while i < self.groups.len()
            invariant
                i <= self.groups@.len(),
                budget == old(self)@.requested_budget(settings@),
                goal == old(self)@.reprofiled(settings@),
                self.groups@.len() == old(self).groups@.len(),
                self.assignments@ == old(self).assignments@,
                self.policy == old(self).policy,
                self.active_budget == budget,
                groups::update_views(updates@) == if replace_active_media {
                    Seq::empty()
                } else {
                    old(self)@.profile_updates(settings@, i as int)
                },
                forall|j: int| 0 <= j < i ==> self@.groups[j] == #[trigger] goal.groups[j],
                forall|j: int|
                    i <= j < self.groups@.len() ==> self@.groups[j]
                        == #[trigger] old(self)@.groups[j],
            decreases self.groups@.len() - i,
        {
            let ghost before = self@.groups;
            assert(before[i as int] == old(self)@.groups[i as int]);
            let group_profile = profile::group_settings(settings, i);
            if !replace_active_media && i < budget {
                if let Some(media) = self.groups[i].media {
                    let ghost earlier = updates@;
                    updates.push(MediaUpdate { media, settings: group_profile.clone() });
                    assert(groups::update_views(updates@) =~= groups::update_views(earlier).push(
                        updates@.last()@,
                    ));
                }
            }
            self.groups[i].settings = group_profile.clone();
            self.groups[i].ceiling = group_profile;
            assert(self@.groups =~= before.update(i as int, goal.groups[i as int]));
            i += 1;
        }
        assert(self@.groups =~= goal.groups);
        updates
    }

    /// Takes new settings over. With `replace_active_media` the encoders are replaced as a whole
    /// by the caller and none is given its profile here.
    pub fn reconfigure(
        &mut self,
        settings: &CaptureSettings,
        replace_active_media: bool,
        now: u64,
    ) -> (r: GroupReconfiguration)
        requires
            old(self)@.wf(),
        ensures
            final(self)@ == old(self)@.reconfigured(settings@, now),
            final(self)@.wf(),
            r.topology_changed == (old(self)@.capacity() != old(self)@.requested_budget(settings@)),
            groups::update_views(r.updates@) == if replace_active_media {
                Seq::empty()
            } else {
                old(self)@.profile_updates(settings@, old(self)@.groups.len() as int)
            },
            r.stopped@ == if old(self)@.requested_budget(settings@) < old(self)@.capacity() {
                old(self)@.media_beyond(
                    old(self)@.requested_budget(settings@),
                    old(self)@.groups.len() as int,
                )
            } else {
                Seq::empty()
            },
    {
        let previous = self.capacity();
        let budget = self.budget_for(settings);
        let updates = self.reprofile(settings, replace_active_media);
        let ghost profiled = self@;
        let ghost goal = old(self)@.reconfigured(settings@, now);
        let mut stopped: Vec<u64> = Vec::new();
        proof {
            lemma_reconfigured_shape(old(self)@, settings@, now);
        }
        if budget < previous {
            let fallback = self.primary_group_id();
            let mut k: usize = 0;
            while k < self.assignments.len()
                invariant
                    k <= self.assignments@.len(),
                    budget == old(self)@.requested_budget(settings@),
                    budget < old(self)@.capacity(),
                    profiled == old(self)@.reprofiled(settings@),
                    goal == old(self)@.reconfigured(settings@, now),
                    fallback == profiled.primary(),
                    self.assignments@.len() == profiled.assignments.len(),
                    self@.groups == profiled.groups,
                    self@.policy == profiled.policy,
                    self@.active_budget == profiled.active_budget,
                    forall|j: int|
                        0 <= j < k ==> self@.assignments[j] == #[trigger] goal.assignments[j],
                    forall|j: int|
                        k <= j < self.assignments@.len() ==> self@.assignments[j]
                            == #[trigger] profiled.assignments[j],
                decreases self.assignments@.len() - k,
            {
                let ghost before = self@.assignments;
                assert(before[k as int] == profiled.assignments[k as int]);
                if self.assignments[k].group_id >= budget {
                    self.assignments[k].group_id = fallback;
                    self.assignments[k].last_change = now;
                    self.assignments[k].reason = "group budget reduced".to_owned();
                }
                assert(self@.assignments =~= before.update(k as int, goal.assignments[k as int]));
                k += 1;
            }
            assert(self@.assignments =~= goal.assignments);
            let mut i: usize = budget;
            assert(stopped@ =~= old(self)@.media_beyond(budget as int, budget as int));
            while i < self.groups.len()
                invariant
                    budget <= i <= self.groups@.len(),
                    budget == old(self)@.requested_budget(settings@),
                    budget < old(self)@.capacity(),
                    profiled == old(self)@.reprofiled(settings@),
                    goal == old(self)@.reconfigured(settings@, now),
                    self.groups@.len() == old(self).groups@.len(),
                    self@.assignments == goal.assignments,
                    self@.policy == goal.policy,
                    self@.active_budget == goal.active_budget,
                    stopped@ == old(self)@.media_beyond(budget as int, i as int),
                    forall|j: int|
                        0 <= j < i ==> self@.groups[j] == #[trigger] goal.groups[j],
                    forall|j: int|
                        i <= j < self.groups@.len() ==> self@.groups[j]
                            == #[trigger] profiled.groups[j],
                decreases self.groups@.len() - i,
            {
                let ghost before = self@.groups;
                assert(before[i as int] == profiled.groups[i as int]);
                if let Some(media) = self.groups[i].media {
                    stopped.push(media);
                }
                self.groups[i].media = None;
                self.groups[i].lifecycle = GroupLifecycle::Stopped;
                self.groups[i].drain_started_at = None;
                assert(self@.groups =~= before.update(i as int, goal.groups[i as int]));
                i += 1;
            }
            assert(self@.groups =~= goal.groups);
        }
        GroupReconfiguration { topology_changed: previous != budget, updates, stopped }
    }

    /// The encoders that have to run before new settings can be taken over. If one of them cannot
    /// be started, nothing is taken over.
    pub fn replacements_for(&self, settings: &CaptureSettings) -> (r: Vec<Replacement>)
        requires
            self@.wf(),
        ensures
            replacement_views(r@) == self@.needed_replacements(
                settings@,
                self@.groups.len() as int,
            ),
    {
        let budget = self.budget_for(settings);
        let mut replacements: Vec<Replacement> = Vec::new();
        let mut i: usize = 0;
        assert(replacement_views(replacements@) =~= Seq::empty());
        while i < self.groups.len()
            invariant
                i <= self.groups@.len(),
                budget == self@.requested_budget(settings@),
                replacement_views(replacements@) == self@.needed_replacements(
                    settings@,
                    i as int,
                ),
            decreases self.groups@.len() - i,
        {
            if i < budget && self.groups[i].lifecycle.is_visible() && self.groups[i].media.is_some() {
                let ghost earlier = replacements@;
                replacements.push(
                    Replacement {
                        group_id: i,
                        codec: self.groups[i].codec.clone(),
                        settings: profile::group_settings(settings, i),
                    },
                );
                assert(replacement_views(replacements@) =~= replacement_views(earlier).push(
                    replacements@.last()@,
                ));
            }
            i += 1;
        }
        replacements
    }

    /// Takes new settings over with the encoders that were started for them. The replaced encoders
    /// are returned among those that stop.
    pub fn commit_restart(
        &mut self,
        settings: &CaptureSettings,
        started: &Vec<StartedGroup>,
        now: u64,
    ) -> (r: GroupReconfiguration)
        requires
            old(self)@.wf(),
        ensures
            final(self)@.wf(),
            ({
                let reconfigured = old(self)@.reconfigured(settings@, now);
                let n = started@.len() as int;
                &&& final(self)@ == reconfigured.with_started(started@, n)
                &&& r.topology_changed == (old(self)@.capacity() != old(self)@.requested_budget(
                    settings@,
                ))
                &&& r.updates@.len() == 0
                &&& r.stopped@ == (if old(self)@.requested_budget(settings@) < old(self)@.capacity() {
                    old(self)@.media_beyond(
                        old(self)@.requested_budget(settings@),
                        old(self)@.groups.len() as int,
                    )
                } else {
                    Seq::empty()
                }) + reconfigured.replaced_media(started@, n)
            }),
    {
        let mut result = self.reconfigure(settings, true, now);
        let ghost reconfigured = self@;
        let ghost beyond = result.stopped@;
        assert(groups::update_views(result.updates@).len() == result.updates@.len());
        let mut k: usize = 0;
        assert(result.stopped@ =~= beyond + reconfigured.replaced_media(started@, 0));
        while k < started.len()
            invariant
                k <= started@.len(),
                self@.wf(),
                reconfigured.wf(),
                self@ == reconfigured.with_started(started@, k as int),
                result.stopped@ == beyond + reconfigured.replaced_media(started@, k as int),
                result.updates@.len() == 0,
                result.topology_changed == (old(self)@.capacity()
                    != old(self)@.requested_budget(settings@)),
            decreases started@.len() - k,
        {
            proof {
                lemma_started_shape(reconfigured, started@, k + 1);
            }
            let ghost before = self@;
            let entry = started[k];
            let at = self.index(entry.group_id);
            if let Some(media) = self.groups[at].media {
                result.stopped.push(media);
            }
            self.groups[at].media = Some(entry.media);
            assert(self@.groups =~= before.with_group(
                entry.group_id,
                GroupView { media: Some(entry.media), ..before.group(entry.group_id) },
            ).groups);
            assert(result.stopped@ =~= beyond + reconfigured.replaced_media(started@, k + 1));
            k += 1;
        }
        result
    }
}

/// The number of groups that a host has, in use or not.
pub const GROUP_SLOTS: usize = 4;

impl TranscodeGroups {
    /// The groups of a host that does not stream yet: each has its profile, and as many are in use
    /// as the settings ask for.
    pub fn cold(settings: &CaptureSettings, codec: &str, policy: Option<CodecPolicy>, now: u64) -> (r:
        Self)
        requires
            now >= ASSIGNMENT_HOLD_NANOS,
        ensures
            r@.wf(),
            r@ == (GroupsView {
                groups: Seq::new(
                    GROUP_SLOTS as nat,
                    |i: int|
                        GroupView {
                            id: i as usize,
                            media: None,
                            codec: codec@,
                            settings: profile::profile_of_group(settings@, i as nat),
                            ceiling: profile::profile_of_group(settings@, i as nat),
                            last_tuned: (now - ASSIGNMENT_HOLD_NANOS) as u64,
                            lifecycle: GroupLifecycle::Stopped,
                            drain_started_at: None,
                        },
                ),
                assignments: Seq::empty(),
                policy: groups::optional_policy(policy),
                active_budget: profile::wanted_groups(settings@),
            }),
    {
        let mut slots: Vec<TranscodeGroup> = Vec::new();
        let mut i: usize = 0;
        while i < GROUP_SLOTS
            invariant
                i <= GROUP_SLOTS,
                now >= ASSIGNMENT_HOLD_NANOS,
                slots@.len() == i,
                forall|j: int|
                    0 <= j < i ==> (#[trigger] slots@[j])@ == (GroupView {
                        id: j as usize,
                        media: None,
                        codec: codec@,
                        settings: profile::profile_of_group(settings@, j as nat),
                        ceiling: profile::profile_of_group(settings@, j as nat),
                        last_tuned: (now - ASSIGNMENT_HOLD_NANOS) as u64,
                        lifecycle: GroupLifecycle::Stopped,
                        drain_started_at: None,
                    }),
            decreases GROUP_SLOTS - i,
        {
            let slot_profile = profile::group_settings(settings, i);
            slots.push(TranscodeGroup::stopped(i, slot_profile, codec, now));
            i += 1;
        }
        assert forall|j: int| 0 <= j < slots@.len() implies (#[trigger] slots@[j]).id == j by {
            assert(slots@[j]@.id == j);
        }
        let mut groups = TranscodeGroups::with_factory(slots, policy);
        groups.active_budget = profile::requested_groups(settings);
        assert(groups@.groups =~= Seq::new(
            GROUP_SLOTS as nat,
            |i: int|
                GroupView {
                    id: i as usize,
                    media: None,
                    codec: codec@,
                    settings: profile::profile_of_group(settings@, i as nat),
                    ceiling: profile::profile_of_group(settings@, i as nat),
                    last_tuned: (now - ASSIGNMENT_HOLD_NANOS) as u64,
                    lifecycle: GroupLifecycle::Stopped,
                    drain_started_at: None,
                },
        ));
        groups
    }
}

/// A host that does not stream offers no group.
pub proof fn lemma_cold_groups_are_hidden(v: GroupsView)
    requires
        forall|i: int|
            0 <= i < v.groups.len() ==> (#[trigger] v.groups[i]).lifecycle
                == GroupLifecycle::Stopped,
    ensures
        v.active_ids().len() == 0,
        v.primary() == 0,
{
    lemma_nothing_active(v, v.groups.len() as int);
    crate::list::lemma_first_missing(0, v.groups.len() as int, |i: int| v.is_active(i));
}

proof fn lemma_nothing_active(v: GroupsView, n: int)
    requires
        n <= v.groups.len(),
        forall|i: int|
            0 <= i < v.groups.len() ==> (#[trigger] v.groups[i]).lifecycle
                == GroupLifecycle::Stopped,
    ensures
        v.active_below(n).len() == 0,
    decreases n,
{
    if n > 0 {
        lemma_nothing_active(v, n - 1);
        assert(v.groups[n - 1].lifecycle == GroupLifecycle::Stopped);
    }
}

/// After new settings no viewer is left in a group beyond the budget, if the budget shrank.
pub proof fn lemma_smaller_budget_moves_viewers(
    v: GroupsView,
    settings: CaptureSettingsView,
    now: u64,
)
    requires
        v.wf(),
        v.requested_budget(settings) < v.capacity(),
    ensures
        ({
            let after = v.reconfigured(settings, now);
            &&& after.capacity() == v.requested_budget(settings)
            &&& forall|k: int|
                0 <= k < after.assignments.len() ==> (#[trigger] after.assignments[k]).group_id
                    < after.capacity()
            &&& forall|i: int|
                after.capacity() <= i < after.groups.len() ==> (#[trigger] after.groups[i]).media
                    is None && after.groups[i].lifecycle == GroupLifecycle::Stopped
        }),
{
    let profiled = v.reprofiled(settings);
    let p = |i: int| profiled.is_active(i);
    crate::list::lemma_first_in_range(0, profiled.groups.len() as int, p);
}

/// New settings give every group its own step of the profile, and use as many groups as they ask for;
/// viewers of groups that stay keep their places.
pub proof fn lemma_new_settings_reach_every_group(
    v: GroupsView,
    settings: CaptureSettingsView,
    now: u64,
    i: int,
    k: int,
)
    requires
        v.wf(),
        0 <= i < v.groups.len(),
        0 <= k < v.assignments.len(),
    ensures
        ({
            let after = v.reconfigured(settings, now);
            &&& after.groups.len() == v.groups.len()
            &&& after.groups[i].settings == profile::profile_of_group(settings, i as nat)
            &&& after.groups[i].ceiling == profile::profile_of_group(settings, i as nat)
            &&& after.groups[i].codec == v.groups[i].codec
            &&& i < v.requested_budget(settings) ==> after.groups[i].media == v.groups[i].media
                && after.groups[i].lifecycle == v.groups[i].lifecycle
            &&& profile::wanted_groups(settings) <= v.groups.len() && profile::wanted_groups(
                settings,
            ) >= 1 ==> after.capacity() == profile::wanted_groups(settings)
            &&& v.assignments[k].group_id < v.requested_budget(settings) ==> after.assignments[k]
                == v.assignments[k]
            &&& after.assignments[k].client_id == v.assignments[k].client_id
        }),
{
}

/// Every encoder that runs for a group in use is replaced by one of the same codec for the group's new
/// profile.
pub proof fn lemma_running_groups_are_replaced(
    v: GroupsView,
    settings: CaptureSettingsView,
    n: int,
    i: int,
)
    requires
        v.wf(),
        0 <= i < n <= v.groups.len(),
        i < v.requested_budget(settings),
        v.groups[i].lifecycle == GroupLifecycle::Active,
        v.groups[i].media is Some,
    ensures
        exists|k: int|
            0 <= k < v.needed_replacements(settings, n).len() && (#[trigger] v.needed_replacements(
                settings,
                n,
            )[k]) == (ReplacementView {
                group_id: i as usize,
                codec: v.groups[i].codec,
                settings: profile::profile_of_group(settings, i as nat),
            }),
    decreases n,
{
    let all = v.needed_replacements(settings, n);
    let rest = v.needed_replacements(settings, n - 1);
    if i < n - 1 {
        lemma_running_groups_are_replaced(v, settings, n - 1, i);
        let k = choose|k: int|
            0 <= k < rest.len() && (#[trigger] rest[k]) == (ReplacementView {
                group_id: i as usize,
                codec: v.groups[i].codec,
                settings: profile::profile_of_group(settings, i as nat),
            });
        assert(all[k] == rest[k]);
    } else {
        assert(all[rest.len() as int].group_id == i);
    }
}

/// An encoder that was started for a group is the one that it has afterwards, and the one that it had
/// is stopped.
pub proof fn lemma_started_encoder_takes_over(
    v: GroupsView,
    started: Seq<StartedGroup>,
    n: int,
)
    requires
        v.wf(),
        0 < n <= started.len(),
        started[n - 1].group_id < v.groups.len(),
    ensures
        ({
            let last = started[n - 1];
            let before = v.with_started(started, n - 1);
            let after = v.with_started(started, n);
            &&& before.groups.len() == v.groups.len()
            &&& after.groups.len() == v.groups.len()
            &&& after.groups[last.group_id as int].media == Some(last.media)
            &&& before.groups[last.group_id as int].media is Some ==> v.replaced_media(
                started,
                n,
            ).len() > 0 && v.replaced_media(started, n).last()
                == before.groups[last.group_id as int].media->0
            &&& forall|j: int|
                0 <= j < v.groups.len() && j != last.group_id ==> (#[trigger] after.groups[j])
                    == before.groups[j]
        }),
{
    lemma_started_keeps_length(v, started, n - 1);
}

proof fn lemma_started_keeps_length(v: GroupsView, started: Seq<StartedGroup>, n: int)
    requires
        v.groups.len() > 0,
        n <= started.len(),
    ensures
        v.with_started(started, n).groups.len() == v.groups.len(),
    decreases n,
{
    if n > 0 {
        lemma_started_keeps_length(v, started, n - 1);
    }
}

} // verus!
