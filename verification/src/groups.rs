//! Quality groups: encoders that viewers share, and which viewer belongs to which of them.
//!
//! The program runs the encoders. Here a running encoder is a number, its handle; what has to be
//! done with encoders is returned to the program, and what came of it is handed back.

use vstd::prelude::*;

use crate::config;
use crate::config::clone_texts;
use crate::list;
use crate::media::{CaptureSettings, CaptureSettingsView};
use crate::text;

pub mod codecs;
pub mod decisions;
pub mod joining;
pub mod laws;
pub mod maintenance;
pub mod observing;
pub mod reconfiguration;
pub mod report;
pub mod tuning;

verus! {

/// How long an assignment stands before it is reconsidered.
pub const ASSIGNMENT_HOLD_NANOS: u64 = 30_000_000_000;

/// The age that a first assignment is given, so that it can be reconsidered at once.
pub const INITIAL_ASSIGNMENT_AGE_NANOS: u64 = 31_000_000_000;

/// How long a tuned group stands before it is tuned again.
pub const TUNING_HOLD_NANOS: u64 = 10_000_000_000;

/// How long an empty group is kept before its encoder stops.
pub const DRAIN_GRACE_NANOS: u64 = 12_000_000_000;

#[derive(Clone, Copy, Debug, PartialEq, Eq, Structural)]
pub enum GroupLifecycle {
    Stopped,
    Active,
    Draining,
}

impl GroupLifecycle {
    pub fn is_visible(self) -> (r: bool)
        ensures
            r == (self == GroupLifecycle::Active),
    {
        match self {
            GroupLifecycle::Active => true,
            GroupLifecycle::Stopped => false,
            GroupLifecycle::Draining => false,
        }
    }

    pub open spec fn state_name(self) -> Seq<char> {
        match self {
            GroupLifecycle::Stopped => "stopped"@,
            GroupLifecycle::Active => "stable"@,
            GroupLifecycle::Draining => "draining"@,
        }
    }

    pub fn client_state(self) -> (r: &'static str)
        ensures
            r@ == self.state_name(),
    {
        match self {
            GroupLifecycle::Stopped => "stopped",
            GroupLifecycle::Active => "stable",
            GroupLifecycle::Draining => "draining",
        }
    }
}

/// One quality group and the handle of its encoder, if it runs.
#[derive(Debug)]
pub struct TranscodeGroup {
    pub id: usize,
    pub media: Option<u64>,
    pub codec: String,
    pub settings: CaptureSettings,
    pub ceiling: CaptureSettings,
    pub last_tuned: u64,
    pub lifecycle: GroupLifecycle,
    pub drain_started_at: Option<u64>,
}

#[verifier::ext_equal]
pub struct GroupView {
    pub id: usize,
    pub media: Option<u64>,
    pub codec: Seq<char>,
    pub settings: CaptureSettingsView,
    pub ceiling: CaptureSettingsView,
    pub last_tuned: u64,
    pub lifecycle: GroupLifecycle,
    pub drain_started_at: Option<u64>,
}

impl View for TranscodeGroup {
    type V = GroupView;

    open spec fn view(&self) -> GroupView {
        GroupView {
            id: self.id,
            media: self.media,
            codec: self.codec@,
            settings: self.settings@,
            ceiling: self.ceiling@,
            last_tuned: self.last_tuned,
            lifecycle: self.lifecycle,
            drain_started_at: self.drain_started_at,
        }
    }
}

impl TranscodeGroup {
    pub fn active(id: usize, media: u64, codec: &str, settings: CaptureSettings, now: u64) -> (r:
        Self)
        requires
            now >= ASSIGNMENT_HOLD_NANOS,
        ensures
            r@ == (GroupView {
                id,
                media: Some(media),
                codec: codec@,
                settings: settings@,
                ceiling: settings@,
                last_tuned: (now - ASSIGNMENT_HOLD_NANOS) as u64,
                lifecycle: GroupLifecycle::Active,
                drain_started_at: None,
            }),
    {
        TranscodeGroup {
            id,
            media: Some(media),
            codec: codec.to_owned(),
            ceiling: settings.clone(),
            settings,
            last_tuned: now - ASSIGNMENT_HOLD_NANOS,
            lifecycle: GroupLifecycle::Active,
            drain_started_at: None,
        }
    }

    pub fn stopped(id: usize, settings: CaptureSettings, codec: &str, now: u64) -> (r: Self)
        requires
            now >= ASSIGNMENT_HOLD_NANOS,
        ensures
            r@ == (GroupView {
                id,
                media: None,
                codec: codec@,
                settings: settings@,
                ceiling: settings@,
                last_tuned: (now - ASSIGNMENT_HOLD_NANOS) as u64,
                lifecycle: GroupLifecycle::Stopped,
                drain_started_at: None,
            }),
    {
        TranscodeGroup {
            id,
            media: None,
            codec: codec.to_owned(),
            ceiling: settings.clone(),
            settings,
            last_tuned: now - ASSIGNMENT_HOLD_NANOS,
            lifecycle: GroupLifecycle::Stopped,
            drain_started_at: None,
        }
    }
}

/// A viewer's place among the groups.
#[derive(Debug)]
pub struct ClientGroupState {
    pub client_id: String,
    pub group_id: usize,
    pub last_change: u64,
    pub reason: String,
    pub supported_codecs: Vec<String>,
    pub rejected_codecs: Vec<String>,
}

#[verifier::ext_equal]
pub struct ClientView {
    pub client_id: Seq<char>,
    pub group_id: usize,
    pub last_change: u64,
    pub reason: Seq<char>,
    pub supported_codecs: Seq<Seq<char>>,
    pub rejected_codecs: Seq<Seq<char>>,
}

impl View for ClientGroupState {
    type V = ClientView;

    open spec fn view(&self) -> ClientView {
        ClientView {
            client_id: self.client_id@,
            group_id: self.group_id,
            last_change: self.last_change,
            reason: self.reason@,
            supported_codecs: config::texts(self.supported_codecs@),
            rejected_codecs: config::texts(self.rejected_codecs@),
        }
    }
}

/// What the host can encode, and which codec it prefers. Without it no encoder can be started.
#[derive(Debug)]
pub struct CodecPolicy {
    pub codec_policy: String,
    pub host_codecs: Vec<String>,
}

pub struct PolicyView {
    pub codec_policy: Seq<char>,
    pub host_codecs: Seq<Seq<char>>,
}

impl View for CodecPolicy {
    type V = PolicyView;

    open spec fn view(&self) -> PolicyView {
        PolicyView {
            codec_policy: self.codec_policy@,
            host_codecs: config::texts(self.host_codecs@),
        }
    }
}

/// The groups of a host and the viewers in them.
#[derive(Debug)]
pub struct TranscodeGroups {
    pub groups: Vec<TranscodeGroup>,
    pub assignments: Vec<ClientGroupState>,
    pub policy: Option<CodecPolicy>,
    /// The configured upper budget. Groups beyond it are kept but not used.
    pub active_budget: usize,
}

pub open spec fn group_views(groups: Seq<TranscodeGroup>) -> Seq<GroupView> {
    groups.map_values(|g: TranscodeGroup| g@)
}

pub open spec fn client_views(clients: Seq<ClientGroupState>) -> Seq<ClientView> {
    clients.map_values(|c: ClientGroupState| c@)
}

pub open spec fn client_ids(clients: Seq<ClientView>) -> Seq<Seq<char>> {
    clients.map_values(|c: ClientView| c.client_id)
}

pub open spec fn optional_policy(policy: Option<CodecPolicy>) -> Option<PolicyView> {
    match policy {
        Some(policy) => Some(policy@),
        None => None,
    }
}

#[verifier::ext_equal]
pub struct GroupsView {
    pub groups: Seq<GroupView>,
    pub assignments: Seq<ClientView>,
    pub policy: Option<PolicyView>,
    pub active_budget: usize,
}

impl View for TranscodeGroups {
    type V = GroupsView;

    open spec fn view(&self) -> GroupsView {
        GroupsView {
            groups: group_views(self.groups@),
            assignments: client_views(self.assignments@),
            policy: optional_policy(self.policy),
            active_budget: self.active_budget,
        }
    }
}

/// A viewer's group and why it is in it. `restart` asks the viewer to connect anew.
#[derive(Debug)]
pub struct GroupAssignment {
    pub group_id: usize,
    pub reason: String,
    pub restart: bool,
}

pub struct AssignmentView {
    pub group_id: usize,
    pub reason: Seq<char>,
    pub restart: bool,
}

impl View for GroupAssignment {
    type V = AssignmentView;

    open spec fn view(&self) -> AssignmentView {
        AssignmentView { group_id: self.group_id, reason: self.reason@, restart: self.restart }
    }
}

impl GroupsView {
    /// There is a group, every group stands at the place of its number, and no viewer has two
    /// places.
    pub open spec fn wf(self) -> bool {
        &&& 0 < self.groups.len() <= usize::MAX
        &&& forall|i: int| 0 <= i < self.groups.len() ==> (#[trigger] self.groups[i]).id == i
        &&& list::distinct(client_ids(self.assignments))
    }

    /// The number of groups in use: the budget, but at least one and not more than there are.
    pub open spec fn capacity(self) -> int {
        let groups = if self.groups.len() >= 1 {
            self.groups.len() as int
        } else {
            1
        };
        if self.active_budget < 1 {
            1
        } else if self.active_budget > groups {
            groups
        } else {
            self.active_budget as int
        }
    }

    /// Whether a group is offered to viewers.
    pub open spec fn is_active(self, i: int) -> bool {
        &&& 0 <= i < self.groups.len()
        &&& i < self.capacity()
        &&& self.groups[i].lifecycle == GroupLifecycle::Active
        &&& self.groups[i].media is Some
    }

    /// The groups below `n` that are offered to viewers.
    pub open spec fn active_below(self, n: int) -> Seq<usize>
        decreases n,
    {
        if n <= 0 {
            Seq::empty()
        } else {
            let rest = self.active_below(n - 1);
            if self.is_active(n - 1) {
                rest.push((n - 1) as usize)
            } else {
                rest
            }
        }
    }

    /// The groups that are offered to viewers, in order.
    pub open spec fn active_ids(self) -> Seq<usize> {
        self.active_below(self.groups.len() as int)
    }

    /// The first group that is offered to viewers, or the first of all.
    pub open spec fn primary(self) -> usize {
        match list::first_in(0, self.groups.len() as int, |i: int| self.is_active(i)) {
            Some(i) => i as usize,
            None => 0,
        }
    }

    /// The encoders that run within the budget, among the groups below `n`.
    pub open spec fn resources_below(self, n: int) -> nat
        decreases n,
    {
        if n <= 0 {
            0
        } else {
            self.resources_below(n - 1) + if n - 1 < self.capacity() && self.groups[n
                - 1].media is Some {
                1nat
            } else {
                0nat
            }
        }
    }

    /// The place of a group; numbers beyond the last group stand for the last one.
    pub open spec fn at(self, group_id: usize) -> int {
        if group_id < self.groups.len() {
            group_id as int
        } else {
            self.groups.len() - 1
        }
    }

    pub open spec fn group(self, group_id: usize) -> GroupView {
        self.groups[self.at(group_id)]
    }

    pub open spec fn client_at(self, client: Seq<char>) -> int {
        list::position(client_ids(self.assignments), client)
    }

    pub open spec fn knows(self, client: Seq<char>) -> bool {
        self.client_at(client) < self.assignments.len()
    }

    /// A group's codec agrees with a name, in any case.
    pub open spec fn speaks(self, i: int, codec: Seq<char>) -> bool {
        text::ascii_lower(self.groups[i].codec) == text::ascii_lower(codec)
    }

    pub open spec fn with_group(self, group_id: usize, group: GroupView) -> GroupsView {
        GroupsView { groups: self.groups.update(self.at(group_id), group), ..self }
    }

    pub open spec fn with_client(self, client: ClientView) -> GroupsView {
        GroupsView {
            assignments: list::put(self.assignments, self.client_at(client.client_id), client),
            ..self
        }
    }

    /// The state of a viewer, or that of a new one.
    pub open spec fn client_or_new(
        self,
        client: Seq<char>,
        last_change: u64,
        reason: Seq<char>,
        group_id: usize,
    ) -> ClientView {
        if self.knows(client) {
            self.assignments[self.client_at(client)]
        } else {
            ClientView {
                client_id: client,
                group_id,
                last_change,
                reason,
                supported_codecs: Seq::empty(),
                rejected_codecs: Seq::empty(),
            }
        }
    }

    /// The state of a viewer who is looked up: a new one joins the primary group, and so does one
    /// whose group is no longer offered.
    pub open spec fn settled_client(self, client: Seq<char>, now: u64) -> ClientView {
        let state = self.client_or_new(
            client,
            (now - INITIAL_ASSIGNMENT_AGE_NANOS) as u64,
            "initial assignment"@,
            self.primary(),
        );
        if self.is_active(state.group_id as int) {
            state
        } else {
            ClientView {
                group_id: self.primary(),
                last_change: now,
                reason: "active group fallback"@,
                ..state
            }
        }
    }

    /// An encoder with the given handle runs in a group.
    pub open spec fn installed(self, group_id: usize, media: u64) -> GroupsView {
        self.with_group(
            group_id,
            GroupView {
                media: Some(media),
                lifecycle: GroupLifecycle::Active,
                drain_started_at: None,
                ..self.group(group_id)
            },
        )
    }

    /// The first encoder of a stream runs in the first group.
    pub open spec fn primary_installed(self, media: u64) -> GroupsView {
        self.with_group(
            0,
            GroupView {
                media: Some(media),
                lifecycle: GroupLifecycle::Active,
                ..self.group(0)
            },
        )
    }

    /// A group without an encoder is given a codec and a profile.
    pub open spec fn configured(
        self,
        group_id: usize,
        codec: Seq<char>,
        settings: CaptureSettingsView,
        ceiling: CaptureSettingsView,
    ) -> GroupsView {
        if self.group(group_id).media is Some {
            self
        } else {
            self.with_group(
                group_id,
                GroupView { codec, settings, ceiling, ..self.group(group_id) },
            )
        }
    }
}

/// Whether an encoder for a group runs or has to be started.
#[derive(Clone, Copy, Debug, PartialEq, Eq, Structural)]
pub enum Activation {
    Running(u64),
    Start,
    Unavailable,
}

impl TranscodeGroups {
    /// Groups without viewers, all of them in use.
    pub fn with_factory(groups: Vec<TranscodeGroup>, policy: Option<CodecPolicy>) -> (r: Self)
        requires
            groups@.len() > 0,
            forall|i: int| 0 <= i < groups@.len() ==> (#[trigger] groups@[i]).id == i,
        ensures
            r@ == (GroupsView {
                groups: group_views(groups@),
                assignments: Seq::empty(),
                policy: optional_policy(policy),
                active_budget: groups@.len() as usize,
            }),
            r@.wf(),
    {
        let active_budget: usize = groups.len();
        let r = TranscodeGroups { groups, assignments: Vec::new(), policy, active_budget };
        assert(r@.assignments =~= Seq::empty());
        assert forall|i: int| 0 <= i < r@.groups.len() implies (#[trigger] r@.groups[i]).id == i by {
            assert(groups@[i].id == i);
        }
        r
    }

    pub fn capacity(&self) -> (r: usize)
        ensures
            r == self@.capacity(),
            r >= 1,
            self@.wf() ==> r <= self.groups@.len(),
    {
        let groups: usize = if self.groups.len() >= 1 {
            self.groups.len()
        } else {
            1
        };
        if self.active_budget < 1 {
            1
        } else if self.active_budget > groups {
            groups
        } else {
            self.active_budget
        }
    }

    /// Whether a group is offered to viewers.
    pub fn group_is_active(&self, i: usize) -> (r: bool)
        ensures
            r == self@.is_active(i as int),
    {
        i < self.groups.len() && i < self.capacity() && self.groups[i].lifecycle.is_visible()
            && self.groups[i].media.is_some()
    }

    pub fn active_group_ids(&self) -> (r: Vec<usize>)
        ensures
            r@ == self@.active_ids(),
            forall|k: int| 0 <= k < r@.len() ==> self@.is_active(#[trigger] r@[k] as int),
    {
        let mut ids: Vec<usize> = Vec::new();
        let mut i: usize = 0;
        while i < self.groups.len()
            invariant
                i <= self.groups@.len(),
                ids@ == self@.active_below(i as int),
                forall|k: int| 0 <= k < ids@.len() ==> self@.is_active(#[trigger] ids@[k] as int),
            decreases self.groups@.len() - i,
        {
            if self.group_is_active(i) {
                ids.push(i);
            }
            i += 1;
        }
        ids
    }

    /// The number of groups that are offered to viewers.
    pub fn count(&self) -> (r: usize)
        ensures
            r == self@.active_ids().len(),
    {
        self.active_group_ids().len()
    }

    /// The number of encoders that run within the budget.
    pub fn resource_count(&self) -> (r: usize)
        ensures
            r == self@.resources_below(self.groups@.len() as int),
    {
        let capacity = self.capacity();
        let mut count: usize = 0;
        let mut i: usize = 0;
        while i < self.groups.len()
            invariant
                i <= self.groups@.len(),
                count <= i,
                capacity == self@.capacity(),
                count == self@.resources_below(i as int),
            decreases self.groups@.len() - i,
        {
            if i < capacity && self.groups[i].media.is_some() {
                count += 1;
            }
            i += 1;
        }
        count
    }

    pub fn primary_group_id(&self) -> (r: usize)
        ensures
            r == self@.primary(),
            self@.wf() ==> r < self.groups@.len(),
    {
        let ghost p = |i: int| self@.is_active(i);
        let mut i: usize = 0;
        while i < self.groups.len()
            invariant
                i <= self.groups@.len(),
                p == (|i: int| self@.is_active(i)),
                forall|j: int| 0 <= j < i ==> !#[trigger] p(j),
            decreases self.groups@.len() - i,
        {
            if self.group_is_active(i) {
                proof {
                    list::lemma_first_found(0, self@.groups.len() as int, p, i as int);
                }
                return i;
            }
            assert(!p(i as int));
            i += 1;
        }
        proof {
            list::lemma_first_missing(0, self@.groups.len() as int, p);
        }
        0
    }

    fn index(&self, group_id: usize) -> (r: usize)
        requires
            self.groups@.len() > 0,
        ensures
            r == self@.at(group_id),
            r < self.groups@.len(),
    {
        if group_id < self.groups.len() {
            group_id
        } else {
            self.groups.len() - 1
        }
    }

    fn client_index(&self, client_id: &str) -> (r: usize)
        ensures
            r == self@.client_at(client_id@),
            r <= self.assignments@.len(),
    {
        let ghost ids = client_ids(self@.assignments);
        let mut i: usize = 0;
        while i < self.assignments.len()
            invariant
                i <= self.assignments@.len(),
                ids == client_ids(self@.assignments),
                forall|j: int| 0 <= j < i ==> ids[j] != client_id@,
            decreases self.assignments@.len() - i,
        {
            if text::text_eq(self.assignments[i].client_id.as_str(), client_id) {
                proof {
                    list::lemma_position_found(ids, client_id@, i as int);
                }
                return i;
            }
            i += 1;
        }
        proof {
            list::lemma_position_missing(ids, client_id@);
        }
        i
    }

    /// Stores the state of a viewer at its place.
    fn store_client(&mut self, at: usize, client: ClientGroupState)
        requires
            at == old(self)@.client_at(client@.client_id),
        ensures
            final(self)@ == old(self)@.with_client(client@),
            old(self)@.wf() ==> final(self)@.wf(),
            final(self).groups@ == old(self).groups@,
    {
        proof {
            list::lemma_position(client_ids(self@.assignments), client@.client_id);
        }
        if at < self.assignments.len() {
            self.assignments.set(at, client);
        } else {
            self.assignments.push(client);
        }
        assert(self@.assignments =~= list::put(old(self)@.assignments, at as int, client@));
        proof {
            let keys = client_ids(old(self)@.assignments);
            assert(client_ids(self@.assignments) =~= list::put(
                keys,
                at as int,
                client@.client_id,
            ));
            if old(self)@.wf() {
                list::lemma_put_keeps_distinct(keys, client@.client_id);
            }
        }
    }

    fn clone_client(&self, at: usize) -> (r: ClientGroupState)
        requires
            at < self.assignments@.len(),
        ensures
            r@ == self@.assignments[at as int],
    {
        let state = &self.assignments[at];
        ClientGroupState {
            client_id: state.client_id.clone(),
            group_id: state.group_id,
            last_change: state.last_change,
            reason: state.reason.clone(),
            supported_codecs: clone_texts(&state.supported_codecs),
            rejected_codecs: clone_texts(&state.rejected_codecs),
        }
    }

    fn client_state(
        &self,
        at: usize,
        client_id: &str,
        last_change: u64,
        reason: &str,
        group_id: usize,
    ) -> (r: ClientGroupState)
        requires
            at == self@.client_at(client_id@),
        ensures
            r@ == self@.client_or_new(client_id@, last_change, reason@, group_id),
            r@.client_id == client_id@,
    {
        proof {
            list::lemma_position(client_ids(self@.assignments), client_id@);
        }
        if at < self.assignments.len() {
            let state = self.clone_client(at);
            assert(client_ids(self@.assignments)[at as int] == client_id@);
            state
        } else {
            let state = ClientGroupState {
                client_id: client_id.to_owned(),
                group_id,
                last_change,
                reason: reason.to_owned(),
                supported_codecs: Vec::new(),
                rejected_codecs: Vec::new(),
            };
            assert(state@.supported_codecs =~= Seq::empty());
            assert(state@.rejected_codecs =~= Seq::empty());
            state
        }
    }

    /// Gives a viewer a place among the groups that are offered.
    pub fn ensure_client(&mut self, client_id: &str, now: u64) -> (r: GroupAssignment)
        requires
            old(self)@.wf(),
            now >= INITIAL_ASSIGNMENT_AGE_NANOS,
        ensures
            final(self)@ == old(self)@.with_client(
                old(self)@.settled_client(client_id@, now),
            ),
            final(self)@.wf(),
            r@ == (AssignmentView {
                group_id: old(self)@.settled_client(client_id@, now).group_id,
                reason: old(self)@.settled_client(client_id@, now).reason,
                restart: false,
            }),
    {
        let fallback = self.primary_group_id();
        let at = self.client_index(client_id);
        let mut state = self.client_state(
            at,
            client_id,
            now - INITIAL_ASSIGNMENT_AGE_NANOS,
            "initial assignment",
            fallback,
        );
        if !self.group_is_active(state.group_id) {
            state.group_id = fallback;
            state.last_change = now;
            state.reason = "active group fallback".to_owned();
        }
        let assignment = GroupAssignment {
            group_id: state.group_id,
            reason: state.reason.clone(),
            restart: false,
        };
        self.store_client(at, state);
        assignment
    }

    pub fn assignment_for(&mut self, client_id: &str, now: u64) -> (r: GroupAssignment)
        requires
            old(self)@.wf(),
            now >= INITIAL_ASSIGNMENT_AGE_NANOS,
        ensures
            final(self)@ == old(self)@.with_client(
                old(self)@.settled_client(client_id@, now),
            ),
            final(self)@.wf(),
            r@ == (AssignmentView {
                group_id: old(self)@.settled_client(client_id@, now).group_id,
                reason: old(self)@.settled_client(client_id@, now).reason,
                restart: false,
            }),
    {
        self.ensure_client(client_id, now)
    }

    /// The codec of a viewer's group.
    pub fn codec_for_client(&self, client_id: &str) -> (r: Option<String>)
        requires
            self@.wf(),
        ensures
            match r {
                Some(codec) => self@.knows(client_id@) && codec@ == self@.group(
                    self@.assignments[self@.client_at(client_id@)].group_id,
                ).codec,
                None => !self@.knows(client_id@),
            },
    {
        let at = self.client_index(client_id);
        if at < self.assignments.len() {
            let group = self.index(self.assignments[at].group_id);
            Some(self.groups[group].codec.clone())
        } else {
            None
        }
    }

    /// The handle of a group's encoder.
    pub fn media_by_id(&self, group_id: usize) -> (r: Option<u64>)
        requires
            self@.wf(),
        ensures
            r == self@.group(group_id).media,
    {
        self.groups[self.index(group_id)].media
    }

    pub fn group_settings(&self, group_id: usize) -> (r: CaptureSettings)
        requires
            self@.wf(),
        ensures
            r@ == self@.group(group_id).settings,
    {
        self.groups[self.index(group_id)].settings.clone()
    }

    pub fn group_codec(&self, group_id: usize) -> (r: String)
        requires
            self@.wf(),
        ensures
            r@ == self@.group(group_id).codec,
    {
        self.groups[self.index(group_id)].codec.clone()
    }

    /// Whether a group's encoder runs, or has to be started for viewers to join it.
    pub fn activation(&self, group_id: usize) -> (r: Activation)
        requires
            self@.wf(),
        ensures
            r == match self@.group(group_id).media {
                Some(media) => Activation::Running(media),
                None => if self@.policy is Some {
                    Activation::Start
                } else {
                    Activation::Unavailable
                },
            },
    {
        match self.groups[self.index(group_id)].media {
            Some(media) => Activation::Running(media),
            None => if self.policy.is_some() {
                Activation::Start
            } else {
                Activation::Unavailable
            },
        }
    }

    /// Notes that the encoder of a group was started.
    pub fn install(&mut self, group_id: usize, media: u64)
        requires
            old(self)@.wf(),
        ensures
            final(self)@ == old(self)@.installed(group_id, media),
            final(self)@.wf(),
    {
        let at = self.index(group_id);
        self.groups[at].media = Some(media);
        self.groups[at].lifecycle = GroupLifecycle::Active;
        self.groups[at].drain_started_at = None;
        assert(self@.groups =~= old(self)@.installed(group_id, media).groups);
    }

    /// Notes that the first encoder of a stream was started.
    pub fn install_primary(&mut self, media: u64)
        requires
            old(self)@.wf(),
        ensures
            final(self)@ == old(self)@.primary_installed(media),
            final(self)@.wf(),
    {
        self.groups[0].media = Some(media);
        self.groups[0].lifecycle = GroupLifecycle::Active;
        assert(self@.groups =~= old(self)@.primary_installed(media).groups);
    }

    /// Gives a group another profile. The handle of its encoder, if it runs, is returned: that
    /// encoder is to be given the profile too.
    pub fn set_group_profile(&mut self, group_id: usize, settings: CaptureSettings) -> (r: Option<
        u64,
    >)
        requires
            old(self)@.wf(),
        ensures
            final(self)@ == old(self)@.with_group(
                group_id,
                GroupView { settings: settings@, ..old(self)@.group(group_id) },
            ),
            final(self)@.wf(),
            r == old(self)@.group(group_id).media,
    {
        let at = self.index(group_id);
        self.groups[at].settings = settings;
        assert(self@.groups =~= old(self)@.with_group(
            group_id,
            GroupView { settings: settings@, ..old(self)@.group(group_id) },
        ).groups);
        self.groups[at].media
    }

    /// Gives a group without an encoder a codec and a profile.
    pub fn configure_stopped_group(
        &mut self,
        group_id: usize,
        codec: &str,
        settings: CaptureSettings,
        profile_ceiling: CaptureSettings,
    ) -> (r: bool)
        requires
            old(self)@.wf(),
        ensures
            final(self)@ == old(self)@.configured(
                group_id,
                codec@,
                settings@,
                profile_ceiling@,
            ),
            final(self)@.wf(),
            r == (old(self)@.group(group_id).media is None),
    {
        let at = self.index(group_id);
        if self.groups[at].media.is_some() {
            return false;
        }
        self.groups[at].settings = settings;
        self.groups[at].ceiling = profile_ceiling;
        self.groups[at].codec = codec.to_owned();
        assert(self@.groups =~= old(self)@.configured(
            group_id,
            codec@,
            settings@,
            profile_ceiling@,
        ).groups);
        true
    }

    /// Forgets a viewer.
    pub fn remove_client(&mut self, client_id: &str)
        requires
            old(self)@.wf(),
        ensures
            final(self)@ == (GroupsView {
                assignments: list::without(
                    old(self)@.assignments,
                    old(self)@.client_at(client_id@),
                ),
                ..old(self)@
            }),
            final(self)@.wf(),
            !final(self)@.knows(client_id@),
    {
        let at = self.client_index(client_id);
        if at < self.assignments.len() {
            let _ = self.assignments.remove(at);
        }
        assert(self@.assignments =~= list::without(old(self)@.assignments, at as int));
        proof {
            let keys = client_ids(old(self)@.assignments);
            assert(client_ids(self@.assignments) =~= list::without(keys, at as int));
            list::lemma_without_keeps_distinct(keys, client_id@);
            list::lemma_position(client_ids(self@.assignments), client_id@);
        }
    }

    /// Forgets every viewer of a list.
    pub fn remove_clients(&mut self, ids: &Vec<String>)
        requires
            old(self)@.wf(),
        ensures
            final(self)@ == (GroupsView {
                assignments: list::kept(
                    old(self)@.assignments,
                    |c: ClientView| !config::texts(ids@).contains(c.client_id),
                ),
                ..old(self)@
            }),
            final(self)@.wf(),
    {
        let ghost before = self@.assignments;
        let ghost stays = |c: ClientView| !config::texts(ids@).contains(c.client_id);
        let ghost mut seen: int = 0;
        let mut i: usize = 0;
        assert(list::kept(before.take(0), stays) + before.skip(0) =~= before);
        while i < self.assignments.len()
            invariant
                stays == (|c: ClientView| !config::texts(ids@).contains(c.client_id)),
                before == old(self)@.assignments,
                0 <= seen <= before.len(),
                i == list::kept(before.take(seen), stays).len(),
                self@.assignments == list::kept(before.take(seen), stays) + before.skip(seen),
                self@.groups == old(self)@.groups,
                self@.policy == old(self)@.policy,
                self@.active_budget == old(self)@.active_budget,
            decreases self.assignments@.len() - i,
        {
            let ghost front = list::kept(before.take(seen), stays);
            let ghost all = self@.assignments;
            assert(seen < before.len());
            assert(all[i as int] == before[seen]);
            assert(before.take(seen + 1).drop_last() =~= before.take(seen));
            assert(self.assignments@[i as int].client_id@ == before[seen].client_id);
            if codecs::contains_codec(ids, self.assignments[i].client_id.as_str()) {
                let _ = self.assignments.remove(i);
                assert(self@.assignments =~= all.remove(i as int));
                assert(self@.assignments =~= front + before.skip(seen + 1));
            } else {
                i += 1;
                assert(self@.assignments =~= front.push(before[seen]) + before.skip(seen + 1));
            }
            proof {
                seen = seen + 1;
            }
        }
        proof {
            assert(before.skip(seen).len() == 0);
            assert(before.take(seen) =~= before);
            assert(self@.assignments =~= list::kept(before, stays));
            lemma_kept_keeps_distinct(before, stays);
        }
    }

    /// Takes every encoder out of its group. The handles are returned for the program to stop, and
    /// are no longer reachable from here: what is installed later is not stopped with them.
    pub fn detach_all_media(&mut self) -> (r: Vec<u64>)
        requires
            old(self)@.wf(),
        ensures
            final(self)@ == (GroupsView {
                groups: old(self)@.groups.map_values(
                    |g: GroupView|
                        GroupView { media: None, lifecycle: GroupLifecycle::Stopped, ..g },
                ),
                ..old(self)@
            }),
            final(self)@.wf(),
            r@ == running_media(old(self)@.groups),
    {
        let ghost stopped = |g: GroupView|
            GroupView { media: None, lifecycle: GroupLifecycle::Stopped, ..g };
        let mut handles: Vec<u64> = Vec::new();
        let mut i: usize = 0;
        while i < self.groups.len()
            invariant
                i <= self.groups@.len(),
                self.groups@.len() == old(self).groups@.len(),
                self.assignments@ == old(self).assignments@,
                self.policy == old(self).policy,
                self.active_budget == old(self).active_budget,
                stopped == (|g: GroupView|
                    GroupView { media: None, lifecycle: GroupLifecycle::Stopped, ..g }),
                handles@ == running_media(old(self)@.groups.take(i as int)),
                forall|j: int|
                    0 <= j < i ==> self@.groups[j] == stopped(#[trigger] old(self)@.groups[j]),
                forall|j: int|
                    i <= j < self.groups@.len() ==> self@.groups[j]
                        == #[trigger] old(self)@.groups[j],
            decreases self.groups@.len() - i,
        {
            let ghost before = self@.groups;
            assert(before[i as int] == old(self)@.groups[i as int]);
            assert(old(self)@.groups.take(i + 1).drop_last() =~= old(self)@.groups.take(i as int));
            if let Some(media) = self.groups[i].media {
                handles.push(media);
            }
            self.groups[i].media = None;
            self.groups[i].lifecycle = GroupLifecycle::Stopped;
            assert(self@.groups =~= before.update(i as int, stopped(before[i as int])));
            i += 1;
        }
        assert(old(self)@.groups.take(i as int) =~= old(self)@.groups);
        assert(self@.groups =~= old(self)@.groups.map_values(stopped));
        handles
    }

    /// The encoders of the groups that are offered, which start to deliver when a stream begins.
    pub fn activate(&self) -> (r: Vec<u64>)
        ensures
            r@ == self@.offered_media(self@.groups.len() as int),
    {
        let mut handles: Vec<u64> = Vec::new();
        let mut i: usize = 0;
        while i < self.groups.len()
            invariant
                i <= self.groups@.len(),
                handles@ == self@.offered_media(i as int),
            decreases self.groups@.len() - i,
        {
            if self.group_is_active(i) {
                if let Some(media) = self.groups[i].media {
                    handles.push(media);
                }
            }
            i += 1;
        }
        handles
    }
}

proof fn lemma_kept_keeps_distinct(clients: Seq<ClientView>, p: spec_fn(ClientView) -> bool)
    requires
        list::distinct(client_ids(clients)),
    ensures
        list::distinct(client_ids(list::kept(clients, p))),
        forall|id: Seq<char>| #[trigger]
            client_ids(list::kept(clients, p)).contains(id) ==> client_ids(clients).contains(id),
    decreases clients.len(),
{
    if clients.len() > 0 {
        let rest = clients.drop_last();
        let ids = client_ids(clients);
        assert(client_ids(rest) =~= ids.drop_last());
        lemma_kept_keeps_distinct(rest, p);
        let kept = client_ids(list::kept(rest, p));
        let after = client_ids(list::kept(clients, p));
        assert(ids.last() == clients.last().client_id);
        if p(clients.last()) {
            assert(after =~= kept.push(ids.last()));
            assert forall|i: int, j: int| 0 <= i < j < after.len() implies after[i] != after[j] by {
                if j == kept.len() {
                    assert(kept.contains(kept[i]));
                    assert(client_ids(rest).contains(kept[i]));
                    let k = choose|k: int| 0 <= k < rest.len() && client_ids(rest)[k] == kept[i];
                    assert(ids[k] == kept[i]);
                }
            }
        }
        assert forall|id: Seq<char>| #[trigger] after.contains(id) implies ids.contains(id) by {
            let k = choose|k: int| 0 <= k < after.len() && after[k] == id;
            if p(clients.last()) && k == kept.len() {
                assert(ids[ids.len() - 1] == id);
            } else {
                assert(kept[k] == id);
                assert(kept.contains(id));
                let m = choose|m: int| 0 <= m < rest.len() && client_ids(rest)[m] == id;
                assert(ids[m] == id);
            }
        }
    }
}

/// Why no encoder can be started.
#[derive(Clone, Copy, Debug, PartialEq, Eq, Structural)]
pub enum StartRefusal {
    NoFactory,
    StreamStopped,
    NoCapture,
}

impl StartRefusal {
    pub fn message(self) -> (r: &'static str)
        ensures
            r@ == match self {
                StartRefusal::NoFactory => "dynamic transcode group factory is unavailable"@,
                StartRefusal::StreamStopped =>
                    "cannot start a transcode group while the stream is stopped"@,
                StartRefusal::NoCapture => "shared capture is not running"@,
            },
    {
        match self {
            StartRefusal::NoFactory => "dynamic transcode group factory is unavailable",
            StartRefusal::StreamStopped =>
                "cannot start a transcode group while the stream is stopped",
            StartRefusal::NoCapture => "shared capture is not running",
        }
    }
}

impl TranscodeGroups {
    /// Whether an encoder can be started. That of the first group starts before the stream is on,
    /// so that a start can fail as a whole.
    pub fn check_start(&self, primary: bool, stream_enabled: bool, capture_runs: bool) -> (r: Option<
        StartRefusal,
    >)
        ensures
            r == if self@.policy is None {
                Some(StartRefusal::NoFactory)
            } else if !primary && !stream_enabled {
                Some(StartRefusal::StreamStopped)
            } else if !capture_runs {
                Some(StartRefusal::NoCapture)
            } else {
                None
            },
    {
        if self.policy.is_none() {
            Some(StartRefusal::NoFactory)
        } else if !primary && !stream_enabled {
            Some(StartRefusal::StreamStopped)
        } else if !capture_runs {
            Some(StartRefusal::NoCapture)
        } else {
            None
        }
    }
}

/// The handles of the encoders in some groups.
pub open spec fn running_media(groups: Seq<GroupView>) -> Seq<u64>
    decreases groups.len(),
{
    if groups.len() == 0 {
        Seq::empty()
    } else {
        let rest = running_media(groups.drop_last());
        match groups.last().media {
            Some(media) => rest.push(media),
            None => rest,
        }
    }
}

impl GroupsView {
    /// The encoders of the groups below `n` that are offered to viewers.
    pub open spec fn offered_media(self, n: int) -> Seq<u64>
        decreases n,
    {
        if n <= 0 {
            Seq::empty()
        } else {
            let rest = self.offered_media(n - 1);
            if self.is_active(n - 1) {
                rest.push(self.groups[n - 1].media->0)
            } else {
                rest
            }
        }
    }
}

/// A running encoder that is to take another profile.
#[derive(Debug)]
pub struct MediaUpdate {
    pub media: u64,
    pub settings: CaptureSettings,
}

pub struct MediaUpdateView {
    pub media: u64,
    pub settings: CaptureSettingsView,
}

impl View for MediaUpdate {
    type V = MediaUpdateView;

    open spec fn view(&self) -> MediaUpdateView {
        MediaUpdateView { media: self.media, settings: self.settings@ }
    }
}

pub open spec fn update_views(updates: Seq<MediaUpdate>) -> Seq<MediaUpdateView> {
    updates.map_values(|u: MediaUpdate| u@)
}

impl TranscodeGroups {
    /// Whether a group's codec agrees with a name, in any case.
    fn group_speaks(&self, at: usize, codec: &str) -> (r: bool)
        requires
            at < self.groups@.len(),
        ensures
            r == self@.speaks(at as int, codec@),
    {
        text::eq_ignore_ascii_case(self.groups[at].codec.as_str(), codec)
    }
}

} // verus!
