//! A viewer reports: it is moved to a lower or a higher group, or to another codec.

use vstd::prelude::*;
use vstd::string::*;

use crate::config::clone_texts;
use crate::groups;
use crate::groups::{
    Activation, AssignmentView, ClientGroupState, ClientView, GroupAssignment, GroupsView,
    TranscodeGroups, ASSIGNMENT_HOLD_NANOS, INITIAL_ASSIGNMENT_AGE_NANOS,
};
use crate::groups::codecs;
use crate::groups::codecs::{contains_codec, display_codec_name, insert_codec};
use crate::list;
use crate::media;
use crate::media::nanos_since;
use crate::metrics::{self, MetricSample, ViewerMetrics};
use crate::text;

verus! {

/// Whether a viewer's reports show that its profile is too demanding.
pub open spec fn is_degraded(window: Seq<MetricSample>, bitrate: u32) -> bool {
    let starved = list::count_where(
        window,
        |s: MetricSample| metrics::is_starved(s, bitrate, 65, 70),
    );
    let lossy = list::count_where(window, |s: MetricSample| metrics::is_lossy(s));
    ||| metrics::is_share(starved, window.len(), 80)
    ||| metrics::is_share(lossy, window.len(), 60)
    ||| metrics::must_downgrade(
        metrics::capped(metrics::dropped_sum(window)),
        metrics::capped(metrics::freeze_sum(window)),
    )
}

/// Whether a viewer's reports show that it can take a profile with the given bitrate.
pub open spec fn can_upgrade(window: Seq<MetricSample>, bitrate: u32) -> bool {
    let headroom = list::count_where(
        window,
        |s: MetricSample| metrics::has_headroom(s, bitrate),
    );
    &&& metrics::is_share(headroom, window.len(), 80)
    &&& list::count_where(window, |s: MetricSample| metrics::is_lossy(s)) == 0
    &&& !metrics::holds_upgrade(
        metrics::capped(metrics::dropped_sum(window)),
        metrics::capped(metrics::freeze_sum(window)),
    )
}

/// Why a viewer was moved down.
pub open spec fn downgrade_reason(window: Seq<MetricSample>) -> Seq<char> {
    if metrics::must_downgrade(
        metrics::capped(metrics::dropped_sum(window)),
        metrics::capped(metrics::freeze_sum(window)),
    ) {
        "15-second playback failure window"@
    } else {
        "15-second media-path congestion window"@
    }
}

impl GroupsView {
    /// The next group below a viewer's own that is offered with the same codec.
    pub open spec fn lower_offered(self, current: usize, codec: Seq<char>) -> Option<usize> {
        match list::first_in(
            0,
            self.groups.len() as int,
            |i: int| self.is_active(i) && i > current && self.speaks(i, codec),
        ) {
            Some(i) => Some(i as usize),
            None => None,
        }
    }

    /// The next group above a viewer's own that is offered with the same codec.
    pub open spec fn higher_offered(self, current: usize, codec: Seq<char>) -> Option<usize> {
        match list::last_in(
            0,
            self.groups.len() as int,
            |i: int| self.is_active(i) && i < current && self.speaks(i, codec),
        ) {
            Some(i) => Some(i as usize),
            None => None,
        }
    }

    /// An idle group below a viewer's own within the budget.
    pub open spec fn lower_idle(self, current: usize) -> Option<usize> {
        match list::first_in(
            current + 1,
            self.capacity(),
            |i: int| self.groups[i].media is None,
        ) {
            Some(i) => Some(i as usize),
            None => None,
        }
    }

    pub open spec fn observed_client(self, client: Seq<char>, now: u64) -> ClientView {
        self.client_or_new(
            client,
            (now - INITIAL_ASSIGNMENT_AGE_NANOS) as u64,
            "initial assignment"@,
            self.primary(),
        )
    }

    /// Whether a viewer is due to be moved down.
    pub open spec fn owes_downgrade(
        self,
        state: ClientView,
        window: Seq<MetricSample>,
        now: u64,
    ) -> bool {
        is_degraded(window, self.group(state.group_id).settings.bitrate) && media::timing::elapsed(
            now,
            state.last_change,
        ) >= ASSIGNMENT_HOLD_NANOS
    }

    /// The idle group that is made ready for a viewer who is due to be moved down.
    pub open spec fn downgrade_start(
        self,
        state: ClientView,
        window: Seq<MetricSample>,
        now: u64,
    ) -> Option<usize> {
        if self.owes_downgrade(state, window, now) && self.resources_below(
            self.groups.len() as int,
        ) < self.capacity() {
            self.lower_idle(state.group_id)
        } else {
            None
        }
    }

    /// The groups after a viewer was moved, and what the viewer is told.
    pub open spec fn moved(
        self,
        state: ClientView,
        group_id: usize,
        reason: Seq<char>,
        now: u64,
    ) -> (GroupsView, Option<AssignmentView>) {
        (
            self.with_client(ClientView { group_id, last_change: now, reason, ..state }),
            Some(AssignmentView { group_id, reason, restart: true }),
        )
    }

    /// The end of an observation: the viewer is moved down to `lower` if it is due, else up if
    /// its path has headroom.
    pub open spec fn concluded(
        self,
        state: ClientView,
        current_bitrate: u32,
        codec: Seq<char>,
        window: Seq<MetricSample>,
        lower: Option<usize>,
        now: u64,
    ) -> (GroupsView, Option<AssignmentView>) {
        let due = media::timing::elapsed(now, state.last_change) >= ASSIGNMENT_HOLD_NANOS;
        if is_degraded(window, current_bitrate) && due && lower is Some {
            self.moved(state, lower->0, downgrade_reason(window), now)
        } else {
            match self.higher_offered(state.group_id, codec) {
                Some(higher) => if can_upgrade(window, self.group(higher).settings.bitrate) && due {
                    self.moved(state, higher, "15-second media-path headroom window"@, now)
                } else {
                    (self, None)
                },
                None => (self, None),
            }
        }
    }

    /// The groups when a viewer reported, before an encoder is started for it.
    pub open spec fn readied(self, client: Seq<char>, window: Seq<MetricSample>, now: u64) -> (
        GroupsView,
        Option<usize>,
    ) {
        let state = self.observed_client(client, now);
        let entered = self.with_client(state);
        match self.downgrade_start(state, window, now) {
            Some(idle) => (
                entered.configured(
                    idle,
                    self.group(state.group_id).codec,
                    self.group(idle).settings,
                    self.group(idle).settings,
                ),
                Some(idle),
            ),
            None => (entered, None),
        }
    }
}

pub open spec fn optional_assignment(assignment: Option<GroupAssignment>) -> Option<
    AssignmentView,
> {
    match assignment {
        Some(assignment) => Some(assignment@),
        None => None,
    }
}

/// Whether a report led to a decision, or an encoder has to be started first.
#[derive(Debug)]
pub enum ObserveStep {
    Done(Option<GroupAssignment>),
    Start(usize),
}

impl TranscodeGroups {
    fn find_lower_offered(&self, current: usize, codec: &str) -> (r: Option<usize>)
        ensures
            r == self@.lower_offered(current, codec@),
            r is Some ==> r->0 < self.groups@.len(),
    {
        let ghost p = |i: int| self@.is_active(i) && i > current && self@.speaks(i, codec@);
        let mut i: usize = 0;
        while i < self.groups.len()
            invariant
                i <= self.groups@.len(),
                p == (|i: int| self@.is_active(i) && i > current && self@.speaks(i, codec@)),
                forall|j: int| 0 <= j < i ==> !#[trigger] p(j),
            decreases self.groups@.len() - i,
        {
            if self.group_is_active(i) && i > current && self.group_speaks(i, codec) {
                proof {
                    list::lemma_first_found(0, self@.groups.len() as int, p, i as int);
                }
                return Some(i);
            }
            assert(!p(i as int));
            i += 1;
        }
        proof {
            list::lemma_first_missing(0, self@.groups.len() as int, p);
        }
        None
    }

    fn find_higher_offered(&self, current: usize, codec: &str) -> (r: Option<usize>)
        ensures
            r == self@.higher_offered(current, codec@),
            r is Some ==> r->0 < self.groups@.len(),
    {
        let ghost p = |i: int| self@.is_active(i) && i < current && self@.speaks(i, codec@);
        let mut i: usize = self.groups.len();
        while i > 0
            invariant
                i <= self.groups@.len(),
                p == (|i: int| self@.is_active(i) && i < current && self@.speaks(i, codec@)),
                forall|j: int| i <= j < self.groups@.len() ==> !#[trigger] p(j),
            decreases i,
        {
            i -= 1;
            if self.group_is_active(i) && i < current && self.group_speaks(i, codec) {
                proof {
                    list::lemma_last_found(0, self@.groups.len() as int, p, i as int);
                }
                return Some(i);
            }
            assert(!p(i as int));
        }
        proof {
            list::lemma_last_missing(0, self@.groups.len() as int, p);
        }
        None
    }

    fn find_lower_idle(&self, current: usize) -> (r: Option<usize>)
        requires
            self@.wf(),
        ensures
            r == self@.lower_idle(current),
            r is Some ==> r->0 < self.groups@.len() && self@.groups[r->0 as int].media is None,
    {
        let capacity = self.capacity();
        let ghost p = |i: int| self@.groups[i].media is None;
        if current >= capacity {
            return None;
        }
        let mut i: usize = current + 1;
        while i < capacity
            invariant
                current + 1 <= i,
                current < capacity,
                capacity == self@.capacity(),
                capacity <= self.groups@.len(),
                p == (|i: int| self@.groups[i].media is None),
                i <= capacity,
                forall|j: int| current + 1 <= j < i ==> !#[trigger] p(j),
            decreases capacity - i,
        {
            if self.groups[i].media.is_none() {
                proof {
                    list::lemma_first_found(current + 1, capacity as int, p, i as int);
                }
                return Some(i);
            }
            assert(!p(i as int));
            i += 1;
        }
        proof {
            list::lemma_first_missing(current + 1, capacity as int, p);
        }
        None
    }

    fn move_client(
        &mut self,
        at: usize,
        state: ClientGroupState,
        group_id: usize,
        reason: &str,
        now: u64,
    ) -> (r: GroupAssignment)
        requires
            old(self)@.wf(),
            at == old(self)@.client_at(state@.client_id),
        ensures
            (final(self)@, Some(r@)) == old(self)@.moved(state@, group_id, reason@, now),
            final(self)@.wf(),
    {
        let mut state = state;
        state.group_id = group_id;
        state.last_change = now;
        state.reason = reason.to_owned();
        self.store_client(at, state);
        GroupAssignment { group_id, reason: reason.to_owned(), restart: true }
    }

    fn conclude(
        &mut self,
        at: usize,
        state: ClientGroupState,
        current_bitrate: u32,
        codec: &str,
        window: &Vec<MetricSample>,
        lower: Option<usize>,
        now: u64,
    ) -> (r: Option<GroupAssignment>)
        requires
            old(self)@.wf(),
            window@.len() > 0,
            at == old(self)@.client_at(state@.client_id),
        ensures
            (final(self)@, optional_assignment(r)) == old(self)@.concluded(
                state@,
                current_bitrate,
                codec@,
                window@,
                lower,
                now,
            ),
            final(self)@.wf(),
    {
        let samples = window.as_slice();
        let starved = metrics::count_starved(samples, current_bitrate, 65, 70);
        let lossy = metrics::count_lossy(samples);
        let (dropped, freezes) = metrics::playback_totals(samples);
        let failed = metrics::playback_requires_downgrade(dropped, freezes);
        let degraded = metrics::share_reaches(starved, window.len(), 80)
            || metrics::share_reaches(lossy, window.len(), 60) || failed;
        assert(degraded == is_degraded(window@, current_bitrate));
        let due = nanos_since(now, state.last_change) >= ASSIGNMENT_HOLD_NANOS;
        if degraded && due {
            if let Some(lower) = lower {
                let reason = if failed {
                    "15-second playback failure window"
                } else {
                    "15-second media-path congestion window"
                };
                return Some(self.move_client(at, state, lower, reason, now));
            }
        }
        let higher: usize = match self.find_higher_offered(state.group_id, codec) {
            Some(higher) => higher,
            None => return None,
        };
        let headroom = metrics::count_headroom(samples, self.groups[higher].settings.bitrate);
        let ready = metrics::share_reaches(headroom, window.len(), 80) && lossy == 0
            && !metrics::playback_holds_upgrade(dropped, freezes);
        assert(ready == can_upgrade(window@, self@.group(higher).settings.bitrate));
        if ready && due {
            return Some(
                self.move_client(
                    at,
                    state,
                    higher,
                    "15-second media-path headroom window",
                    now,
                ),
            );
        }
        None
    }

    /// Considers the reports of a viewer: moves it down where they show trouble, up where they show
    /// headroom. A move down may need an encoder; then the group that needs it is returned.
    pub fn observe(&mut self, client_id: &str, metrics: &ViewerMetrics, now: u64) -> (r: ObserveStep)
        requires
            old(self)@.wf(),
            now >= INITIAL_ASSIGNMENT_AGE_NANOS,
        ensures
            final(self)@.wf(),
            ({
                let window = metrics::window(metrics.samples@, now);
                let state = old(self)@.observed_client(client_id@, now);
                let current = old(self)@.group(state.group_id);
                let (ready, idle) = old(self)@.readied(client_id@, window, now);
                if window.len() < 5 {
                    r == ObserveStep::Done(None) && final(self)@ == old(self)@
                } else {
                    match r {
                        ObserveStep::Start(group_id) => {
                            &&& idle == Some(group_id)
                            &&& ready.policy is Some
                            &&& final(self)@ == ready
                        },
                        ObserveStep::Done(assignment) => {
                            &&& idle is None || ready.policy is None
                            &&& (final(self)@, optional_assignment(assignment)) == ready.concluded(
                                state,
                                current.settings.bitrate,
                                current.codec,
                                window,
                                ready.lower_offered(state.group_id, current.codec),
                                now,
                            )
                        },
                    }
                }
            }),
    {
        let mut window: Vec<MetricSample> = Vec::new();
        metrics::collect_window(&metrics.samples, now, &mut window);
        assert(window@ =~= metrics::window(metrics.samples@, now));
        if window.len() < 5 {
            return ObserveStep::Done(None);
        }
        let primary = self.primary_group_id();
        let at = self.client_index(client_id);
        let state = self.client_state(
            at,
            client_id,
            now - INITIAL_ASSIGNMENT_AGE_NANOS,
            "initial assignment",
            primary,
        );
        let group_id = state.group_id;
        let bitrate = self.groups[self.index(group_id)].settings.bitrate;
        let codec = self.group_codec(group_id);
        let samples = window.as_slice();
        let starved = metrics::count_starved(samples, bitrate, 65, 70);
        let lossy = metrics::count_lossy(samples);
        let (dropped, freezes) = metrics::playback_totals(samples);
        let degraded = metrics::share_reaches(starved, window.len(), 80)
            || metrics::share_reaches(lossy, window.len(), 60)
            || metrics::playback_requires_downgrade(dropped, freezes);
        assert(degraded == is_degraded(window@, bitrate));
        let due = nanos_since(now, state.last_change) >= ASSIGNMENT_HOLD_NANOS;
        let idle = if degraded && due && self.resource_count() < self.capacity() {
            self.find_lower_idle(group_id)
        } else {
            None
        };
        assert(idle == old(self)@.downgrade_start(state@, window@, now));
        let ghost entered = old(self)@.with_client(state@);
        let stored = self.client_state(
            at,
            client_id,
            now - INITIAL_ASSIGNMENT_AGE_NANOS,
            "initial assignment",
            primary,
        );
        self.store_client(at, stored);
        assert(self@ == entered);
        proof {
            let keys = groups::client_ids(old(self)@.assignments);
            assert(groups::client_ids(self@.assignments) =~= list::put(keys, at as int, client_id@));
            list::lemma_put_keeps_distinct(keys, client_id@);
        }
        if let Some(idle) = idle {
            let profile = self.group_settings(idle);
            let ceiling = self.group_settings(idle);
            let _ = self.configure_stopped_group(idle, codec.as_str(), profile, ceiling);
            if self.policy.is_some() {
                return ObserveStep::Start(idle);
            }
        }
        let lower = self.find_lower_offered(group_id, codec.as_str());
        let assignment = self.conclude(at, state, bitrate, codec.as_str(), &window, lower, now);
        ObserveStep::Done(assignment)
    }

    /// Ends an observation once the start of an encoder has succeeded or failed.
    pub fn observe_started(
        &mut self,
        client_id: &str,
        metrics: &ViewerMetrics,
        group_id: usize,
        started: Option<u64>,
        now: u64,
    ) -> (r: Option<GroupAssignment>)
        requires
            old(self)@.wf(),
            now >= INITIAL_ASSIGNMENT_AGE_NANOS,
        ensures
            final(self)@.wf(),
            ({
                let window = metrics::window(metrics.samples@, now);
                let state = old(self)@.observed_client(client_id@, now);
                let current = old(self)@.group(state.group_id);
                let ready = match started {
                    Some(media) => old(self)@.installed(group_id, media),
                    None => old(self)@,
                };
                let lower = match started {
                    Some(media) => Some(group_id),
                    None => ready.lower_offered(state.group_id, current.codec),
                };
                if window.len() == 0 {
                    r is None && final(self)@ == ready
                } else {
                    (final(self)@, optional_assignment(r)) == ready.concluded(
                        state,
                        current.settings.bitrate,
                        current.codec,
                        window,
                        lower,
                        now,
                    )
                }
            }),
    {
        let mut window: Vec<MetricSample> = Vec::new();
        metrics::collect_window(&metrics.samples, now, &mut window);
        assert(window@ =~= metrics::window(metrics.samples@, now));
        let primary = self.primary_group_id();
        let at = self.client_index(client_id);
        let state = self.client_state(
            at,
            client_id,
            now - INITIAL_ASSIGNMENT_AGE_NANOS,
            "initial assignment",
            primary,
        );
        let bitrate = self.groups[self.index(state.group_id)].settings.bitrate;
        let codec = self.group_codec(state.group_id);
        let lower = match started {
            Some(media) => {
                self.install(group_id, media);
                Some(group_id)
            },
            None => self.find_lower_offered(state.group_id, codec.as_str()),
        };
        if window.len() == 0 {
            return None;
        }
        self.conclude(at, state, bitrate, codec.as_str(), &window, lower, now)
    }
}

/// A viewer that waits for an encoder of another codec.
#[derive(Debug)]
pub struct PendingFallback {
    pub client_id: String,
    pub failed_codec: String,
    pub codec: String,
    pub group_id: usize,
}

/// The answer to a viewer that cannot decode its codec.
#[derive(Debug)]
pub enum FallbackStep {
    Done(Option<GroupAssignment>),
    Start(PendingFallback),
}

pub open spec fn fallback_reason(failed: Seq<char>, codec: Seq<char>) -> Seq<char> {
    codecs::codec_display(failed) + " decode failed; fell back to "@ + codecs::codec_display(codec)
}

impl GroupsView {
    /// The groups once a viewer's codec is noted as undecodable.
    pub open spec fn rejecting(self, client: Seq<char>, codec: Seq<char>) -> GroupsView {
        let state = self.assignments[self.client_at(client)];
        self.with_client(
            ClientView {
                rejected_codecs: codecs::with_codec(state.rejected_codecs, codec),
                ..state
            },
        )
    }

    /// The codec, the groups and the target when a viewer falls back to another codec. `None` where
    /// no other codec or no group is left.
    pub open spec fn fallback(self, client: Seq<char>, failed: Seq<char>) -> (
        GroupsView,
        Option<(Seq<char>, usize)>,
    ) {
        let rejecting = self.rejecting(client, failed);
        let state = rejecting.assignments[rejecting.client_at(client)];
        let codec = rejecting.selected_codec(state.supported_codecs, state.rejected_codecs);
        if codec == failed || state.rejected_codecs.contains(codec) {
            (rejecting, None)
        } else {
            let profile = rejecting.group(state.group_id).settings;
            let (found, target) = rejecting.group_for(codec, state.group_id, profile, profile);
            match target {
                Some(group_id) => (found, Some((codec, group_id))),
                None => (found, None),
            }
        }
    }
}

impl TranscodeGroups {
    /// A viewer could not decode its codec and is moved to a group with another one.
    pub fn codec_failure(&mut self, client_id: &str, failed_codec: &str, now: u64) -> (r: FallbackStep)
        requires
            old(self)@.wf(),
        ensures
            final(self)@.wf(),
            ({
                let failed = text::ascii_lower(failed_codec@);
                if !old(self)@.knows(client_id@) {
                    r == FallbackStep::Done(None) && final(self)@ == old(self)@
                } else {
                    let (found, target) = old(self)@.fallback(client_id@, failed);
                    match target {
                        None => r == FallbackStep::Done(None) && final(self)@ == found,
                        Some((codec, group_id)) => match r {
                            FallbackStep::Start(pending) => {
                                &&& found.group(group_id).media is None
                                &&& found.policy is Some
                                &&& final(self)@ == found
                                &&& pending.client_id@ == client_id@
                                &&& pending.failed_codec@ == failed
                                &&& pending.codec@ == codec
                                &&& pending.group_id == group_id
                            },
                            FallbackStep::Done(None) => {
                                &&& found.group(group_id).media is None
                                &&& found.policy is None
                                &&& final(self)@ == found
                            },
                            FallbackStep::Done(Some(assignment)) => {
                                &&& found.group(group_id).media is Some
                                &&& (final(self)@, Some(assignment@)) == found.moved(
                                    found.assignments[found.client_at(client_id@)],
                                    group_id,
                                    fallback_reason(failed, codec),
                                    now,
                                )
                            },
                        },
                    }
                }
            }),
    {
        let failed = text::to_ascii_lowercase(failed_codec);
        let at = self.client_index(client_id);
        if at >= self.assignments.len() {
            return FallbackStep::Done(None);
        }
        proof {
            list::lemma_position(groups::client_ids(self@.assignments), client_id@);
            assert(groups::client_ids(self@.assignments)[at as int] == client_id@);
        }
        let mut state = self.clone_client(at);
        insert_codec(&mut state.rejected_codecs, failed.clone());
        let group_id = state.group_id;
        let supported = clone_texts(&state.supported_codecs);
        let rejected = clone_texts(&state.rejected_codecs);
        self.store_client(at, state);
        assert(self@ == old(self)@.rejecting(client_id@, failed@));
        proof {
            let keys = groups::client_ids(old(self)@.assignments);
            assert(groups::client_ids(self@.assignments) =~= list::put(keys, at as int, client_id@));
            list::lemma_put_keeps_distinct(keys, client_id@);
        }
        let codec = self.select_codec(&supported, &rejected);
        if text::text_eq(codec.as_str(), failed.as_str()) || contains_codec(
            &rejected,
            codec.as_str(),
        ) {
            return FallbackStep::Done(None);
        }
        let profile = self.group_settings(group_id);
        let ceiling = self.group_settings(group_id);
        let target: usize = match self.group_for_codec_profile(
            codec.as_str(),
            group_id,
            profile,
            ceiling,
        ) {
            Some(target) => target,
            None => return FallbackStep::Done(None),
        };
        let ghost found = self@;
        assert(old(self)@.fallback(client_id@, failed@) == (found, Some((codec@, target))));
        match self.activation(target) {
            Activation::Unavailable => FallbackStep::Done(None),
            Activation::Start => FallbackStep::Start(
                PendingFallback {
                    client_id: client_id.to_owned(),
                    failed_codec: failed,
                    codec,
                    group_id: target,
                },
            ),
            Activation::Running(_) => {
                let state = self.clone_client(at);
                let reason = describe_fallback(failed.as_str(), codec.as_str());
                let assignment = self.move_client(at, state, target, reason.as_str(), now);
                FallbackStep::Done(Some(assignment))
            },
        }
    }

    /// A viewer falls back to another codec once the start of the encoder has succeeded or failed.
    pub fn fallback_started(&mut self, pending: PendingFallback, started: Option<u64>, now: u64) -> (r:
        Option<GroupAssignment>)
        requires
            old(self)@.wf(),
        ensures
            final(self)@.wf(),
            match started {
                None => r is None && final(self)@ == old(self)@,
                Some(media) => {
                    let ready = old(self)@.installed(pending.group_id, media);
                    if !old(self)@.knows(pending.client_id@) {
                        r is None && final(self)@ == ready
                    } else {
                        (final(self)@, optional_assignment(r)) == ready.moved(
                            old(self)@.assignments[old(self)@.client_at(pending.client_id@)],
                            pending.group_id,
                            fallback_reason(pending.failed_codec@, pending.codec@),
                            now,
                        )
                    }
                },
            },
    {
        let media = match started {
            Some(media) => media,
            None => return None,
        };
        self.install(pending.group_id, media);
        let at = self.client_index(pending.client_id.as_str());
        if at >= self.assignments.len() {
            return None;
        }
        proof {
            list::lemma_position(groups::client_ids(self@.assignments), pending.client_id@);
            assert(groups::client_ids(self@.assignments)[at as int] == pending.client_id@);
        }
        let state = self.clone_client(at);
        let reason = describe_fallback(pending.failed_codec.as_str(), pending.codec.as_str());
        Some(self.move_client(at, state, pending.group_id, reason.as_str(), now))
    }
}

fn describe_fallback(failed: &str, codec: &str) -> (r: String)
    ensures
        r@ == fallback_reason(failed@, codec@),
{
    let mut reason = display_codec_name(failed).to_owned();
    reason.append(" decode failed; fell back to ");
    reason.append(display_codec_name(codec));
    reason
}

} // verus!
