//! Groups that are nearly identical are merged; empty ones drain and stop.

use vstd::prelude::*;

use crate::groups;
use crate::groups::{
    AssignmentView, ClientView, GroupAssignment, GroupLifecycle, GroupView, GroupsView,
    TranscodeGroups, DRAIN_GRACE_NANOS,
};
use crate::list;
use crate::media;
use crate::media::nanos_since;
use crate::profile;

verus! {

/// A viewer that is moved to another group and has to connect anew.
#[derive(Debug)]
pub struct GroupMigration {
    pub client_id: String,
    pub assignment: GroupAssignment,
}

pub struct MigrationView {
    pub client_id: Seq<char>,
    pub assignment: AssignmentView,
}

impl View for GroupMigration {
    type V = MigrationView;

    open spec fn view(&self) -> MigrationView {
        MigrationView { client_id: self.client_id@, assignment: self.assignment@ }
    }
}

pub open spec fn migration_views(migrations: Seq<GroupMigration>) -> Seq<MigrationView> {
    migrations.map_values(|m: GroupMigration| m@)
}

/// What maintenance did: whether anything changed, which viewers move, and which encoders stop.
#[derive(Debug)]
pub struct GroupMaintenance {
    pub changed: bool,
    pub migrations: Vec<GroupMigration>,
    pub stopped: Vec<u64>,
}

/// The members of a group among some viewers.
pub open spec fn member_count(clients: Seq<ClientView>, group_id: usize) -> nat {
    list::count_where(clients, |c: ClientView| c.group_id == group_id)
}

/// A viewer's state after its group was merged into another.
pub open spec fn merged_client(
    client: ClientView,
    source: usize,
    target: usize,
    now: u64,
) -> ClientView {
    if client.group_id == source {
        ClientView {
            group_id: target,
            last_change: now,
            reason: "merged with a near-identical group"@,
            ..client
        }
    } else {
        client
    }
}

/// The viewers that a merge moves.
pub open spec fn merge_migrations(
    clients: Seq<ClientView>,
    source: usize,
    target: usize,
) -> Seq<MigrationView>
    decreases clients.len(),
{
    if clients.len() == 0 {
        Seq::empty()
    } else {
        let rest = merge_migrations(clients.drop_last(), source, target);
        if clients.last().group_id == source {
            rest.push(
                MigrationView {
                    client_id: clients.last().client_id,
                    assignment: AssignmentView {
                        group_id: target,
                        reason: "merged with a near-identical group"@,
                        restart: true,
                    },
                },
            )
        } else {
            rest
        }
    }
}

impl GroupsView {
    /// Whether one group can take over the viewers of another.
    pub open spec fn can_absorb(self, target: int, source: int) -> bool {
        &&& target != source
        &&& self.speaks(target, self.groups[source].codec)
        &&& profile::are_similar(self.groups[source].settings, self.groups[target].settings)
    }

    /// The group with the most members among `active` that can take over the viewers of `source`;
    /// the last of several with equally many.
    pub open spec fn merge_target(
        self,
        active: Seq<usize>,
        source: int,
        members: spec_fn(usize) -> nat,
    ) -> Option<usize>
        decreases active.len(),
    {
        if active.len() == 0 {
            None
        } else {
            let best = self.merge_target(active.drop_last(), source, members);
            let candidate = active.last();
            if self.can_absorb(candidate as int, source) && (best is None || members(candidate)
                >= members(best->0)) {
                Some(candidate)
            } else {
                best
            }
        }
    }

    /// The group that a group is merged into: one that is nearly identical and has no fewer
    /// members.
    pub open spec fn merge_choice(
        self,
        active: Seq<usize>,
        source: usize,
        members: spec_fn(usize) -> nat,
    ) -> Option<usize> {
        if source == 0 || members(source) == 0 {
            None
        } else {
            match self.merge_target(active, source as int, members) {
                Some(target) => if members(target) < members(source) {
                    None
                } else {
                    Some(target)
                },
                None => None,
            }
        }
    }

    /// The groups after one was merged into another and begins to drain.
    pub open spec fn merged(self, source: usize, target: usize, now: u64) -> GroupsView {
        GroupsView {
            assignments: self.assignments.map_values(
                |c: ClientView| merged_client(c, source, target, now),
            ),
            groups: self.groups.update(
                source as int,
                GroupView {
                    lifecycle: GroupLifecycle::Draining,
                    drain_started_at: Some(now),
                    ..self.groups[source as int]
                },
            ),
            ..self
        }
    }

    /// The groups and the moved viewers after the first `n` of the `active` groups were considered
    /// for a merge. Members are counted once, before the first merge.
    pub open spec fn after_merges(
        self,
        active: Seq<usize>,
        members: spec_fn(usize) -> nat,
        n: int,
        now: u64,
    ) -> (GroupsView, Seq<MigrationView>, bool)
        decreases n,
    {
        if n <= 0 {
            (self, Seq::empty(), false)
        } else {
            let (groups, migrations, changed) = self.after_merges(active, members, n - 1, now);
            let source = active[n - 1];
            match groups.merge_choice(active, source, members) {
                None => (groups, migrations, changed),
                Some(target) => (
                    groups.merged(source, target, now),
                    migrations + merge_migrations(groups.assignments, source, target),
                    true,
                ),
            }
        }
    }

    pub open spec fn has_members(self, group_id: usize) -> bool {
        exists|k: int|
            0 <= k < self.assignments.len() && (#[trigger] self.assignments[k]).group_id
                == group_id
    }

    /// A group after its members were looked at: one with members is kept, an empty one drains and
    /// stops after a while.
    pub open spec fn settled_group(self, i: int, now: u64) -> GroupView {
        let group = self.groups[i];
        if i == 0 || i >= self.capacity() {
            group
        } else if self.has_members(i as usize) {
            GroupView {
                lifecycle: if group.lifecycle == GroupLifecycle::Draining {
                    GroupLifecycle::Active
                } else {
                    group.lifecycle
                },
                drain_started_at: None,
                ..group
            }
        } else if group.media is None {
            group
        } else {
            match group.drain_started_at {
                None => GroupView {
                    lifecycle: GroupLifecycle::Draining,
                    drain_started_at: Some(now),
                    ..group
                },
                Some(started) => if media::timing::elapsed(now, started) < DRAIN_GRACE_NANOS {
                    group
                } else {
                    GroupView {
                        media: None,
                        lifecycle: GroupLifecycle::Stopped,
                        drain_started_at: None,
                        ..group
                    }
                },
            }
        }
    }

    /// Whether looking at a group's members changes its state. Clearing a mark of draining from a
    /// group that does not drain is no change.
    pub open spec fn settling_changes(self, i: int, now: u64) -> bool {
        let group = self.groups[i];
        if i == 0 || i >= self.capacity() {
            false
        } else if self.has_members(i as usize) {
            group.lifecycle == GroupLifecycle::Draining
        } else {
            group.media is Some && (group.drain_started_at is None || media::timing::elapsed(
                now,
                group.drain_started_at->0,
            ) >= DRAIN_GRACE_NANOS)
        }
    }

    /// The encoders of the groups below `n` that stop.
    pub open spec fn settling_stops(self, n: int, now: u64) -> Seq<u64>
        decreases n,
    {
        if n <= 0 {
            Seq::empty()
        } else {
            let rest = self.settling_stops(n - 1, now);
            if self.groups[n - 1].media is Some && self.settled_group(n - 1, now).media is None {
                rest.push(self.groups[n - 1].media->0)
            } else {
                rest
            }
        }
    }

    /// Members of a group, as they are counted before the first merge.
    pub open spec fn members(self) -> spec_fn(usize) -> nat {
        |group_id: usize| member_count(self.assignments, group_id)
    }
}

proof fn lemma_merges_keep_shape(
    v: GroupsView,
    active: Seq<usize>,
    members: spec_fn(usize) -> nat,
    n: int,
    now: u64,
)
    requires
        v.wf(),
        0 <= n <= active.len(),
        forall|k: int| 0 <= k < active.len() ==> (#[trigger] active[k]) < v.groups.len(),
    ensures
        ({
            let after = v.after_merges(active, members, n, now).0;
            &&& after.wf()
            &&& after.groups.len() == v.groups.len()
            &&& after.policy == v.policy
            &&& after.active_budget == v.active_budget
        }),
    decreases n,
{
    if n > 0 {
        lemma_merges_keep_shape(v, active, members, n - 1, now);
        let before = v.after_merges(active, members, n - 1, now).0;
        let after = v.after_merges(active, members, n, now).0;
        let source = active[n - 1];
        if let Some(target) = before.merge_choice(active, source, members) {
            assert(groups::client_ids(after.assignments) =~= groups::client_ids(before.assignments));
        }
    }
}

impl TranscodeGroups {
    fn count_members(&self, group_id: usize) -> (r: usize)
        ensures
            r == member_count(self@.assignments, group_id),
    {
        let ghost clients = self@.assignments;
        let ghost p = |c: ClientView| c.group_id == group_id;
        let mut count: usize = 0;
        let mut i: usize = 0;
        while i < self.assignments.len()
            invariant
                i <= self.assignments@.len(),
                count <= i,
                clients == self@.assignments,
                p == (|c: ClientView| c.group_id == group_id),
                count == list::count_where(clients.take(i as int), p),
            decreases self.assignments@.len() - i,
        {
            assert(clients.take(i + 1).drop_last() =~= clients.take(i as int));
            assert(clients.take(i + 1).last() == self.assignments@[i as int]@);
            if self.assignments[i].group_id == group_id {
                count += 1;
            }
            i += 1;
        }
        assert(clients.take(i as int) =~= clients);
        count
    }

    fn member_counts(&self) -> (r: Vec<usize>)
        ensures
            r@.len() == self.groups@.len(),
            forall|i: int|
                0 <= i < r@.len() ==> #[trigger] r@[i] == self@.members()(i as usize),
    {
        let mut counts: Vec<usize> = Vec::new();
        let mut i: usize = 0;
        while i < self.groups.len()
            invariant
                i <= self.groups@.len(),
                counts@.len() == i,
                forall|j: int|
                    0 <= j < i ==> #[trigger] counts@[j] == self@.members()(j as usize),
            decreases self.groups@.len() - i,
        {
            counts.push(self.count_members(i));
            i += 1;
        }
        counts
    }

    fn find_merge_target(&self, active: &Vec<usize>, source: usize, counts: &Vec<usize>) -> (r:
        Option<usize>)
        requires
            source < self.groups@.len(),
            counts@.len() == self.groups@.len(),
            forall|k: int|
                0 <= k < active@.len() ==> (#[trigger] active@[k]) < self.groups@.len(),
        ensures
            r == self@.merge_target(
                active@,
                source as int,
                |g: usize| counts@[g as int] as nat,
            ),
            r is Some ==> r->0 < self.groups@.len(),
    {
        let ghost members = |g: usize| counts@[g as int] as nat;
        let mut best: Option<usize> = None;
        let mut k: usize = 0;
        while k < active.len()
            invariant
                k <= active@.len(),
                source < self.groups@.len(),
                counts@.len() == self.groups@.len(),
                members == (|g: usize| counts@[g as int] as nat),
                forall|k: int|
                    0 <= k < active@.len() ==> (#[trigger] active@[k]) < self.groups@.len(),
                best is Some ==> best->0 < self.groups@.len(),
                best == self@.merge_target(active@.take(k as int), source as int, members),
            decreases active@.len() - k,
        {
            assert(active@.take(k + 1).drop_last() =~= active@.take(k as int));
            let candidate = active[k];
            if candidate != source && self.group_speaks(
                candidate,
                self.groups[source].codec.as_str(),
            ) && profile::profiles_are_similar(
                &self.groups[source].settings,
                &self.groups[candidate].settings,
            ) {
                let better = match best {
                    None => true,
                    Some(chosen) => counts[candidate] >= counts[chosen],
                };
                if better {
                    best = Some(candidate);
                }
            }
            k += 1;
        }
        assert(active@.take(k as int) =~= active@);
        best
    }

    fn merge_group(
        &mut self,
        source: usize,
        target: usize,
        now: u64,
        migrations: &mut Vec<GroupMigration>,
    )
        requires
            old(self)@.wf(),
            source < old(self).groups@.len(),
        ensures
            final(self)@ == old(self)@.merged(source, target, now),
            migration_views(final(migrations)@) == migration_views(old(migrations)@)
                + merge_migrations(old(self)@.assignments, source, target),
    {
        let ghost clients = self@.assignments;
        let ghost earlier = migration_views(migrations@);
        let mut i: usize = 0;
        assert(migration_views(migrations@) =~= earlier + merge_migrations(
            clients.take(0),
            source,
            target,
        ));
        while i < self.assignments.len()
            invariant
                i <= self.assignments@.len(),
                clients == old(self)@.assignments,
                self.assignments@.len() == old(self).assignments@.len(),
                self.groups@ == old(self).groups@,
                self.policy == old(self).policy,
                self.active_budget == old(self).active_budget,
                migration_views(migrations@) == earlier + merge_migrations(
                    clients.take(i as int),
                    source,
                    target,
                ),
                forall|j: int|
                    0 <= j < i ==> self@.assignments[j] == merged_client(
                        #[trigger] clients[j],
                        source,
                        target,
                        now,
                    ),
                forall|j: int|
                    i <= j < self.assignments@.len() ==> self@.assignments[j]
                        == #[trigger] clients[j],
            decreases self.assignments@.len() - i,
        {
            let ghost before = self@.assignments;
            assert(before[i as int] == clients[i as int]);
            assert(clients.take(i + 1).drop_last() =~= clients.take(i as int));
            assert(clients.take(i + 1).last() == clients[i as int]);
            if self.assignments[i].group_id == source {
                self.assignments[i].group_id = target;
                self.assignments[i].last_change = now;
                self.assignments[i].reason = "merged with a near-identical group".to_owned();
                let ghost sent = migrations@;
                migrations.push(
                    GroupMigration {
                        client_id: self.assignments[i].client_id.clone(),
                        assignment: GroupAssignment {
                            group_id: target,
                            reason: "merged with a near-identical group".to_owned(),
                            restart: true,
                        },
                    },
                );
                assert(migration_views(migrations@) =~= migration_views(sent).push(
                    migrations@.last()@,
                ));
            }
            assert(self@.assignments =~= before.update(
                i as int,
                merged_client(before[i as int], source, target, now),
            ));
            assert(migration_views(migrations@) =~= earlier + merge_migrations(
                clients.take(i + 1),
                source,
                target,
            ));
            i += 1;
        }
        assert(clients.take(i as int) =~= clients);
        assert(self@.assignments =~= old(self)@.merged(source, target, now).assignments);
        self.groups[source].lifecycle = GroupLifecycle::Draining;
        self.groups[source].drain_started_at = Some(now);
        assert(self@.groups =~= old(self)@.merged(source, target, now).groups);
    }

    fn group_has_members(&self, group_id: usize) -> (r: bool)
        ensures
            r == self@.has_members(group_id),
    {
        let mut i: usize = 0;
        while i < self.assignments.len()
            invariant
                i <= self.assignments@.len(),
                forall|k: int|
                    0 <= k < i ==> (#[trigger] self@.assignments[k]).group_id != group_id,
            decreases self.assignments@.len() - i,
        {
            if self.assignments[i].group_id == group_id {
                assert(self@.assignments[i as int].group_id == group_id);
                return true;
            }
            assert(self@.assignments[i as int].group_id != group_id);
            i += 1;
        }
        false
    }

    /// Looks at the members of every group: keeps those with members, drains and stops the others.
    fn settle_groups(&mut self, now: u64, stopped: &mut Vec<u64>) -> (r: bool)
        requires
            old(self)@.wf(),
        ensures
            final(self)@ == (GroupsView {
                groups: Seq::new(
                    old(self)@.groups.len(),
                    |i: int| old(self)@.settled_group(i, now),
                ),
                ..old(self)@
            }),
            final(self)@.wf(),
            final(stopped)@ == old(stopped)@ + old(self)@.settling_stops(
                old(self)@.groups.len() as int,
                now,
            ),
            r == exists|i: int|
                0 <= i < old(self)@.groups.len() && #[trigger] old(self)@.settling_changes(i, now),
    {
        let capacity = self.capacity();
        let mut changed = false;
        let ghost earlier = stopped@;
        let mut i: usize = 0;
        assert(stopped@ =~= earlier + old(self)@.settling_stops(0, now));
        while i < self.groups.len()
            invariant
                i <= self.groups@.len(),
                old(self)@.wf(),
                capacity == old(self)@.capacity(),
                self.groups@.len() == old(self).groups@.len(),
                self.assignments@ == old(self).assignments@,
                self.policy == old(self).policy,
                self.active_budget == old(self).active_budget,
                stopped@ == earlier + old(self)@.settling_stops(i as int, now),
                changed == exists|j: int|
                    0 <= j < i && #[trigger] old(self)@.settling_changes(j, now),
                forall|j: int|
                    0 <= j < i ==> self@.groups[j] == #[trigger] old(self)@.settled_group(j, now),
                forall|j: int|
                    i <= j < self.groups@.len() ==> self@.groups[j]
                        == #[trigger] old(self)@.groups[j],
            decreases self.groups@.len() - i,
        {
            let ghost before = self@.groups;
            let ghost settled = old(self)@.settled_group(i as int, now);
            assert(before[i as int] == old(self)@.groups[i as int]);
            let mut changes = false;
            if i != 0 && i < capacity {
                let members = self.group_has_members(i);
                assert(self@.assignments =~= old(self)@.assignments);
                assert(members == old(self)@.has_members(i));
                if members {
                    if self.groups[i].lifecycle == GroupLifecycle::Draining {
                        self.groups[i].lifecycle = GroupLifecycle::Active;
                        changes = true;
                    }
                    self.groups[i].drain_started_at = None;
                } else if let Some(media) = self.groups[i].media {
                    match self.groups[i].drain_started_at {
                        None => {
                            self.groups[i].lifecycle = GroupLifecycle::Draining;
                            self.groups[i].drain_started_at = Some(now);
                            changes = true;
                        },
                        Some(started) => {
                            if nanos_since(now, started) >= DRAIN_GRACE_NANOS {
                                stopped.push(media);
                                self.groups[i].media = None;
                                self.groups[i].lifecycle = GroupLifecycle::Stopped;
                                self.groups[i].drain_started_at = None;
                                changes = true;
                            }
                        },
                    }
                }
            }
            assert(changes == old(self)@.settling_changes(i as int, now));
            assert(self@.groups =~= before.update(i as int, settled));
            assert(stopped@ =~= earlier + old(self)@.settling_stops(i + 1, now));
            if changes {
                changed = true;
            }
            i += 1;
        }
        assert(self@.groups =~= Seq::new(
            old(self)@.groups.len(),
            |i: int| old(self)@.settled_group(i, now),
        ));
        changed
    }

    /// Merges groups that are nearly identical, and drains and stops those that are empty.
    pub fn maintain(&mut self, now: u64) -> (r: GroupMaintenance)
        requires
            old(self)@.wf(),
        ensures
            final(self)@.wf(),
            ({
                let active = old(self)@.active_ids();
                let (merged, migrations, moved) = old(self)@.after_merges(
                    active,
                    old(self)@.members(),
                    active.len() as int,
                    now,
                );
                &&& final(self)@ == (GroupsView {
                    groups: Seq::new(
                        merged.groups.len(),
                        |i: int| merged.settled_group(i, now),
                    ),
                    ..merged
                })
                &&& migration_views(r.migrations@) == migrations
                &&& r.stopped@ == merged.settling_stops(merged.groups.len() as int, now)
                &&& r.changed == (moved || exists|i: int|
                    0 <= i < merged.groups.len() && #[trigger] merged.settling_changes(i, now))
            }),
    {
        let active = self.active_group_ids();
        let counts = self.member_counts();
        let ghost ids = active@;
        let ghost members = old(self)@.members();
        let ghost n = self.groups@.len();
        let mut migrations: Vec<GroupMigration> = Vec::new();
        let mut moved = false;
        let mut k: usize = 0;
        assert(migration_views(migrations@) =~= Seq::empty());
        while k < active.len()
            invariant
                k <= active@.len(),
                ids == active@,
                ids == old(self)@.active_ids(),
                old(self)@.wf(),
                members == old(self)@.members(),
                n == old(self)@.groups.len(),
                counts@.len() == n,
                forall|i: int|
                    0 <= i < counts@.len() ==> #[trigger] counts@[i] == members(i as usize),
                forall|j: int| 0 <= j < ids.len() ==> (#[trigger] ids[j]) < n,
                self@.groups.len() == n,
                self@.wf(),
                ({
                    let (groups, sent, done) = old(self)@.after_merges(
                        ids,
                        members,
                        k as int,
                        now,
                    );
                    self@ == groups && migration_views(migrations@) == sent && moved == done
                }),
            decreases active@.len() - k,
        {
            proof {
                lemma_merges_keep_shape(old(self)@, ids, members, k + 1, now);
            }
            let source = active[k];
            let ghost before = self@;
            if source != 0 && counts[source] != 0 {
                let target = self.find_merge_target(&active, source, &counts);
                proof {
                    lemma_target_by_counts(before, ids, source as int, counts@, members);
                }
                if let Some(target) = target {
                    if counts[target] >= counts[source] {
                        self.merge_group(source, target, now, &mut migrations);
                        moved = true;
                    }
                }
            }
            k += 1;
        }
        let mut stopped: Vec<u64> = Vec::new();
        let settled = self.settle_groups(now, &mut stopped);
        assert(stopped@ =~= Seq::empty() + stopped@);
        GroupMaintenance { changed: moved || settled, migrations, stopped }
    }
}

proof fn lemma_target_by_counts(
    v: GroupsView,
    active: Seq<usize>,
    source: int,
    counts: Seq<usize>,
    members: spec_fn(usize) -> nat,
)
    requires
        forall|j: int| 0 <= j < active.len() ==> (#[trigger] active[j]) < counts.len(),
        forall|i: int| 0 <= i < counts.len() ==> #[trigger] counts[i] == members(i as usize),
    ensures
        v.merge_target(active, source, |g: usize| counts[g as int] as nat) == v.merge_target(
            active,
            source,
            members,
        ),
        match v.merge_target(active, source, members) {
            Some(target) => target < counts.len(),
            None => true,
        },
    decreases active.len(),
{
    if active.len() > 0 {
        let rest = active.drop_last();
        assert forall|j: int| 0 <= j < rest.len() implies (#[trigger] rest[j]) < counts.len() by {
            assert(rest[j] == active[j]);
        }
        lemma_target_by_counts(v, rest, source, counts, members);
        assert(active.last() == active[active.len() - 1]);
        assert(counts[active.last() as int] == members(active.last()));
    }
}

} // verus!
