//! What holds of the quality groups whatever happens to them.

use vstd::prelude::*;

use crate::config;
use crate::groups;
use crate::groups::{
    ClientView, GroupLifecycle, GroupView, GroupsView, ASSIGNMENT_HOLD_NANOS, DRAIN_GRACE_NANOS,
};
use crate::groups::observing;
use crate::groups::tuning::{self, GroupReport};
use crate::list;
use crate::media;
use crate::media::CaptureSettingsView;
use crate::metrics::{self, MetricSample};
use crate::profile;
use crate::text;

verus! {

/// A viewer who is looked up has a group that is offered, as long as one is.
pub proof fn lemma_assigned_group_is_offered(
    v: GroupsView,
    client: Seq<char>,
    now: u64,
    offered: int,
)
    requires
        v.wf(),
        v.is_active(offered),
    ensures
        v.is_active(v.settled_client(client, now).group_id as int),
        v.is_active(v.primary() as int),
{
    let p = |i: int| v.is_active(i);
    let n = v.groups.len() as int;
    assert(p(offered));
    lemma_first_satisfies(0, n, p, offered);
}

proof fn lemma_first_satisfies(from: int, to: int, p: spec_fn(int) -> bool, at: int)
    requires
        from <= at < to,
        p(at),
    ensures
        list::first_in(from, to, p) is Some,
        p(list::first_in(from, to, p)->0),
        from <= list::first_in(from, to, p)->0 < to,
    decreases to - from,
{
    if !p(from) {
        lemma_first_satisfies(from + 1, to, p, at);
    }
}

/// Looking a viewer up again changes nothing while its group is offered.
pub proof fn lemma_lookup_is_stable(
    v: GroupsView,
    client: Seq<char>,
    now: u64,
    later: u64,
    offered: int,
)
    requires
        v.wf(),
        v.is_active(offered),
    ensures
        ({
            let known = v.with_client(v.settled_client(client, now));
            known.settled_client(client, later) == v.settled_client(client, now)
        }),
{
    lemma_assigned_group_is_offered(v, client, now, offered);
    let state = v.settled_client(client, now);
    let known = v.with_client(state);
    let ids = groups::client_ids(v.assignments);
    let at = v.client_at(client);
    list::lemma_position(ids, client);
    let after = groups::client_ids(known.assignments);
    assert(state.client_id == client) by {
        if v.knows(client) {
            assert(ids[at] == client);
        }
    }
    if at < v.assignments.len() {
        assert(after =~= ids);
    } else {
        assert(after =~= ids.push(client));
        assert forall|i: int| 0 <= i < at implies after[i] != client by {
            assert(after[i] == ids[i]);
        }
    }
    assert(after[at] == client);
    list::lemma_position_found(after, client, at);
    assert(known.groups == v.groups);
    assert(known.is_active(state.group_id as int));
}

/// A stream that starts after all encoders were taken out has its own encoder in the first group:
/// what becomes of the old ones does not touch it.
pub proof fn lemma_replacement_survives_detachment(v: GroupsView, media: u64)
    requires
        v.wf(),
    ensures
        ({
            let detached = GroupsView {
                groups: v.groups.map_values(
                    |g: GroupView|
                        GroupView { media: None, lifecycle: GroupLifecycle::Stopped, ..g },
                ),
                ..v
            };
            let restarted = detached.primary_installed(media);
            &&& forall|i: int|
                0 <= i < detached.groups.len() ==> (#[trigger] detached.groups[i]).media is None
            &&& restarted.groups[0].media == Some(media)
            &&& restarted.is_active(0)
            &&& forall|i: int|
                0 < i < restarted.groups.len() ==> (#[trigger] restarted.groups[i]).media is None
        }),
{
}

/// Merging keeps the first group as it is, and every viewer.
pub proof fn lemma_merges_spare_the_first_group(
    v: GroupsView,
    active: Seq<usize>,
    members: spec_fn(usize) -> nat,
    n: int,
    now: u64,
)
    requires
        v.groups.len() > 0,
        n <= active.len(),
        forall|j: int| 0 <= j < active.len() ==> (#[trigger] active[j]) < v.groups.len(),
    ensures
        ({
            let (merged, migrations, moved) = v.after_merges(active, members, n, now);
            &&& merged.groups[0] == v.groups[0]
            &&& merged.groups.len() == v.groups.len()
            &&& groups::client_ids(merged.assignments) == groups::client_ids(v.assignments)
        }),
    decreases n,
{
    if n > 0 {
        lemma_merges_spare_the_first_group(v, active, members, n - 1, now);
        let (before, migrations, moved) = v.after_merges(active, members, n - 1, now);
        let source = active[n - 1];
        if let Some(target) = before.merge_choice(active, source, members) {
            assert(groups::client_ids(before.merged(source, target, now).assignments)
                =~= groups::client_ids(before.assignments));
        }
    }
}

/// The target of a merge can take over the viewers of the source.
pub proof fn lemma_merge_target_absorbs(
    v: GroupsView,
    active: Seq<usize>,
    source: int,
    members: spec_fn(usize) -> nat,
)
    requires
        forall|j: int| 0 <= j < active.len() ==> (#[trigger] active[j]) < v.groups.len(),
    ensures
        v.merge_target(active, source, members) matches Some(target) ==> v.can_absorb(
            target as int,
            source,
        ) && target < v.groups.len(),
    decreases active.len(),
{
    if active.len() > 0 {
        let rest = active.drop_last();
        assert forall|j: int| 0 <= j < rest.len() implies (#[trigger] rest[j]) < v.groups.len() by {
            assert(rest[j] == active[j]);
        }
        lemma_merge_target_absorbs(v, rest, source, members);
    }
}

/// However groups are merged, every viewer stays with its codec, and no group changes its own.
pub proof fn lemma_merges_keep_codecs(
    v: GroupsView,
    active: Seq<usize>,
    members: spec_fn(usize) -> nat,
    n: int,
    now: u64,
)
    requires
        v.groups.len() > 0,
        n <= active.len(),
        forall|j: int| 0 <= j < active.len() ==> (#[trigger] active[j]) < v.groups.len(),
    ensures
        ({
            let merged = v.after_merges(active, members, n, now).0;
            &&& merged.groups.len() == v.groups.len()
            &&& merged.assignments.len() == v.assignments.len()
            &&& forall|i: int|
                0 <= i < v.groups.len() ==> (#[trigger] merged.groups[i]).codec
                    == v.groups[i].codec
            &&& forall|k: int|
                0 <= k < v.assignments.len() ==> text::ascii_lower(
                    merged.group((#[trigger] merged.assignments[k]).group_id).codec,
                ) == text::ascii_lower(v.group(v.assignments[k].group_id).codec)
        }),
    decreases n,
{
    if n > 0 {
        lemma_merges_keep_codecs(v, active, members, n - 1, now);
        let before = v.after_merges(active, members, n - 1, now).0;
        let source = active[n - 1];
        if let Some(target) = before.merge_choice(active, source, members) {
            lemma_merge_target_absorbs(before, active, source as int, members);
            let merged = before.merged(source, target, now);
            assert forall|i: int| 0 <= i < v.groups.len() implies (#[trigger] merged.groups[i]).codec
                == v.groups[i].codec by {
                assert(before.groups[i].codec == v.groups[i].codec);
            }
            assert forall|k: int| 0 <= k < v.assignments.len() implies text::ascii_lower(
                merged.group((#[trigger] merged.assignments[k]).group_id).codec,
            ) == text::ascii_lower(v.group(v.assignments[k].group_id).codec) by {
                let old_id = before.assignments[k].group_id;
                assert(before.groups[before.at(old_id)].codec == v.groups[before.at(old_id)].codec);
                assert(merged.groups[merged.at(merged.assignments[k].group_id)].codec
                    == v.groups[merged.at(merged.assignments[k].group_id)].codec);
                assert(before.groups[target as int].codec == v.groups[target as int].codec);
            }
        }
    }
}

/// The first group is never drained, whoever is in it.
pub proof fn lemma_first_group_is_never_drained(v: GroupsView, now: u64)
    requires
        v.wf(),
    ensures
        v.settled_group(0, now) == v.groups[0],
{
}

/// A group without viewers loses its encoder once the grace period is over, and not before.
pub proof fn lemma_empty_group_stops_after_grace(v: GroupsView, i: int, now: u64, later: u64)
    requires
        v.wf(),
        0 < i < v.capacity(),
        i < v.groups.len(),
        v.groups[i].media is Some,
        v.groups[i].drain_started_at is None,
        !v.has_members(i as usize),
        now <= later,
    ensures
        ({
            let draining = v.settled_group(i, now);
            let seen = GroupsView { groups: v.groups.update(i, draining), ..v };
            &&& draining.lifecycle == GroupLifecycle::Draining
            &&& draining.media == v.groups[i].media
            &&& later - now < DRAIN_GRACE_NANOS ==> seen.settled_group(i, later) == draining
            &&& later - now >= DRAIN_GRACE_NANOS ==> seen.settled_group(i, later).media is None
                && seen.settled_group(i, later).lifecycle == GroupLifecycle::Stopped
        }),
{
    let draining = v.settled_group(i, now);
    let seen = GroupsView { groups: v.groups.update(i, draining), ..v };
    assert(!seen.has_members(i as usize));
    assert(seen.capacity() == v.capacity());
    assert(media::timing::elapsed(later, now) == later - now);
}

/// Playback that does not fail and a path without starved or lossy samples are no reason to move a
/// viewer down: catching up drops frames, too.
pub proof fn lemma_sound_playback_is_not_degraded(window: Seq<MetricSample>, bitrate: u32)
    requires
        window.len() > 0,
        list::count_where(window, |s: MetricSample| metrics::is_starved(s, bitrate, 65, 70)) == 0,
        list::count_where(window, |s: MetricSample| metrics::is_lossy(s)) == 0,
        !metrics::must_downgrade(
            metrics::capped(metrics::dropped_sum(window)),
            metrics::capped(metrics::freeze_sum(window)),
        ),
    ensures
        !observing::is_degraded(window, bitrate),
{
    metrics::lemma_nothing_is_no_share(window.len(), 80);
    metrics::lemma_nothing_is_no_share(window.len(), 60);
}

/// A viewer whose reports show no trouble is never moved down.
pub proof fn lemma_sound_viewer_is_not_moved_down(
    v: GroupsView,
    state: ClientView,
    bitrate: u32,
    codec: Seq<char>,
    window: Seq<MetricSample>,
    lower: Option<usize>,
    now: u64,
)
    requires
        v.wf(),
        !observing::is_degraded(window, bitrate),
    ensures
        v.concluded(state, bitrate, codec, window, lower, now).1 matches Some(assignment)
            ==> assignment.group_id < state.group_id,
{
    let p = |i: int| v.is_active(i) && i < state.group_id && v.speaks(i, codec);
    let n = v.groups.len() as int;
    if let Some(higher) = list::last_in(0, n, p) {
        lemma_last_satisfies(0, n, p);
    }
}

/// What the last place that satisfies a predicate is.
pub proof fn lemma_last_satisfies(from: int, to: int, p: spec_fn(int) -> bool)
    ensures
        list::last_in(from, to, p) matches Some(i) ==> p(i) && from <= i < to,
    decreases to - from,
{
    if from < to && !p(to - 1) {
        lemma_last_satisfies(from, to - 1, p);
    }
}

/// A viewer who was moved stays where it is for a while, whatever it reports.
pub proof fn lemma_recent_move_holds(
    v: GroupsView,
    state: ClientView,
    bitrate: u32,
    codec: Seq<char>,
    window: Seq<MetricSample>,
    lower: Option<usize>,
    now: u64,
)
    requires
        media::timing::elapsed(now, state.last_change) < ASSIGNMENT_HOLD_NANOS,
    ensures
        v.concluded(state, bitrate, codec, window, lower, now) == (
            v,
            None::<groups::AssignmentView>,
        ),
        v.downgrade_start(state, window, now) is None,
{
}

/// Viewers whose playback fails lower the profile of their group only when they are as many as the
/// others; by themselves they are moved.
pub proof fn lemma_minority_does_not_lower_a_group(group: GroupView, report: GroupReport)
    requires
        report.samples.len() > 0,
        report.failures * 2 < report.members,
        list::count_where(
            report.samples,
            |s: MetricSample| metrics::is_starved(s, group.settings.bitrate, 70, 75),
        ) == 0,
        list::count_where(report.samples, |s: MetricSample| metrics::is_lossy(s)) == 0,
    ensures
        tuning::tuned_profile(group, report) == group.settings || tuning::tuned_profile(
            group,
            report,
        ) == tuning::raised(group.settings, group.ceiling),
{
    metrics::lemma_nothing_is_no_share(report.samples.len(), 80);
    metrics::lemma_nothing_is_no_share(report.samples.len(), 60);
}

/// Whether a profile asks for no more than another in any respect.
pub open spec fn is_within(profile: CaptureSettingsView, ceiling: CaptureSettingsView) -> bool {
    &&& profile.bitrate <= ceiling.bitrate
    &&& config::value_or(profile.output_fps, profile.fps) <= config::value_or(
        ceiling.output_fps,
        ceiling.fps,
    )
    &&& config::value_or(profile.output_height, profile.height) <= config::value_or(
        ceiling.output_height,
        ceiling.height,
    )
}

/// Tuning keeps a group within its ceiling. The ceiling is not below the smallest profile that
/// tuning leads to.
pub proof fn lemma_tuning_stays_within_the_ceiling(group: GroupView, report: GroupReport)
    requires
        is_within(group.settings, group.ceiling),
        group.ceiling.bitrate >= 250_000,
        config::value_or(group.ceiling.output_fps, group.ceiling.fps) >= 5,
        config::value_or(group.ceiling.output_height, group.ceiling.height) >= 144,
    ensures
        is_within(tuning::tuned_profile(group, report), group.ceiling),
{
    let current = group.settings;
    let fps = config::value_or(current.output_fps, current.fps);
    let ceiling_fps = config::value_or(group.ceiling.output_fps, group.ceiling.fps);
    let height = config::value_or(current.output_height, current.height);
    let ceiling_height = config::value_or(group.ceiling.output_height, group.ceiling.height);
    profile::lemma_step_down(fps);
    profile::lemma_step_down(height);
    if fps < ceiling_fps {
        profile::lemma_step_up(fps, ceiling_fps);
    }
    if height < ceiling_height {
        profile::lemma_step_up(height, ceiling_height);
    }
}

} // verus!
