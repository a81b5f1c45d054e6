//! The profile of a group follows what its members report.

use vstd::prelude::*;

use crate::config;
use crate::groups;
use crate::groups::{
    ClientView, GroupView, GroupsView, MediaUpdate, MediaUpdateView, TranscodeGroups,
    ASSIGNMENT_HOLD_NANOS, TUNING_HOLD_NANOS,
};
use crate::list;
use crate::media;
use crate::media::{nanos_since, CaptureSettings, CaptureSettingsView};
use crate::metrics::{self, MetricSample, ViewerMetrics, ViewerMetricsView};
use crate::profile;
use crate::text;

verus! {

/// The metrics of a viewer.
#[derive(Debug)]
pub struct ViewerRecord {
    pub client_id: String,
    pub metrics: ViewerMetrics,
}

pub struct RecordView {
    pub client_id: Seq<char>,
    pub metrics: ViewerMetricsView,
}

impl View for ViewerRecord {
    type V = RecordView;

    open spec fn view(&self) -> RecordView {
        RecordView { client_id: self.client_id@, metrics: self.metrics@ }
    }
}

pub open spec fn record_views(records: Seq<ViewerRecord>) -> Seq<RecordView> {
    records.map_values(|r: ViewerRecord| r@)
}

pub open spec fn record_ids(records: Seq<RecordView>) -> Seq<Seq<char>> {
    records.map_values(|r: RecordView| r.client_id)
}

/// The place of a viewer's metrics.
pub open spec fn record_at(records: Seq<RecordView>, client: Seq<char>) -> int {
    list::position(record_ids(records), client)
}

pub fn find_record(records: &Vec<ViewerRecord>, client_id: &str) -> (r: usize)
    ensures
        r == record_at(record_views(records@), client_id@),
        r <= records@.len(),
{
    let ghost ids = record_ids(record_views(records@));
    let mut i: usize = 0;
    while i < records.len()
        invariant
            i <= records@.len(),
            ids == record_ids(record_views(records@)),
            forall|j: int| 0 <= j < i ==> ids[j] != client_id@,
        decreases records@.len() - i,
    {
        if text::text_eq(records[i].client_id.as_str(), client_id) {
            proof {
                list::lemma_position_found(ids, client_id@, i as int);
            }
            return i;
        }
        i += 1;
    }
    proof {
        list::lemma_position_missing(ids, client_id@);
    }
    i
}

/// What the settled members of a group reported.
pub struct GroupReport {
    pub members: nat,
    pub failures: nat,
    pub samples: Seq<MetricSample>,
}

/// Whether a viewer counts for the tuning of a group: it is in the group, has been there for a
/// while, and has reported.
pub open spec fn is_settled_member(
    client: ClientView,
    group_id: usize,
    records: Seq<RecordView>,
    now: u64,
) -> bool {
    &&& client.group_id == group_id
    &&& media::timing::elapsed(now, client.last_change) >= ASSIGNMENT_HOLD_NANOS
    &&& record_at(records, client.client_id) < records.len()
}

/// What the settled members of a group among some viewers reported.
pub open spec fn group_report(
    clients: Seq<ClientView>,
    group_id: usize,
    records: Seq<RecordView>,
    now: u64,
) -> GroupReport
    decreases clients.len(),
{
    if clients.len() == 0 {
        GroupReport { members: 0, failures: 0, samples: Seq::empty() }
    } else {
        let rest = group_report(clients.drop_last(), group_id, records, now);
        let client = clients.last();
        if is_settled_member(client, group_id, records, now) {
            let window = metrics::window(
                records[record_at(records, client.client_id)].metrics.samples,
                now,
            );
            GroupReport {
                members: rest.members + 1,
                failures: rest.failures + if metrics::must_downgrade(
                    metrics::capped(metrics::dropped_sum(window)),
                    metrics::capped(metrics::freeze_sum(window)),
                ) {
                    1nat
                } else {
                    0nat
                },
                samples: rest.samples + window,
            }
        } else {
            rest
        }
    }
}

/// Nine tenths of a bitrate, computed in 32 bits, but not below the minimum.
pub open spec fn eased_bitrate(bitrate: u32) -> u32 {
    let scaled = if bitrate * 90 > u32::MAX {
        u32::MAX as int
    } else {
        bitrate * 90
    };
    if scaled / 100 >= 250_000 {
        (scaled / 100) as u32
    } else {
        250_000
    }
}

/// Eleven tenths of a bitrate, computed in 32 bits, but not above the ceiling.
pub open spec fn raised_bitrate(bitrate: u32, ceiling: u32) -> u32 {
    let scaled = if bitrate * 110 > u32::MAX {
        u32::MAX as int
    } else {
        bitrate * 110
    };
    if scaled / 100 <= ceiling {
        (scaled / 100) as u32
    } else {
        ceiling
    }
}

/// One step down: the bitrate first, then the frame rate, then the height.
pub open spec fn eased(current: CaptureSettingsView) -> CaptureSettingsView {
    let bitrate = eased_bitrate(current.bitrate);
    let fps = config::value_or(current.output_fps, current.fps);
    if bitrate != current.bitrate {
        CaptureSettingsView { bitrate, ..current }
    } else if fps > 5 {
        CaptureSettingsView { output_fps: Some(profile::step_down_fps(fps)), ..current }
    } else {
        CaptureSettingsView {
            output_height: Some(
                profile::step_down_height(config::value_or(current.output_height, current.height)),
            ),
            ..current
        }
    }
}

/// One step up within the ceiling: the bitrate first, then the frame rate, then the height.
pub open spec fn raised(
    current: CaptureSettingsView,
    ceiling: CaptureSettingsView,
) -> CaptureSettingsView {
    let bitrate = raised_bitrate(current.bitrate, ceiling.bitrate);
    let fps = config::value_or(current.output_fps, current.fps);
    let ceiling_fps = config::value_or(ceiling.output_fps, ceiling.fps);
    let height = config::value_or(current.output_height, current.height);
    let ceiling_height = config::value_or(ceiling.output_height, ceiling.height);
    if bitrate != current.bitrate {
        CaptureSettingsView { bitrate, ..current }
    } else if fps < ceiling_fps {
        CaptureSettingsView { output_fps: Some(profile::step_up_fps(fps, ceiling_fps)), ..current }
    } else if height < ceiling_height {
        CaptureSettingsView {
            output_height: Some(profile::step_up_height(height, ceiling_height)),
            ..current
        }
    } else {
        current
    }
}

/// Whether most of a group has trouble: starved or lossy samples, or members whose playback
/// fails. One failing viewer among many is moved by itself and does not lower the group.
pub open spec fn is_unstable(report: GroupReport, bitrate: u32) -> bool {
    let starved = list::count_where(
        report.samples,
        |s: MetricSample| metrics::is_starved(s, bitrate, 70, 75),
    );
    let lossy = list::count_where(report.samples, |s: MetricSample| metrics::is_lossy(s));
    ||| metrics::is_share(starved, report.samples.len(), 80)
    ||| metrics::is_share(lossy, report.samples.len(), 60)
    ||| report.members > 0 && report.failures * 2 >= report.members
}

/// Whether nothing at all speaks against a higher profile.
pub open spec fn is_stable(report: GroupReport, bitrate: u32) -> bool {
    &&& list::count_where(
        report.samples,
        |s: MetricSample| metrics::is_starved(s, bitrate, 70, 75),
    ) == 0
    &&& list::count_where(report.samples, |s: MetricSample| metrics::is_lossy(s)) == 0
    &&& !metrics::holds_upgrade(
        metrics::capped(metrics::dropped_sum(report.samples)),
        metrics::capped(metrics::freeze_sum(report.samples)),
    )
}

/// The profile of a group after its members' reports are considered.
pub open spec fn tuned_profile(group: GroupView, report: GroupReport) -> CaptureSettingsView {
    if is_unstable(report, group.settings.bitrate) {
        eased(group.settings)
    } else if is_stable(report, group.settings.bitrate) {
        raised(group.settings, group.ceiling)
    } else {
        group.settings
    }
}

impl GroupsView {
    /// A group after tuning.
    pub open spec fn tuned_group(self, i: int, records: Seq<RecordView>, now: u64) -> GroupView {
        let group = self.groups[i];
        let report = group_report(self.assignments, i as usize, records, now);
        if self.is_active(i) && report.samples.len() >= 5 && media::timing::elapsed(now, group.last_tuned)
            >= TUNING_HOLD_NANOS && tuned_profile(group, report) != group.settings {
            GroupView { settings: tuned_profile(group, report), last_tuned: now, ..group }
        } else {
            group
        }
    }

    /// The encoders of the groups below `n` that tuning gives another profile.
    pub open spec fn tuning_updates(self, n: int, records: Seq<RecordView>, now: u64) -> Seq<
        MediaUpdateView,
    >
        decreases n,
    {
        if n <= 0 {
            Seq::empty()
        } else {
            let rest = self.tuning_updates(n - 1, records, now);
            let tuned = self.tuned_group(n - 1, records, now);
            if tuned.settings != self.groups[n - 1].settings {
                rest.push(
                    MediaUpdateView {
                        media: self.groups[n - 1].media->0,
                        settings: tuned.settings,
                    },
                )
            } else {
                rest
            }
        }
    }
}

fn ease_bitrate(bitrate: u32) -> (r: u32)
    ensures
        r == eased_bitrate(bitrate),
{
    let wide: u64 = bitrate as u64 * 90;
    let scaled: u64 = if wide > u32::MAX as u64 {
        u32::MAX as u64
    } else {
        wide
    };
    if scaled / 100 >= 250_000 {
        (scaled / 100) as u32
    } else {
        250_000
    }
}

fn raise_bitrate(bitrate: u32, ceiling: u32) -> (r: u32)
    ensures
        r == raised_bitrate(bitrate, ceiling),
{
    let wide: u64 = bitrate as u64 * 110;
    let scaled: u64 = if wide > u32::MAX as u64 {
        u32::MAX as u64
    } else {
        wide
    };
    if scaled / 100 <= ceiling as u64 {
        (scaled / 100) as u32
    } else {
        ceiling
    }
}

fn ease(current: &CaptureSettings) -> (r: CaptureSettings)
    ensures
        r@ == eased(current@),
{
    let mut next = current.clone();
    let bitrate = ease_bitrate(current.bitrate);
    let fps = profile::profile_fps(current);
    if bitrate != current.bitrate {
        next.bitrate = bitrate;
    } else if fps > 5 {
        next.output_fps = Some(profile::lower_fps(fps));
    } else {
        next.output_height = Some(profile::lower_height(profile::profile_height(current)));
    }
    next
}

fn raise(current: &CaptureSettings, ceiling: &CaptureSettings) -> (r: CaptureSettings)
    ensures
        r@ == raised(current@, ceiling@),
{
    let mut next = current.clone();
    let bitrate = raise_bitrate(current.bitrate, ceiling.bitrate);
    let fps = profile::profile_fps(current);
    let ceiling_fps = profile::profile_fps(ceiling);
    let height = profile::profile_height(current);
    let ceiling_height = profile::profile_height(ceiling);
    if bitrate != current.bitrate {
        next.bitrate = bitrate;
    } else if fps < ceiling_fps {
        next.output_fps = Some(profile::higher_fps(fps, ceiling_fps));
    } else if height < ceiling_height {
        next.output_height = Some(profile::higher_height(height, ceiling_height));
    }
    next
}

/// The outcome of tuning: whether a profile changed, and the encoders that are to take theirs.
#[derive(Debug)]
pub struct Tuning {
    pub changed: bool,
    pub updates: Vec<MediaUpdate>,
}

impl TranscodeGroups {
    fn collect_report(&self, group_id: usize, records: &Vec<ViewerRecord>, now: u64) -> (r: (
        usize,
        usize,
        Vec<MetricSample>,
    ))
        ensures
            ({
                let report = group_report(
                    self@.assignments,
                    group_id,
                    record_views(records@),
                    now,
                );
                r.0 == report.members && r.1 == report.failures && r.2@ == report.samples
            }),
            r.1 <= r.0 <= self.assignments@.len(),
    {
        let ghost clients = self@.assignments;
        let ghost views = record_views(records@);
        let mut members: usize = 0;
        let mut failures: usize = 0;
        let mut samples: Vec<MetricSample> = Vec::new();
        let mut i: usize = 0;
        while i < self.assignments.len()
            invariant
                i <= self.assignments@.len(),
                clients == self@.assignments,
                views == record_views(records@),
                failures <= members <= i,
                ({
                    let report = group_report(clients.take(i as int), group_id, views, now);
                    members == report.members && failures == report.failures && samples@
                        == report.samples
                }),
            decreases self.assignments@.len() - i,
        {
            assert(clients.take(i + 1).drop_last() =~= clients.take(i as int));
            assert(clients.take(i + 1).last() == self.assignments@[i as int]@);
            let client = &self.assignments[i];
            if client.group_id == group_id && nanos_since(now, client.last_change)
                >= ASSIGNMENT_HOLD_NANOS {
                let at = find_record(records, client.client_id.as_str());
                if at < records.len() {
                    let mut window: Vec<MetricSample> = Vec::new();
                    metrics::collect_window(&records[at].metrics.samples, now, &mut window);
                    assert(window@ =~= metrics::window(views[at as int].metrics.samples, now));
                    let (dropped, freezes) = metrics::playback_totals(window.as_slice());
                    if metrics::playback_requires_downgrade(dropped, freezes) {
                        failures += 1;
                    }
                    members += 1;
                    samples.append(&mut window);
                }
            }
            i += 1;
        }
        assert(clients.take(i as int) =~= clients);
        (members, failures, samples)
    }

    fn tune_profile(
        &self,
        at: usize,
        members: usize,
        failures: usize,
        samples: &Vec<MetricSample>,
    ) -> (r: CaptureSettings)
        requires
            at < self.groups@.len(),
            samples@.len() >= 5,
            failures <= members,
        ensures
            r@ == tuned_profile(
                self@.groups[at as int],
                GroupReport {
                    members: members as nat,
                    failures: failures as nat,
                    samples: samples@,
                },
            ),
    {
        let group = &self.groups[at];
        let slice = samples.as_slice();
        let starved = metrics::count_starved(slice, group.settings.bitrate, 70, 75);
        let lossy = metrics::count_lossy(slice);
        let (dropped, freezes) = metrics::playback_totals(slice);
        let failing = members > 0 && failures >= members - failures;
        let unstable = metrics::share_reaches(starved, samples.len(), 80)
            || metrics::share_reaches(lossy, samples.len(), 60) || failing;
        let stable = starved == 0 && lossy == 0 && !metrics::playback_holds_upgrade(
            dropped,
            freezes,
        );
        if unstable {
            ease(&group.settings)
        } else if stable {
            raise(&group.settings, &group.ceiling)
        } else {
            group.settings.clone()
        }
    }

    /// Adjusts the profile of every group to what its members report.
    pub fn tune(&mut self, records: &Vec<ViewerRecord>, now: u64) -> (r: Tuning)
        requires
            old(self)@.wf(),
        ensures
            final(self)@ == (GroupsView {
                groups: Seq::new(
                    old(self)@.groups.len(),
                    |i: int| old(self)@.tuned_group(i, record_views(records@), now),
                ),
                ..old(self)@
            }),
            final(self)@.wf(),
            groups::update_views(r.updates@) == old(self)@.tuning_updates(
                old(self)@.groups.len() as int,
                record_views(records@),
                now,
            ),
            r.changed == (r.updates@.len() > 0),
    {
        let ghost views = record_views(records@);
        let mut updates: Vec<MediaUpdate> = Vec::new();
        let mut i: usize = 0;
        assert(groups::update_views(updates@) =~= Seq::empty());
        while i < self.groups.len()
            invariant
                i <= self.groups@.len(),
                old(self)@.wf(),
                self.groups@.len() == old(self).groups@.len(),
                self.assignments@ == old(self).assignments@,
                self.policy == old(self).policy,
                self.active_budget == old(self).active_budget,
                views == record_views(records@),
                groups::update_views(updates@) == old(self)@.tuning_updates(i as int, views, now),
                forall|j: int|
                    0 <= j < i ==> self@.groups[j] == #[trigger] old(self)@.tuned_group(
                        j,
                        views,
                        now,
                    ),
                forall|j: int|
                    i <= j < self.groups@.len() ==> self@.groups[j]
                        == #[trigger] old(self)@.groups[j],
            decreases self.groups@.len() - i,
        {
            let ghost before = self@.groups;
            let ghost current = old(self)@.groups[i as int];
            assert(before[i as int] == current);
            assert(self@.is_active(i as int) == old(self)@.is_active(i as int));
            if self.group_is_active(i) {
                let (members, failures, samples) = self.collect_report(i, records, now);
                let ghost report = group_report(old(self)@.assignments, i, views, now);
                assert(report == (GroupReport {
                    members: members as nat,
                    failures: failures as nat,
                    samples: samples@,
                }));
                if samples.len() >= 5 && nanos_since(now, self.groups[i].last_tuned)
                    >= TUNING_HOLD_NANOS {
                    let next = self.tune_profile(i, members, failures, &samples);
                    if !next.same_as(&self.groups[i].settings) {
                        if let Some(media) = self.groups[i].media {
                            let ghost earlier = updates@;
                            updates.push(MediaUpdate { media, settings: next.clone() });
                            assert(groups::update_views(updates@) =~= groups::update_views(earlier).push(
                                updates@.last()@,
                            ));
                        }
                        self.groups[i].settings = next;
                        self.groups[i].last_tuned = now;
                    }
                }
            }
            assert(self@.groups =~= before.update(
                i as int,
                old(self)@.tuned_group(i as int, views, now),
            ));
            i += 1;
        }
        assert(self@.groups =~= Seq::new(
            old(self)@.groups.len(),
            |i: int| old(self)@.tuned_group(i, views, now),
        ));
        let changed = updates.len() > 0;
        Tuning { changed, updates }
    }
}

} // verus!
