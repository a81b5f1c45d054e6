//! The bitrate of a stream with a single quality, adapted to what its viewers report.

use vstd::prelude::*;

use crate::config;
use crate::exact;
use crate::float;
use crate::float::Precision;
use crate::groups::tuning;
use crate::groups::tuning::{RecordView, ViewerRecord};
use crate::media;
use crate::media::{nanos_since, CaptureSettings, CaptureSettingsView};
use crate::metrics;
use crate::profile::uses_single_group_bitrate_adaptation;

verus! {

/// Reports older than this do not count.
pub const REPORT_AGE_LIMIT_NANOS: u64 = 10_000_000_000;

/// How long the bitrate stays as it is after a change.
pub const CHANGE_HOLD_NANOS: u64 = 5_000_000_000;

/// How long the reports have to be good before the bitrate rises.
pub const STABLE_TIME_NANOS: u64 = 10_000_000_000;

pub const MIN_BITRATE: u32 = 250_000;

/// The most viewers whose reports are taken together.
pub const MAX_REPORTS: usize = 0x8000_0000;

pub open spec fn is_recent(record: RecordView, now: u64) -> bool {
    media::timing::elapsed(now, record.metrics.updated_at) <= REPORT_AGE_LIMIT_NANOS
}

pub open spec fn recent(records: Seq<RecordView>, now: u64) -> Seq<RecordView> {
    crate::list::kept(records, |r: RecordView| is_recent(r, now))
}

/// A report of trouble: loss, delay or jitter.
pub open spec fn reports_trouble(record: RecordView) -> bool {
    metrics::is_above(record.metrics.loss_rate, float::ratio(5, 100)) || metrics::is_above(
        record.metrics.rtt_ms,
        float::ratio(250, 1),
    ) || metrics::is_above(record.metrics.jitter_ms, float::ratio(50, 1))
}

/// A report of a good connection: nothing in it reaches a limit. What is no number does not count.
pub open spec fn reports_ease(record: RecordView) -> bool {
    !metrics::is_at_least(record.metrics.loss_rate, float::ratio(1, 100)) && !metrics::is_at_least(
        record.metrics.rtt_ms,
        float::ratio(100, 1),
    ) && !metrics::is_at_least(record.metrics.jitter_ms, float::ratio(20, 1))
}

/// The sum of the received bitrates that are greater than zero, added in order.
pub open spec fn bitrate_sum(records: Seq<RecordView>) -> float::Float
    decreases records.len(),
{
    if records.len() == 0 {
        float::zero(Precision::Double)
    } else {
        let rest = bitrate_sum(records.drop_last());
        let bitrate = records.last().metrics.bitrate_bps;
        if metrics::is_positive(bitrate) {
            float::sum(rest, metrics::value(bitrate))
        } else {
            rest
        }
    }
}

pub open spec fn average_bitrate(records: Seq<RecordView>) -> float::Float {
    float::quotient(
        bitrate_sum(records),
        float::of_nat(Precision::Double, records.len()),
    )
}

/// The viewers receive something, but on average less than the smallest bitrate. An average that is
/// rounded to zero is nothing.
pub open spec fn is_starving(records: Seq<RecordView>) -> bool {
    float::less(float::half_of_least(), average_bitrate(records)) && float::less(
        average_bitrate(records),
        float::of_nat(Precision::Double, MIN_BITRATE as nat),
    )
}

pub open spec fn is_bad(records: Seq<RecordView>) -> bool {
    (exists|i: int| 0 <= i < records.len() && #[trigger] reports_trouble(records[i]))
        || is_starving(records)
}

pub open spec fn is_good(records: Seq<RecordView>) -> bool {
    forall|i: int| 0 <= i < records.len() ==> #[trigger] reports_ease(records[i])
}

pub open spec fn capped_product(n: u32, factor: nat) -> nat {
    if n * factor > u32::MAX {
        u32::MAX as nat
    } else {
        (n * factor) as nat
    }
}

pub open spec fn clamped(n: nat, ceiling: u32) -> u32 {
    let highest = config::max_u32(ceiling, MIN_BITRATE);
    if n < MIN_BITRATE {
        MIN_BITRATE
    } else if n > highest {
        highest
    } else {
        n as u32
    }
}

/// A change by less than a twentieth is not worth it.
pub open spec fn is_worthwhile(current: u32, target: u32) -> bool {
    let change = if target >= current {
        target - current
    } else {
        current - target
    };
    target != current && !float::less(
        float::of_nat(Precision::Double, change as nat),
        float::product(
            float::of_nat(Precision::Double, current as nat),
            float::ratio(5, 100),
        ),
    )
}

/// When the reports were last other than good, and when the bitrate last changed.
#[derive(Clone, Copy, Debug, PartialEq, Eq, Structural)]
pub struct BitrateController {
    pub stable_since: u64,
    pub last_change: u64,
}

impl BitrateController {
    /// The bitrate that the reports ask for.
    pub open spec fn target(
        self,
        records: Seq<RecordView>,
        current: u32,
        ceiling: u32,
        now: u64,
    ) -> u32 {
        clamped(
            if is_bad(records) {
                capped_product(current, 3) / 4
            } else if is_good(records) && media::timing::elapsed(now, self.stable_since)
                >= STABLE_TIME_NANOS {
                capped_product(current, 11) / 10
            } else {
                current as nat
            },
            ceiling,
        )
    }

    /// One look at the reports: the controller after it, and the new bitrate if it changes.
    pub open spec fn ticked(
        self,
        stream_enabled: bool,
        settings: CaptureSettingsView,
        records: Seq<RecordView>,
        ceiling: u32,
        now: u64,
    ) -> (Self, Option<u32>) {
        let counted = recent(records, now);
        if !stream_enabled || !(settings.quality_mode != "adaptive"@ && settings.bitrate_mode
            == "automatic"@) {
            (BitrateController { stable_since: now, ..self }, None)
        } else if counted.len() == 0 {
            (self, None)
        } else {
            let seen = BitrateController {
                stable_since: if is_good(counted) {
                    self.stable_since
                } else {
                    now
                },
                ..self
            };
            let target = seen.target(counted, settings.bitrate, ceiling, now);
            if media::timing::elapsed(now, self.last_change) < CHANGE_HOLD_NANOS || !is_worthwhile(
                settings.bitrate,
                target,
            ) {
                (seen, None)
            } else {
                (BitrateController { last_change: now, ..seen }, Some(target))
            }
        }
    }

    pub fn new(now: u64) -> (r: Self)
        requires
            now >= 10_000_000_000,
        ensures
            r == (BitrateController {
                stable_since: now,
                last_change: (now - 10_000_000_000) as u64,
            }),
    {
        BitrateController { stable_since: now, last_change: now - 10_000_000_000 }
    }

    /// Looks at the reports of the viewers; a returned bitrate replaces that of the settings.
    /// `ceiling` is the bitrate of the configuration.
    pub fn tick(
        &mut self,
        stream_enabled: bool,
        settings: &CaptureSettings,
        records: &Vec<ViewerRecord>,
        ceiling: u32,
        now: u64,
    ) -> (r: Option<u32>)
        requires
            records@.len() <= MAX_REPORTS,
        ensures
            (*final(self), r) == old(self).ticked(
                stream_enabled,
                settings@,
                tuning::record_views(records@),
                ceiling,
                now,
            ),
    {
        if !stream_enabled || !uses_single_group_bitrate_adaptation(settings) {
            self.stable_since = now;
            return None;
        }
        let reports = Reports::collect(records, now);
        if reports.count == 0 {
            return None;
        }
        let starving = reports.starving();
        if !reports.good {
            self.stable_since = now;
        }
        if nanos_since(now, self.last_change) < CHANGE_HOLD_NANOS {
            return None;
        }
        let current = settings.bitrate;
        let wanted: u64 = if reports.trouble || starving {
            capped(current as u64 * 3) / 4
        } else if reports.good && nanos_since(now, self.stable_since) >= STABLE_TIME_NANOS {
            capped(current as u64 * 11) / 10
        } else {
            current as u64
        };
        let highest = if ceiling > MIN_BITRATE {
            ceiling
        } else {
            MIN_BITRATE
        };
        let target: u32 = if wanted < MIN_BITRATE as u64 {
            MIN_BITRATE
        } else if wanted > highest as u64 {
            highest
        } else {
            wanted as u32
        };
        if !worthwhile(current, target) {
            return None;
        }
        self.last_change = now;
        Some(target)
    }
}

fn capped(n: u64) -> (r: u64)
    ensures
        r == if n > u32::MAX {
            u32::MAX as u64
        } else {
            n
        },
{
    if n > u32::MAX as u64 {
        u32::MAX as u64
    } else {
        n
    }
}

fn worthwhile(current: u32, target: u32) -> (r: bool)
    ensures
        r == is_worthwhile(current, target),
{
    if target == current {
        return false;
    }
    let change: u32 = if target >= current {
        target - current
    } else {
        current - target
    };
    let share = float::multiply(
        float::integer(Precision::Double, current as u64),
        float::fraction(5, 100),
    );
    !float::is_less(float::integer(Precision::Double, change as u64), share)
}

/// What the recent reports say together.
struct Reports {
    count: usize,
    trouble: bool,
    good: bool,
    sum: float::Float,
}

impl Reports {
    spec fn tells(self, records: Seq<RecordView>) -> bool {
        &&& self.count == records.len()
        &&& self.trouble == exists|i: int|
            0 <= i < records.len() && #[trigger] reports_trouble(records[i])
        &&& self.good == is_good(records)
        &&& self.sum == bitrate_sum(records)
        &&& self.sum.wf()
        &&& self.sum.precision == Precision::Double
        &&& self.count <= MAX_REPORTS
        &&& self.sum.within(2048 + 128 * self.count)
    }

    fn collect(records: &Vec<ViewerRecord>, now: u64) -> (r: Self)
        requires
            records@.len() <= MAX_REPORTS,
        ensures
            r.tells(recent(tuning::record_views(records@), now)),
    {
        let ghost views = tuning::record_views(records@);
        let mut reports = Reports {
            count: 0,
            trouble: false,
            good: true,
            sum: float::Float { precision: Precision::Double, significand: 0, exponent: 0 },
        };
        let mut i: usize = 0;
        while i < records.len()
            invariant
                i <= records@.len() <= MAX_REPORTS,
                views == tuning::record_views(records@),
                reports.tells(recent(views.take(i as int), now)),
                reports.count <= i,
            decreases records@.len() - i,
        {
            let ghost before = recent(views.take(i as int), now);
            let ghost after = recent(views.take(i + 1), now);
            assert(views.take(i + 1).drop_last() =~= views.take(i as int));
            assert(views[i as int] == records@[i as int]@);
            if nanos_since(now, records[i].metrics.updated_at) <= REPORT_AGE_LIMIT_NANOS {
                assert(after =~= before.push(views[i as int]));
                assert(after.drop_last() =~= before);
                let metrics = &records[i].metrics;
                let trouble = metrics::above(metrics.loss_rate, float::fraction(5, 100))
                    || metrics::above(metrics.rtt_ms, float::fraction(250, 1)) || metrics::above(
                    metrics.jitter_ms,
                    float::fraction(50, 1),
                );
                let ease = !metrics::at_least(metrics.loss_rate, float::fraction(1, 100))
                    && !metrics::at_least(metrics.rtt_ms, float::fraction(100, 1))
                    && !metrics::at_least(metrics.jitter_ms, float::fraction(20, 1));
                assert(trouble == reports_trouble(views[i as int]));
                assert(ease == reports_ease(views[i as int]));
                proof {
                    assert forall|j: int| 0 <= j < before.len() implies before[j] == after[j] by {}
                    assert(after[before.len() as int] == views[i as int]);
                    if reports.trouble {
                        let j = choose|j: int|
                            0 <= j < before.len() && #[trigger] reports_trouble(before[j]);
                        assert(reports_trouble(after[j]));
                    }
                    if exists|j: int| 0 <= j < after.len() && #[trigger] reports_trouble(after[j]) {
                        let j = choose|j: int|
                            0 <= j < after.len() && #[trigger] reports_trouble(after[j]);
                        if j < before.len() {
                            assert(reports_trouble(before[j]));
                        }
                    }
                    if is_good(after) {
                        assert forall|j: int| 0 <= j < before.len() implies #[trigger]
                            reports_ease(before[j]) by {
                            assert(reports_ease(after[j]));
                        }
                        assert(reports_ease(after[before.len() as int]));
                    }
                    if is_good(before) && ease {
                        assert forall|j: int| 0 <= j < after.len() implies #[trigger]
                            reports_ease(after[j]) by {
                            if j < before.len() {
                                assert(reports_ease(before[j]));
                            }
                        }
                    }
                }
                reports = Reports {
                    count: reports.count + 1,
                    trouble: reports.trouble || trouble,
                    good: reports.good && ease,
                    sum: if metrics::positive(metrics.bitrate_bps) {
                        float::plus(reports.sum, metrics::decoded(metrics.bitrate_bps))
                    } else {
                        reports.sum
                    },
                };
            }
            i += 1;
        }
        assert(views.take(i as int) =~= views);
        reports
    }

    fn starving(&self) -> (r: bool)
        requires
            self.count > 0,
            self.sum.wf(),
            self.sum.precision == Precision::Double,
            self.count <= MAX_REPORTS,
            self.sum.within(2048 + 128 * self.count),
        ensures
            forall|records: Seq<RecordView>| #[trigger]
                self.tells(records) ==> r == is_starving(records),
    {
        let average = float::divide(
            self.sum,
            float::integer(Precision::Double, self.count as u64),
        );
        float::is_less(float::least_half(), average) && float::is_less(
            average,
            float::integer(Precision::Double, MIN_BITRATE as u64),
        )
    }
}

/// The bitrate never leaves the range from the smallest bitrate to the configured one.
pub proof fn lemma_bitrate_stays_in_range(
    controller: BitrateController,
    stream_enabled: bool,
    settings: CaptureSettingsView,
    records: Seq<RecordView>,
    ceiling: u32,
    now: u64,
)
    ensures
        controller.ticked(stream_enabled, settings, records, ceiling, now).1 matches Some(target)
            ==> MIN_BITRATE <= target <= config::max_u32(ceiling, MIN_BITRATE),
{
}

proof fn lemma_trouble_is_measured(record: RecordView)
    ensures
        metrics::measures_at_least(record.metrics.loss_rate, 5 * 1001, 100_000)
            || metrics::measures_at_least(record.metrics.rtt_ms, 250 * 1001, 1000)
            || metrics::measures_at_least(record.metrics.jitter_ms, 50 * 1001, 1000)
            ==> reports_trouble(record),
        metrics::measures_at_most(record.metrics.loss_rate, 5, 100) && metrics::measures_at_most(
            record.metrics.rtt_ms,
            250,
            1,
        ) && metrics::measures_at_most(record.metrics.jitter_ms, 50, 1) ==> !reports_trouble(record),
        metrics::measures_at_least(record.metrics.loss_rate, 1, 100) || metrics::measures_at_least(
            record.metrics.rtt_ms,
            100,
            1,
        ) || metrics::measures_at_least(record.metrics.jitter_ms, 20, 1) ==> !reports_ease(record),
        metrics::measures_at_most(record.metrics.loss_rate, 999, 100_000)
            && metrics::measures_at_most(record.metrics.rtt_ms, 100 * 999, 1000)
            && metrics::measures_at_most(record.metrics.jitter_ms, 20 * 999, 1000) ==> reports_ease(
            record,
        ),
{
    metrics::lemma_comparisons_measure(record.metrics.loss_rate, 5, 100);
    metrics::lemma_comparisons_measure(record.metrics.rtt_ms, 250, 1);
    metrics::lemma_comparisons_measure(record.metrics.jitter_ms, 50, 1);
    metrics::lemma_comparisons_measure(record.metrics.loss_rate, 1, 100);
    metrics::lemma_comparisons_measure(record.metrics.rtt_ms, 100, 1);
    metrics::lemma_comparisons_measure(record.metrics.jitter_ms, 20, 1);
}

proof fn lemma_recent_reports(records: Seq<RecordView>, now: u64)
    requires
        forall|k: int|
            0 <= k < records.len() ==> (#[trigger] records[k]).metrics.updated_at <= now && now
                - records[k].metrics.updated_at <= 10_000_000_000,
    ensures
        recent(records, now) == records,
    decreases records.len(),
{
    if records.len() > 0 {
        let rest = records.drop_last();
        assert forall|k: int| 0 <= k < rest.len() implies (#[trigger] rest[k]).metrics.updated_at
            <= now && now - rest[k].metrics.updated_at <= 10_000_000_000 by {
            assert(rest[k] == records[k]);
        }
        lemma_recent_reports(rest, now);
        assert(records.last() == records[records.len() - 1]);
        assert(recent(records, now) =~= records);
    } else {
        assert(recent(records, now) =~= records);
    }
}

proof fn lemma_small_change(current: u32, target: u32)
    requires
        target != current,
        ({
            let change = if target >= current {
                target - current
            } else {
                current - target
            };
            100_000 * change >= 5 * 1001 * current
        }),
    ensures
        is_worthwhile(current, target),
{
    let change: int = if target >= current {
        target - current
    } else {
        current - target
    };
    let c = float::of_nat(Precision::Double, change as nat);
    let limit = metrics::share_of(current, 5);
    exact::lemma_integer_is_exact(change as nat);
    exact::lemma_bitrate_share(current, 5);
    exact::lemma_at_most_is_not_less(limit, c);
    let n = current as nat * 5 * 1001;
    let now = current as int;
    assert(100_000 * change >= 5 * 1001 * now);
    assert(n == 5005 * now) by (nonlinear_arith)
        requires
            n == current as nat * 5 * 1001,
            now == current as int,
    ;
    exact::lemma_fractions(c, n, 100_000, change as nat, 1);
    exact::lemma_between(limit, n, 100_000, c);
}

/// When any viewer reports loss above a twentieth, a delay above 250 ms or jitter above 50 ms, the
/// bitrate falls by a quarter, but not below the smallest; not within five seconds of the last change.
pub proof fn lemma_trouble_lowers_the_bitrate(
    controller: BitrateController,
    settings: CaptureSettingsView,
    records: Seq<RecordView>,
    ceiling: u32,
    now: u64,
    k: int,
)
    requires
        settings.quality_mode != "adaptive"@,
        settings.bitrate_mode == "automatic"@,
        400_000 <= settings.bitrate <= 1_000_000_000,
        settings.bitrate <= ceiling,
        controller.last_change <= now,
        controller.stable_since <= now,
        forall|j: int|
            0 <= j < records.len() ==> (#[trigger] records[j]).metrics.updated_at <= now && now
                - records[j].metrics.updated_at <= 10_000_000_000,
        0 <= k < records.len(),
        metrics::measures_at_least(records[k].metrics.loss_rate, 5 * 1001, 100_000)
            || metrics::measures_at_least(records[k].metrics.rtt_ms, 250 * 1001, 1000)
            || metrics::measures_at_least(records[k].metrics.jitter_ms, 50 * 1001, 1000),
    ensures
        ({
            let (after, target) = controller.ticked(true, settings, records, ceiling, now);
            &&& after.stable_since == now
            &&& now - controller.last_change >= 5_000_000_000 ==> {
                &&& target == Some((3 * settings.bitrate / 4) as u32)
                &&& after.last_change == now
            }
            &&& now - controller.last_change < 5_000_000_000 ==> target is None
        }),
{
    lemma_recent_reports(records, now);
    lemma_trouble_is_measured(records[k]);
    assert(reports_trouble(records[k]));
    lemma_trouble_at_ease(records[k]);
    assert(!is_good(records)) by {
        assert(!reports_ease(records[k]));
    }
    lemma_small_change(settings.bitrate, (3 * settings.bitrate / 4) as u32);
}

proof fn lemma_trouble_at_ease(record: RecordView)
    ensures
        metrics::measures_at_least(record.metrics.loss_rate, 5 * 1001, 100_000)
            || metrics::measures_at_least(record.metrics.rtt_ms, 250 * 1001, 1000)
            || metrics::measures_at_least(record.metrics.jitter_ms, 50 * 1001, 1000)
            ==> !reports_ease(record),
{
    lemma_trouble_is_measured(record);
    exact::lemma_fractions(metrics::value(record.metrics.loss_rate), 1, 100, 5 * 1001, 100_000);
    exact::lemma_fractions(metrics::value(record.metrics.rtt_ms), 100, 1, 250 * 1001, 1000);
    exact::lemma_fractions(metrics::value(record.metrics.jitter_ms), 20, 1, 50 * 1001, 1000);
}

/// When all viewers have reported loss below a hundredth, delays below 100 ms and jitter below 20 ms
/// for ten seconds, and receive enough, the bitrate rises by a tenth, up to the ceiling.
pub proof fn lemma_ease_raises_the_bitrate(
    controller: BitrateController,
    settings: CaptureSettingsView,
    records: Seq<RecordView>,
    ceiling: u32,
    now: u64,
)
    requires
        settings.quality_mode != "adaptive"@,
        settings.bitrate_mode == "automatic"@,
        250_000 <= settings.bitrate <= 300_000_000,
        10 * ceiling >= 11 * settings.bitrate,
        controller.last_change <= now,
        now - controller.last_change >= 5_000_000_000,
        controller.stable_since <= now,
        records.len() > 0,
        forall|j: int|
            0 <= j < records.len() ==> (#[trigger] records[j]).metrics.updated_at <= now && now
                - records[j].metrics.updated_at <= 10_000_000_000 && metrics::measures_at_most(
                records[j].metrics.loss_rate,
                999,
                100_000,
            ) && metrics::measures_at_most(records[j].metrics.rtt_ms, 100 * 999, 1000)
                && metrics::measures_at_most(records[j].metrics.jitter_ms, 20 * 999, 1000),
        !is_starving(records),
    ensures
        ({
            let (after, target) = controller.ticked(true, settings, records, ceiling, now);
            &&& after.stable_since == controller.stable_since
            &&& now - controller.stable_since >= 10_000_000_000 ==> target == Some(
                (11 * settings.bitrate / 10) as u32,
            )
            &&& now - controller.stable_since < 10_000_000_000 ==> target is None
        }),
{
    lemma_recent_reports(records, now);
    assert forall|j: int| 0 <= j < records.len() implies #[trigger] reports_ease(records[j])
        && !reports_trouble(records[j]) by {
        lemma_trouble_is_measured(records[j]);
        exact::lemma_fractions(
            metrics::value(records[j].metrics.loss_rate),
            999,
            100_000,
            5,
            100,
        );
        exact::lemma_fractions(metrics::value(records[j].metrics.rtt_ms), 100 * 999, 1000, 250, 1);
        exact::lemma_fractions(metrics::value(records[j].metrics.jitter_ms), 20 * 999, 1000, 50, 1);
    }
    assert(is_good(records));
    assert forall|j: int| 0 <= j < records.len() implies !#[trigger] reports_trouble(records[j]) by {
        assert(reports_ease(records[j]));
    }
    assert(!is_bad(records));
    let b = settings.bitrate as int;
    let raised = 11 * b / 10;
    assert(raised - b >= b / 10);
    assert(raised <= ceiling);
    assert(100_000 * (b / 10) >= 5005 * b) by (nonlinear_arith)
        requires
            b >= 250_000,
    ;
    assert(100_000 * (raised - b) >= 5 * 1001 * b);
    lemma_small_change(settings.bitrate, raised as u32);
}

/// The bitrate of a stream that is off, or whose settings ask for none of this, is left alone; and so
/// it is while nobody has reported within ten seconds.
pub proof fn lemma_bitrate_is_left_alone(
    controller: BitrateController,
    stream_enabled: bool,
    settings: CaptureSettingsView,
    records: Seq<RecordView>,
    ceiling: u32,
    now: u64,
)
    requires
        !stream_enabled || settings.quality_mode == "adaptive"@ || settings.bitrate_mode
            != "automatic"@ || records.len() == 0,
    ensures
        controller.ticked(stream_enabled, settings, records, ceiling, now).1 is None,
{
}

/// Viewers who report no bitrate do not count as starving.
pub proof fn lemma_silent_viewers_do_not_starve(records: Seq<RecordView>)
    requires
        0 < records.len() < 0x1_0000_0000,
        forall|i: int|
            0 <= i < records.len() ==> !metrics::is_positive(
                (#[trigger] records[i]).metrics.bitrate_bps,
            ),
    ensures
        !is_starving(records),
{
    lemma_nothing_adds_up(records);
    float::lemma_ratio_is_normal(records.len(), 1);
    let none = float::zero(Precision::Double);
    let count = float::of_nat(Precision::Double, records.len());
    float::lemma_single_quotient_is_normal(none, count);
    let average = average_bitrate(records);
    assert(average.significand == 0);
    let half = float::half_of_least();
    let least = if half.exponent <= average.exponent {
        half.exponent
    } else {
        average.exponent
    };
    let p = vstd::arithmetic::power2::pow2((average.exponent - least) as nat) as int;
    let q = vstd::arithmetic::power2::pow2((half.exponent - least) as nat) as int;
    assert(0 * p == 0);
    assert(half.significand * q >= 0) by (nonlinear_arith)
        requires
            half.significand >= 0,
            q >= 0,
    ;
}

proof fn lemma_nothing_adds_up(records: Seq<RecordView>)
    requires
        forall|i: int|
            0 <= i < records.len() ==> !metrics::is_positive(
                (#[trigger] records[i]).metrics.bitrate_bps,
            ),
    ensures
        bitrate_sum(records) == float::zero(Precision::Double),
    decreases records.len(),
{
    if records.len() > 0 {
        assert(!metrics::is_positive(records[records.len() - 1].metrics.bitrate_bps));
        lemma_nothing_adds_up(records.drop_last());
    }
}

} // verus!
