//! What viewers report about their playback, and the verdicts drawn from it.
//!
//! A measured number is carried as the bits of its IEEE 754 binary64 encoding.

use std::collections::VecDeque;

use vstd::prelude::*;

use crate::exact;
use crate::float;
use crate::list;
use crate::media;
use crate::media::nanos_since;
use crate::text;

verus! {

pub const MAX_METRIC_SAMPLES_PER_VIEWER: usize = 32;

pub const MIN_VIEWER_METRIC_INTERVAL_NANOS: u64 = 250_000_000;

/// Samples older than this do not count.
pub const METRIC_WINDOW_NANOS: u64 = 15_000_000_000;

pub const FREEZE_DOWNGRADE_THRESHOLD: u64 = 3;

/// Dropped frames often include deliberate catch-up, so only an extreme number counts as failure.
pub const EXTREME_DROPPED_FRAME_THRESHOLD: u64 = 300;

pub const DROPPED_FRAME_UPGRADE_HOLD_THRESHOLD: u64 = 120;

pub const FREEZE_UPGRADE_HOLD_THRESHOLD: u64 = 1;

/// The sign bit of an encoded number.
pub const SIGN_BIT: u64 = 0x8000_0000_0000_0000;

/// The encodings from here up to the sign bit are infinities and not-a-numbers.
pub const INFINITY_BITS: u64 = 0x7ff0_0000_0000_0000;

/// The encoding of 60000.
pub const SIXTY_THOUSAND: u64 = 0x40ed_4c00_0000_0000;

/// The encoding of 1.
pub const ONE: u64 = 0x3ff0_0000_0000_0000;

/// The encoding of 10000000000.
pub const TEN_BILLION: u64 = 0x4202_a05f_2000_0000;

/// The encoding without its sign.
pub open spec fn magnitude_bits(bits: u64) -> u64 {
    if bits >= SIGN_BIT {
        (bits - SIGN_BIT) as u64
    } else {
        bits
    }
}

pub open spec fn is_finite(bits: u64) -> bool {
    magnitude_bits(bits) < INFINITY_BITS
}

/// Whether an encoding stands for a number, which may be infinite.
pub open spec fn is_number(bits: u64) -> bool {
    magnitude_bits(bits) <= INFINITY_BITS
}

/// Whether a number is smaller than zero.
pub open spec fn is_negative(bits: u64) -> bool {
    bits > SIGN_BIT
}

/// Whether an encoding stands for a number greater than zero.
pub open spec fn is_positive(bits: u64) -> bool {
    0 < bits <= INFINITY_BITS
}

/// Numbers are in the order of their ranks: magnitudes are in the order of their encodings.
pub open spec fn rank(bits: u64) -> int {
    if bits >= SIGN_BIT {
        -(bits - SIGN_BIT)
    } else {
        bits as int
    }
}

/// The number itself, its sign aside.
pub open spec fn value(bits: u64) -> float::Float {
    float::magnitude_of_bits(magnitude_bits(bits))
}

/// A finite number that is not below zero.
pub open spec fn is_metric(bits: u64) -> bool {
    is_finite(bits) && !is_negative(bits)
}

fn magnitude(bits: u64) -> (r: u64)
    ensures
        r == magnitude_bits(bits),
{
    if bits >= SIGN_BIT {
        bits - SIGN_BIT
    } else {
        bits
    }
}

/// Decodes a number, its sign aside.
pub fn decoded(bits: u64) -> (r: float::Float)
    ensures
        r == value(bits),
        r.wf(),
        r.precision == float::Precision::Double,
        r.within(2048),
{
    float::decode_magnitude(magnitude(bits))
}

/// Whether the number `a` is smaller than the number `b`.
fn precedes(a: u64, b: u64) -> (r: bool)
    ensures
        r == (rank(a) < rank(b)),
{
    if a >= SIGN_BIT {
        if b >= SIGN_BIT {
            a > b
        } else {
            a > SIGN_BIT || b > 0
        }
    } else {
        b < SIGN_BIT && a < b
    }
}

/// A reported number brought into the range from `minimum` to `maximum`; what is no finite number
/// becomes the minimum.
pub open spec fn bounded_metric(bits: u64, minimum: u64, maximum: u64) -> u64 {
    if !is_finite(bits) || rank(bits) < rank(minimum) {
        minimum
    } else if rank(bits) > rank(maximum) {
        maximum
    } else {
        bits
    }
}

pub fn finite_metric(bits: u64, minimum: u64, maximum: u64) -> (r: u64)
    requires
        is_number(minimum),
        is_number(maximum),
        rank(minimum) <= rank(maximum),
    ensures
        r == bounded_metric(bits, minimum, maximum),
{
    if magnitude(bits) >= INFINITY_BITS || precedes(bits, minimum) {
        minimum
    } else if precedes(maximum, bits) {
        maximum
    } else {
        bits
    }
}

/// Whether an encoded number is smaller than a number that is not negative. No comparison holds of
/// what is no number.
pub open spec fn is_below(bits: u64, limit: float::Float) -> bool {
    is_number(bits) && (is_negative(bits) || float::less(value(bits), limit))
}

/// Whether an encoded number is at least as great as one that is not negative.
pub open spec fn is_at_least(bits: u64, limit: float::Float) -> bool {
    is_number(bits) && !is_below(bits, limit)
}

/// Whether an encoded number is greater than one that is not negative.
pub open spec fn is_above(bits: u64, limit: float::Float) -> bool {
    is_number(bits) && !is_negative(bits) && float::less(limit, value(bits))
}

/// Whether an encoded number is at most as great as one that is not negative.
pub open spec fn is_at_most(bits: u64, limit: float::Float) -> bool {
    is_number(bits) && !is_above(bits, limit)
}

fn number(bits: u64) -> (r: bool)
    ensures
        r == is_number(bits),
{
    magnitude(bits) <= INFINITY_BITS
}

pub fn positive(bits: u64) -> (r: bool)
    ensures
        r == is_positive(bits),
{
    0 < bits && bits <= INFINITY_BITS
}

pub fn below(bits: u64, limit: float::Float) -> (r: bool)
    requires
        limit.wf(),
        limit.precision == float::Precision::Double,
    ensures
        r == is_below(bits, limit),
{
    number(bits) && (bits > SIGN_BIT || float::is_less(decoded(bits), limit))
}

pub fn at_least(bits: u64, limit: float::Float) -> (r: bool)
    requires
        limit.wf(),
        limit.precision == float::Precision::Double,
    ensures
        r == is_at_least(bits, limit),
{
    number(bits) && !below(bits, limit)
}

pub fn above(bits: u64, limit: float::Float) -> (r: bool)
    requires
        limit.wf(),
        limit.precision == float::Precision::Double,
    ensures
        r == is_above(bits, limit),
{
    number(bits) && bits <= SIGN_BIT && float::is_less(limit, decoded(bits))
}

pub fn at_most(bits: u64, limit: float::Float) -> (r: bool)
    requires
        limit.wf(),
        limit.precision == float::Precision::Double,
    ensures
        r == is_at_most(bits, limit),
{
    number(bits) && !above(bits, limit)
}

/// Whether the viewer's page is in front.
#[derive(Clone, Copy, Debug, PartialEq, Eq, Structural)]
pub enum Visibility {
    Visible,
    Hidden,
    Unknown,
}

pub open spec fn visibility_of(state: Seq<char>) -> Visibility {
    if state == "visible"@ {
        Visibility::Visible
    } else if state == "hidden"@ {
        Visibility::Hidden
    } else {
        Visibility::Unknown
    }
}

impl Visibility {
    pub fn parse(state: &str) -> (r: Self)
        ensures
            r == visibility_of(state@),
    {
        if text::text_eq(state, "visible") {
            Visibility::Visible
        } else if text::text_eq(state, "hidden") {
            Visibility::Hidden
        } else {
            Visibility::Unknown
        }
    }

    pub fn name(self) -> (r: &'static str)
        ensures
            r@ == match self {
                Visibility::Visible => "visible"@,
                Visibility::Hidden => "hidden"@,
                Visibility::Unknown => "unknown"@,
            },
    {
        match self {
            Visibility::Visible => "visible",
            Visibility::Hidden => "hidden",
            Visibility::Unknown => "unknown",
        }
    }
}

/// The state that a report without one stands for.
pub fn visible_document() -> (r: String)
    ensures
        r@ == "visible"@,
{
    "visible".to_owned()
}

/// A report of a viewer, as it was received.
#[derive(Debug)]
pub struct ViewerStats {
    pub rtt_ms: u64,
    pub jitter_ms: u64,
    pub loss_rate: u64,
    pub bitrate_bps: u64,
    pub available_incoming_bitrate_bps: Option<u64>,
    pub frames_dropped: u64,
    pub freeze_count: u64,
    pub visibility_state: String,
}

/// One report, normalized.
#[derive(Clone, Copy, Debug, PartialEq, Eq, Structural)]
pub struct MetricSample {
    pub captured_at: u64,
    pub rtt_ms: u64,
    pub jitter_ms: u64,
    pub loss_rate: u64,
    pub bitrate_bps: u64,
    pub available_incoming_bitrate_bps: Option<u64>,
    pub frames_dropped: u64,
    pub freeze_count: u64,
    pub visibility: Visibility,
}

/// The last reports of a viewer.
#[derive(Debug)]
pub struct ViewerMetrics {
    pub rtt_ms: u64,
    pub jitter_ms: u64,
    pub loss_rate: u64,
    pub bitrate_bps: u64,
    pub reported_frames_dropped: u64,
    pub reported_freeze_count: u64,
    pub updated_at: u64,
    pub samples: VecDeque<MetricSample>,
}

pub struct ViewerMetricsView {
    pub rtt_ms: u64,
    pub jitter_ms: u64,
    pub loss_rate: u64,
    pub bitrate_bps: u64,
    pub reported_frames_dropped: u64,
    pub reported_freeze_count: u64,
    pub updated_at: u64,
    pub samples: Seq<MetricSample>,
}

impl View for ViewerMetrics {
    type V = ViewerMetricsView;

    open spec fn view(&self) -> ViewerMetricsView {
        ViewerMetricsView {
            rtt_ms: self.rtt_ms,
            jitter_ms: self.jitter_ms,
            loss_rate: self.loss_rate,
            bitrate_bps: self.bitrate_bps,
            reported_frames_dropped: self.reported_frames_dropped,
            reported_freeze_count: self.reported_freeze_count,
            updated_at: self.updated_at,
            samples: self.samples@,
        }
    }
}

pub open spec fn saturating_difference(a: u64, b: u64) -> u64 {
    if a >= b {
        (a - b) as u64
    } else {
        0
    }
}

pub open spec fn optional_bounded(bits: Option<u64>, maximum: u64) -> Option<u64> {
    match bits {
        Some(bits) => Some(bounded_metric(bits, 0, maximum)),
        None => None,
    }
}

/// A report turned into a sample: numbers brought into range, counters into differences.
pub open spec fn sample_of(
    stats: ViewerStats,
    previous: Option<ViewerMetricsView>,
    now: u64,
) -> MetricSample {
    MetricSample {
        captured_at: now,
        rtt_ms: bounded_metric(stats.rtt_ms, 0, SIXTY_THOUSAND),
        jitter_ms: bounded_metric(stats.jitter_ms, 0, SIXTY_THOUSAND),
        loss_rate: bounded_metric(stats.loss_rate, 0, ONE),
        bitrate_bps: bounded_metric(stats.bitrate_bps, 0, TEN_BILLION),
        available_incoming_bitrate_bps: optional_bounded(
            stats.available_incoming_bitrate_bps,
            TEN_BILLION,
        ),
        frames_dropped: match previous {
            Some(metrics) => saturating_difference(
                stats.frames_dropped,
                metrics.reported_frames_dropped,
            ),
            None => 0,
        },
        freeze_count: match previous {
            Some(metrics) => saturating_difference(
                stats.freeze_count,
                metrics.reported_freeze_count,
            ),
            None => 0,
        },
        visibility: visibility_of(stats.visibility_state@),
    }
}

/// Whether a report comes too soon after the last one.
pub open spec fn is_premature(previous: Option<ViewerMetricsView>, now: u64) -> bool {
    previous is Some && media::timing::elapsed(now, previous->0.updated_at) < MIN_VIEWER_METRIC_INTERVAL_NANOS
}

/// Samples that a new one finds in the window, in order.
pub open spec fn recent_samples(samples: Seq<MetricSample>, now: u64) -> Seq<MetricSample> {
    list::kept(samples, |s: MetricSample| media::timing::elapsed(now, s.captured_at) <= METRIC_WINDOW_NANOS)
}

/// The metrics of a viewer after a report.
pub open spec fn updated_metrics(
    stats: ViewerStats,
    previous: Option<ViewerMetricsView>,
    now: u64,
) -> ViewerMetricsView {
    let sample = sample_of(stats, previous, now);
    let before = match previous {
        Some(metrics) => recent_samples(metrics.samples, now),
        None => Seq::empty(),
    };
    ViewerMetricsView {
        rtt_ms: sample.rtt_ms,
        jitter_ms: sample.jitter_ms,
        loss_rate: sample.loss_rate,
        bitrate_bps: sample.bitrate_bps,
        reported_frames_dropped: stats.frames_dropped,
        reported_freeze_count: stats.freeze_count,
        updated_at: now,
        samples: crate::media::timing::last_of(
            before.push(sample),
            MAX_METRIC_SAMPLES_PER_VIEWER as int,
        ),
    }
}

/// A number between zero and a maximum.
pub open spec fn is_bounded(bits: u64, maximum: u64) -> bool {
    is_metric(bits) && rank(bits) <= rank(maximum)
}

/// What a viewer reports is brought into range before it is kept, and only the newest samples are.
pub proof fn lemma_metrics_are_bounded(
    stats: ViewerStats,
    previous: Option<ViewerMetricsView>,
    now: u64,
)
    ensures
        ({
            let metrics = updated_metrics(stats, previous, now);
            &&& is_bounded(metrics.rtt_ms, SIXTY_THOUSAND)
            &&& is_bounded(metrics.jitter_ms, SIXTY_THOUSAND)
            &&& is_bounded(metrics.loss_rate, ONE)
            &&& is_bounded(metrics.bitrate_bps, TEN_BILLION)
            &&& 0 < metrics.samples.len() <= MAX_METRIC_SAMPLES_PER_VIEWER
            &&& metrics.samples.last() == sample_of(stats, previous, now)
        }),
{
}

fn collect_recent(samples: &VecDeque<MetricSample>, now: u64) -> (r: VecDeque<MetricSample>)
    ensures
        r@ == recent_samples(samples@, now),
{
    let mut r: VecDeque<MetricSample> = VecDeque::new();
    let mut i: usize = 0;
    while i < samples.len()
        invariant
            i <= samples@.len(),
            r@ == recent_samples(samples@.take(i as int), now),
        decreases samples@.len() - i,
    {
        let sample = samples[i];
        assert(samples@.take(i + 1).drop_last() =~= samples@.take(i as int));
        if nanos_since(now, sample.captured_at) <= METRIC_WINDOW_NANOS {
            r.push_back(sample);
        }
        i += 1;
    }
    assert(samples@.take(i as int) =~= samples@);
    r
}

/// Takes a report into the metrics of a viewer. Reports in quick succession are ignored.
pub fn updated(previous: Option<&ViewerMetrics>, stats: &ViewerStats, now: u64) -> (r: Option<
    ViewerMetrics,
>)
    ensures
        ({
            let before = match previous {
                Some(metrics) => Some(metrics@),
                None => None,
            };
            match r {
                None => is_premature(before, now),
                Some(metrics) => !is_premature(before, now) && metrics@ == updated_metrics(
                    *stats,
                    before,
                    now,
                ) && metrics.samples@.len() <= MAX_METRIC_SAMPLES_PER_VIEWER,
            }
        }),
{
    let rtt_ms = finite_metric(stats.rtt_ms, 0, SIXTY_THOUSAND);
    let jitter_ms = finite_metric(stats.jitter_ms, 0, SIXTY_THOUSAND);
    let loss_rate = finite_metric(stats.loss_rate, 0, ONE);
    let bitrate_bps = finite_metric(stats.bitrate_bps, 0, TEN_BILLION);
    let available = match stats.available_incoming_bitrate_bps {
        Some(bits) => Some(finite_metric(bits, 0, TEN_BILLION)),
        None => None,
    };
    let visibility = Visibility::parse(stats.visibility_state.as_str());
    let mut frames_dropped: u64 = 0;
    let mut freeze_count: u64 = 0;
    let mut samples: VecDeque<MetricSample> = VecDeque::new();
    if let Some(metrics) = previous {
        if nanos_since(now, metrics.updated_at) < MIN_VIEWER_METRIC_INTERVAL_NANOS {
            return None;
        }
        frames_dropped = stats.frames_dropped.saturating_sub(metrics.reported_frames_dropped);
        freeze_count = stats.freeze_count.saturating_sub(metrics.reported_freeze_count);
        samples = collect_recent(&metrics.samples, now);
    }
    let sample = MetricSample {
        captured_at: now,
        rtt_ms,
        jitter_ms,
        loss_rate,
        bitrate_bps,
        available_incoming_bitrate_bps: available,
        frames_dropped,
        freeze_count,
        visibility,
    };
    samples.push_back(sample);
    let ghost all = samples@;
    while samples.len() > MAX_METRIC_SAMPLES_PER_VIEWER
        invariant
            crate::media::timing::last_of(samples@, MAX_METRIC_SAMPLES_PER_VIEWER as int)
                == crate::media::timing::last_of(all, MAX_METRIC_SAMPLES_PER_VIEWER as int),
        decreases samples@.len(),
    {
        let ghost before = samples@;
        let _ = samples.pop_front();
        assert(crate::media::timing::last_of(samples@, MAX_METRIC_SAMPLES_PER_VIEWER as int)
            =~= crate::media::timing::last_of(before, MAX_METRIC_SAMPLES_PER_VIEWER as int));
    }
    Some(
        ViewerMetrics {
            rtt_ms,
            jitter_ms,
            loss_rate,
            bitrate_bps,
            reported_frames_dropped: stats.frames_dropped,
            reported_freeze_count: stats.freeze_count,
            updated_at: now,
            samples,
        },
    )
}

/// Whether a sample counts for decisions at `now`.
pub open spec fn in_window(sample: MetricSample, now: u64) -> bool {
    sample.visibility == Visibility::Visible && media::timing::elapsed(now, sample.captured_at)
        <= METRIC_WINDOW_NANOS
}

/// The samples that count for decisions at `now`.
pub open spec fn window(samples: Seq<MetricSample>, now: u64) -> Seq<MetricSample> {
    list::kept(samples, |s: MetricSample| in_window(s, now))
}

/// Appends the samples that count to `out`.
pub fn collect_window(samples: &VecDeque<MetricSample>, now: u64, out: &mut Vec<MetricSample>)
    ensures
        final(out)@ == old(out)@ + window(samples@, now),
{
    let mut i: usize = 0;
    assert(out@ =~= old(out)@ + window(samples@.take(0), now));
    while i < samples.len()
        invariant
            i <= samples@.len(),
            out@ == old(out)@ + window(samples@.take(i as int), now),
        decreases samples@.len() - i,
    {
        let sample = samples[i];
        assert(samples@.take(i + 1).drop_last() =~= samples@.take(i as int));
        if sample.visibility == Visibility::Visible && nanos_since(now, sample.captured_at)
            <= METRIC_WINDOW_NANOS {
            out.push(sample);
        }
        i += 1;
        assert(out@ =~= old(out)@ + window(samples@.take(i as int), now));
    }
    assert(samples@.take(i as int) =~= samples@);
}

/// A sample with heavy loss, jitter or delay.
pub open spec fn is_lossy(sample: MetricSample) -> bool {
    is_above(sample.loss_rate, float::ratio(5, 100)) || is_above(
        sample.jitter_ms,
        float::ratio(120, 1),
    ) || is_above(sample.rtt_ms, float::ratio(500, 1))
}

pub fn sample_is_lossy(sample: MetricSample) -> (r: bool)
    ensures
        r == is_lossy(sample),
{
    above(sample.loss_rate, float::fraction(5, 100)) || above(
        sample.jitter_ms,
        float::fraction(120, 1),
    ) || above(sample.rtt_ms, float::fraction(500, 1))
}

/// `percent` hundredths of a bitrate.
pub open spec fn share_of(bitrate: u32, percent: nat) -> float::Float {
    float::product(
        float::of_nat(float::Precision::Double, bitrate as nat),
        float::ratio(percent, 100),
    )
}

pub fn bitrate_share(bitrate: u32, percent: u64) -> (r: float::Float)
    ensures
        r == share_of(bitrate, percent as nat),
        r.wf(),
        r.precision == float::Precision::Double,
{
    float::multiply(
        float::integer(float::Precision::Double, bitrate as u64),
        float::fraction(percent, 100),
    )
}

/// A sample whose path has room for less than `capacity_percent` of a bitrate and which received
/// less than `received_percent` of it.
pub open spec fn is_starved(
    sample: MetricSample,
    bitrate: u32,
    capacity_percent: nat,
    received_percent: nat,
) -> bool {
    match sample.available_incoming_bitrate_bps {
        Some(capacity) => is_below(capacity, share_of(bitrate, capacity_percent)) && is_below(
            sample.bitrate_bps,
            share_of(bitrate, received_percent),
        ),
        None => false,
    }
}

pub fn sample_is_starved(
    sample: MetricSample,
    bitrate: u32,
    capacity_percent: u64,
    received_percent: u64,
) -> (r: bool)
    ensures
        r == is_starved(sample, bitrate, capacity_percent as nat, received_percent as nat),
{
    match sample.available_incoming_bitrate_bps {
        Some(capacity) => below(capacity, bitrate_share(bitrate, capacity_percent)) && below(
            sample.bitrate_bps,
            bitrate_share(bitrate, received_percent),
        ),
        None => false,
    }
}

/// A sample whose path could carry a higher bitrate without trouble.
pub open spec fn has_headroom(sample: MetricSample, bitrate: u32) -> bool {
    &&& sample.available_incoming_bitrate_bps is Some
    &&& is_at_least(sample.available_incoming_bitrate_bps->0, share_of(bitrate, 125))
    &&& is_below(sample.loss_rate, float::ratio(1, 100))
    &&& is_below(sample.jitter_ms, float::ratio(30, 1))
}

pub fn sample_has_headroom(sample: MetricSample, bitrate: u32) -> (r: bool)
    ensures
        r == has_headroom(sample, bitrate),
{
    match sample.available_incoming_bitrate_bps {
        Some(capacity) => at_least(capacity, bitrate_share(bitrate, 125)) && below(
            sample.loss_rate,
            float::fraction(1, 100),
        ) && below(sample.jitter_ms, float::fraction(30, 1)),
        None => false,
    }
}

/// Whether an encoded number is exactly `num / den` or more.
pub open spec fn measures_at_least(bits: u64, num: nat, den: nat) -> bool {
    is_number(bits) && !is_negative(bits) && exact::reaches(value(bits), num, den)
}

/// Whether an encoded number is exactly `num / den` or less.
pub open spec fn measures_at_most(bits: u64, num: nat, den: nat) -> bool {
    is_number(bits) && (is_negative(bits) || exact::keeps_within(value(bits), num, den))
}

/// Comparisons with a rounded fraction agree with the fraction itself, but for numbers within a
/// thousandth of it.
pub proof fn lemma_comparisons_measure(bits: u64, num: nat, den: nat)
    requires
        0 < num < 0x1_0000_0000,
        0 < den < 0x1_0000,
    ensures
        measures_at_most(bits, num, den) ==> !is_above(bits, float::ratio(num, den)),
        measures_at_least(bits, num * 1001, den * 1000) ==> is_above(bits, float::ratio(num, den)),
        measures_at_most(bits, num * 999, den * 1000) ==> is_below(bits, float::ratio(num, den)),
        measures_at_least(bits, num, den) ==> is_at_least(bits, float::ratio(num, den)),
{
    float::lemma_magnitude_is_normal(magnitude_bits(bits));
    exact::lemma_fraction_keeps_its_place(value(bits), num, den);
}

/// A sample is lossy when more than a twentieth is lost, when it jitters by more than 120 ms, or when
/// it takes more than 500 ms to and fro; and for no other reason.
pub proof fn lemma_lossy_samples(sample: MetricSample)
    ensures
        measures_at_least(sample.loss_rate, 5 * 1001, 100 * 1000) ==> is_lossy(sample),
        measures_at_least(sample.jitter_ms, 120 * 1001, 1000) ==> is_lossy(sample),
        measures_at_least(sample.rtt_ms, 500 * 1001, 1000) ==> is_lossy(sample),
        measures_at_most(sample.loss_rate, 5, 100) && measures_at_most(sample.jitter_ms, 120, 1)
            && measures_at_most(sample.rtt_ms, 500, 1) ==> !is_lossy(sample),
{
    lemma_comparisons_measure(sample.loss_rate, 5, 100);
    lemma_comparisons_measure(sample.jitter_ms, 120, 1);
    lemma_comparisons_measure(sample.rtt_ms, 500, 1);
}

/// A sample is starved when its path has room for less than a share of the bitrate and less than
/// another share was received; it is not when either is clearly there, or when the room is unknown.
pub proof fn lemma_starved_samples(
    sample: MetricSample,
    bitrate: u32,
    capacity_percent: nat,
    received_percent: nat,
)
    requires
        bitrate > 0,
        0 < capacity_percent <= 200,
        0 < received_percent <= 200,
    ensures
        ({
            let room = sample.available_incoming_bitrate_bps;
            let wanted = bitrate as nat * capacity_percent;
            let expected = bitrate as nat * received_percent;
            let starved = is_starved(sample, bitrate, capacity_percent, received_percent);
            &&& room is None ==> !starved
            &&& room is Some && measures_at_least(room->0, wanted * 1001, 100_000) ==> !starved
            &&& measures_at_least(sample.bitrate_bps, expected * 1001, 100_000) ==> !starved
            &&& room is Some && measures_at_most(room->0, wanted * 998, 100_000)
                && measures_at_most(sample.bitrate_bps, expected * 998, 100_000) ==> starved
        }),
{
    if let Some(room) = sample.available_incoming_bitrate_bps {
        lemma_share_comparisons(room, bitrate, capacity_percent);
        lemma_share_comparisons(sample.bitrate_bps, bitrate, received_percent);
    }
}

proof fn lemma_share_comparisons(bits: u64, bitrate: u32, percent: nat)
    requires
        bitrate > 0,
        0 < percent <= 200,
    ensures
        measures_at_least(bits, bitrate as nat * percent * 1001, 100_000) ==> !is_below(
            bits,
            share_of(bitrate, percent),
        ),
        measures_at_most(bits, bitrate as nat * percent * 998, 100_000) ==> is_below(
            bits,
            share_of(bitrate, percent),
        ),
{
    let share = share_of(bitrate, percent);
    let v = value(bits);
    let n = bitrate as nat * percent;
    assert(n > 0) by (nonlinear_arith)
        requires
            n == bitrate * percent,
            bitrate > 0,
            percent > 0,
    ;
    exact::lemma_bitrate_share(bitrate, percent);
    exact::lemma_between(share, n * 1001, 100_000, v);
    exact::lemma_at_most_is_not_less(share, v);
    if exact::keeps_within(v, n * 998, 100_000) && float::at_most(share, v) {
        exact::lemma_transitive(
            share.significand as nat,
            1,
            share.exponent as int,
            v.significand as nat,
            1,
            v.exponent as int,
            n * 998,
            100_000,
            0,
        );
        exact::lemma_fractions(share, n * 998, 100_000, n * 999, 100_000);
    }
}

/// A sample has headroom for a bitrate only when its path has room for a quarter more, and less than
/// a hundredth is lost and less than 30 ms of jitter seen; with a little to spare in all three, it
/// has.
pub proof fn lemma_headroom_samples(sample: MetricSample, bitrate: u32)
    ensures
        ({
            let room = sample.available_incoming_bitrate_bps;
            let wanted = 5 * bitrate as nat;
            &&& has_headroom(sample, bitrate) ==> room is Some && measures_at_least(
                room->0,
                wanted,
                4,
            )
            &&& has_headroom(sample, bitrate) ==> !measures_at_least(sample.loss_rate, 1, 100)
            &&& has_headroom(sample, bitrate) ==> !measures_at_least(sample.jitter_ms, 30, 1)
            &&& room is Some && measures_at_least(room->0, wanted, 4) && measures_at_most(
                sample.loss_rate,
                999,
                100_000,
            ) && measures_at_most(sample.jitter_ms, 30 * 999, 1000) ==> has_headroom(
                sample,
                bitrate,
            )
        }),
{
    lemma_comparisons_measure(sample.loss_rate, 1, 100);
    lemma_comparisons_measure(sample.jitter_ms, 30, 1);
    if let Some(room) = sample.available_incoming_bitrate_bps {
        lemma_carried_bitrate(room, bitrate);
    }
}

/// A number is at least a bitrate with a quarter to spare exactly where four times the number is at
/// least five times the bitrate.
pub proof fn lemma_carried_bitrate(bits: u64, bitrate: u32)
    ensures
        is_at_least(bits, share_of(bitrate, 125)) == measures_at_least(
            bits,
            5 * bitrate as nat,
            4,
        ),
{
    let share = share_of(bitrate, 125);
    let v = value(bits);
    exact::lemma_quarter_more(bitrate);
    exact::lemma_at_most_is_not_less(share, v);
    exact::lemma_between(share, 5 * bitrate as nat, 4, v);
    if float::at_most(share, v) {
        exact::lemma_transitive(
            5 * bitrate as nat,
            4,
            0,
            share.significand as nat,
            1,
            share.exponent as int,
            v.significand as nat,
            1,
            v.exponent as int,
        );
    }
}

/// Samples count while they are at most 15 seconds old and the page was visible; none is lost or
/// added.
pub proof fn lemma_window_holds_recent_samples(
    samples: Seq<MetricSample>,
    now: u64,
    sample: MetricSample,
)
    ensures
        window(samples, now).contains(sample) == (samples.contains(sample) && sample.visibility
            == Visibility::Visible && (sample.captured_at > now || now - sample.captured_at
            <= 15_000_000_000)),
    decreases samples.len(),
{
    let kept = window(samples, now);
    if samples.len() > 0 {
        lemma_window_holds_recent_samples(samples.drop_last(), now, sample);
        let rest = window(samples.drop_last(), now);
        let last = samples.last();
        if samples.drop_last().contains(sample) {
            let i = choose|i: int|
                0 <= i < samples.drop_last().len() && samples.drop_last()[i] == sample;
            assert(samples[i] == sample);
        }
        if samples.contains(sample) && !samples.drop_last().contains(sample) {
            let i = choose|i: int| 0 <= i < samples.len() && samples[i] == sample;
            if i < samples.len() - 1 {
                assert(samples.drop_last()[i] == sample);
            }
            assert(sample == last);
        }
        assert(samples[samples.len() - 1] == last);
        if in_window(last, now) {
            assert(kept == rest.push(last));
            assert(kept[rest.len() as int] == last);
            if rest.contains(sample) {
                let i = choose|i: int| 0 <= i < rest.len() && rest[i] == sample;
                assert(kept[i] == sample);
            }
            if kept.contains(sample) && sample != last {
                let i = choose|i: int| 0 <= i < kept.len() && kept[i] == sample;
                assert(rest[i] == sample);
            }
        }
    }
}

/// The totals of some samples are the sums of their counters.
pub proof fn lemma_totals_add_up(samples: Seq<MetricSample>, sample: MetricSample)
    ensures
        dropped_sum(samples.push(sample)) == dropped_sum(samples) + sample.frames_dropped,
        freeze_sum(samples.push(sample)) == freeze_sum(samples) + sample.freeze_count,
        dropped_sum(Seq::empty()) == 0,
        freeze_sum(Seq::empty()) == 0,
{
    assert(samples.push(sample).drop_last() =~= samples);
}

/// Three freezes or 300 dropped frames call for a lower profile; one freeze or 120 dropped frames
/// keep a higher one away.
pub proof fn lemma_playback_limits(dropped: nat, freezes: nat)
    ensures
        must_downgrade(capped(dropped), capped(freezes)) == (freezes >= 3 || dropped >= 300),
        holds_upgrade(capped(dropped), capped(freezes)) == (freezes >= 1 || dropped >= 120),
{
}

/// Whether `part` of `whole` is at least `percent` hundredths.
pub open spec fn is_share(part: nat, whole: nat, percent: nat) -> bool {
    !float::less(
        float::quotient(
            float::of_nat(float::Precision::Double, part),
            float::of_nat(float::Precision::Double, whole),
        ),
        float::ratio(percent, 100),
    )
}

/// Nothing out of something is no share of it.
pub proof fn lemma_nothing_is_no_share(whole: nat, percent: nat)
    requires
        whole > 0,
        percent > 0,
    ensures
        !is_share(0, whole, percent),
{
    let divisor = float::of_nat(float::Precision::Double, whole);
    float::lemma_nearest_is_positive(float::Precision::Double, whole, 1, 0);
    float::lemma_nearest_is_positive(float::Precision::Double, percent, 100, 0);
    float::lemma_zero_is_less(
        float::quotient(float::of_nat(float::Precision::Double, 0), divisor),
        float::ratio(percent, 100),
    );
}

pub fn share_reaches(part: usize, whole: usize, percent: u64) -> (r: bool)
    requires
        whole > 0,
    ensures
        r == is_share(part as nat, whole as nat, percent as nat),
{
    let share = float::divide(
        float::integer(float::Precision::Double, part as u64),
        float::integer(float::Precision::Double, whole as u64),
    );
    !float::is_less(share, float::fraction(percent, 100))
}

/// The sum of the dropped frames of some samples.
pub open spec fn dropped_sum(samples: Seq<MetricSample>) -> nat
    decreases samples.len(),
{
    if samples.len() == 0 {
        0
    } else {
        dropped_sum(samples.drop_last()) + samples.last().frames_dropped as nat
    }
}

/// The sum of the freezes of some samples.
pub open spec fn freeze_sum(samples: Seq<MetricSample>) -> nat
    decreases samples.len(),
{
    if samples.len() == 0 {
        0
    } else {
        freeze_sum(samples.drop_last()) + samples.last().freeze_count as nat
    }
}

pub open spec fn capped(n: nat) -> u64 {
    if n > u64::MAX {
        u64::MAX
    } else {
        n as u64
    }
}

/// The dropped frames and freezes of some samples, each at most the largest number.
pub fn playback_totals(samples: &[MetricSample]) -> (r: (u64, u64))
    ensures
        r.0 == capped(dropped_sum(samples@)),
        r.1 == capped(freeze_sum(samples@)),
{
    let mut dropped: u64 = 0;
    let mut freezes: u64 = 0;
    let mut i: usize = 0;
    assert(samples@.take(0) =~= Seq::<MetricSample>::empty());
    while i < samples.len()
        invariant
            i <= samples@.len(),
            dropped == capped(dropped_sum(samples@.take(i as int))),
            freezes == capped(freeze_sum(samples@.take(i as int))),
        decreases samples@.len() - i,
    {
        assert(samples@.take(i + 1).drop_last() =~= samples@.take(i as int));
        dropped = dropped.saturating_add(samples[i].frames_dropped);
        freezes = freezes.saturating_add(samples[i].freeze_count);
        i += 1;
    }
    assert(samples@.take(i as int) =~= samples@);
    (dropped, freezes)
}

/// Whether playback failed so badly that a lower profile is called for.
pub open spec fn must_downgrade(dropped: u64, freezes: u64) -> bool {
    freezes >= FREEZE_DOWNGRADE_THRESHOLD || dropped >= EXTREME_DROPPED_FRAME_THRESHOLD
}

pub fn playback_requires_downgrade(dropped: u64, freezes: u64) -> (r: bool)
    ensures
        r == must_downgrade(dropped, freezes),
{
    freezes >= FREEZE_DOWNGRADE_THRESHOLD || dropped >= EXTREME_DROPPED_FRAME_THRESHOLD
}

/// Whether playback is busy enough that no higher profile is tried.
pub open spec fn holds_upgrade(dropped: u64, freezes: u64) -> bool {
    freezes >= FREEZE_UPGRADE_HOLD_THRESHOLD || dropped >= DROPPED_FRAME_UPGRADE_HOLD_THRESHOLD
}

pub fn playback_holds_upgrade(dropped: u64, freezes: u64) -> (r: bool)
    ensures
        r == holds_upgrade(dropped, freezes),
{
    freezes >= FREEZE_UPGRADE_HOLD_THRESHOLD || dropped >= DROPPED_FRAME_UPGRADE_HOLD_THRESHOLD
}

/// Playback that calls for a lower profile never lets a higher one through.
pub proof fn lemma_downgrade_holds_upgrade(dropped: u64, freezes: u64)
    requires
        must_downgrade(dropped, freezes),
    ensures
        holds_upgrade(dropped, freezes),
{
}

/// The starved samples, counted.
pub fn count_starved(
    samples: &[MetricSample],
    bitrate: u32,
    capacity_percent: u64,
    received_percent: u64,
) -> (r: usize)
    ensures
        r == list::count_where(
            samples@,
            |s: MetricSample|
                is_starved(s, bitrate, capacity_percent as nat, received_percent as nat),
        ),
        r <= samples@.len(),
{
    let ghost p = |s: MetricSample|
        is_starved(s, bitrate, capacity_percent as nat, received_percent as nat);
    let mut count: usize = 0;
    let mut i: usize = 0;
    while i < samples.len()
        invariant
            i <= samples@.len(),
            count <= i,
            p == (|s: MetricSample|
                is_starved(s, bitrate, capacity_percent as nat, received_percent as nat)),
            count == list::count_where(samples@.take(i as int), p),
        decreases samples@.len() - i,
    {
        assert(samples@.take(i + 1).drop_last() =~= samples@.take(i as int));
        if sample_is_starved(samples[i], bitrate, capacity_percent, received_percent) {
            count += 1;
        }
        i += 1;
    }
    assert(samples@.take(i as int) =~= samples@);
    count
}

/// The lossy samples, counted.
pub fn count_lossy(samples: &[MetricSample]) -> (r: usize)
    ensures
        r == list::count_where(samples@, |s: MetricSample| is_lossy(s)),
        r <= samples@.len(),
{
    let ghost p = |s: MetricSample| is_lossy(s);
    let mut count: usize = 0;
    let mut i: usize = 0;
    while i < samples.len()
        invariant
            i <= samples@.len(),
            count <= i,
            p == (|s: MetricSample| is_lossy(s)),
            count == list::count_where(samples@.take(i as int), p),
        decreases samples@.len() - i,
    {
        assert(samples@.take(i + 1).drop_last() =~= samples@.take(i as int));
        if sample_is_lossy(samples[i]) {
            count += 1;
        }
        i += 1;
    }
    assert(samples@.take(i as int) =~= samples@);
    count
}

/// The samples with headroom, counted.
pub fn count_headroom(samples: &[MetricSample], bitrate: u32) -> (r: usize)
    ensures
        r == list::count_where(samples@, |s: MetricSample| has_headroom(s, bitrate)),
        r <= samples@.len(),
{
    let ghost p = |s: MetricSample| has_headroom(s, bitrate);
    let mut count: usize = 0;
    let mut i: usize = 0;
    while i < samples.len()
        invariant
            i <= samples@.len(),
            count <= i,
            p == (|s: MetricSample| has_headroom(s, bitrate)),
            count == list::count_where(samples@.take(i as int), p),
        decreases samples@.len() - i,
    {
        assert(samples@.take(i + 1).drop_last() =~= samples@.take(i as int));
        if sample_has_headroom(samples[i], bitrate) {
            count += 1;
        }
        i += 1;
    }
    assert(samples@.take(i as int) =~= samples@);
    count
}

/// A report is taken in at most every quarter of a second. Counters of a browser are turned into what
/// was added since the last report; a counter that started again adds nothing.
pub proof fn lemma_reports_add_differences(
    stats: ViewerStats,
    previous: ViewerMetricsView,
    now: u64,
)
    ensures
        is_premature(Some(previous), now) <==> previous.updated_at > now || now
            - previous.updated_at < 250_000_000,
        !is_premature(None, now),
        ({
            let sample = sample_of(stats, Some(previous), now);
            &&& stats.frames_dropped >= previous.reported_frames_dropped ==> sample.frames_dropped
                + previous.reported_frames_dropped == stats.frames_dropped
            &&& stats.freeze_count >= previous.reported_freeze_count ==> sample.freeze_count
                + previous.reported_freeze_count == stats.freeze_count
            &&& stats.frames_dropped < previous.reported_frames_dropped ==> sample.frames_dropped
                == 0
            &&& stats.freeze_count < previous.reported_freeze_count ==> sample.freeze_count == 0
            &&& sample.captured_at == now
            &&& updated_metrics(stats, Some(previous), now).reported_frames_dropped
                == stats.frames_dropped
            &&& updated_metrics(stats, Some(previous), now).reported_freeze_count
                == stats.freeze_count
            &&& updated_metrics(stats, Some(previous), now).updated_at == now
        }),
        ({
            let first = sample_of(stats, None, now);
            first.frames_dropped == 0 && first.freeze_count == 0
        }),
{
}

/// A number within its bounds is taken as it is; one below or above them becomes the bound, and what
/// is no finite number becomes the lower one.
pub proof fn lemma_bounded_metrics(bits: u64, minimum: u64, maximum: u64)
    requires
        rank(minimum) <= rank(maximum),
    ensures
        ({
            let bounded = bounded_metric(bits, minimum, maximum);
            &&& is_finite(bits) && rank(minimum) <= rank(bits) <= rank(maximum) ==> bounded == bits
            &&& is_finite(bits) && rank(bits) < rank(minimum) ==> bounded == minimum
            &&& is_finite(bits) && rank(bits) > rank(maximum) ==> bounded == maximum
            &&& !is_finite(bits) ==> bounded == minimum
        }),
{
}

} // verus!
