//! What the reports of viewers lead to: who is moved, where newcomers are placed, and how profiles
//! change.

use vstd::prelude::*;

use crate::config;
use crate::exact;
use crate::float;
use crate::groups;
use crate::groups::codecs::ViewerBootstrap;
use crate::groups::{AssignmentView, ClientView, GroupLifecycle, GroupView, GroupsView};
use crate::groups::joining;
use crate::groups::laws;
use crate::groups::observing;
use crate::groups::tuning::{self, GroupReport};
use crate::list;
use crate::media;
use crate::media::CaptureSettingsView;
use crate::metrics::{self, MetricSample};
use crate::profile;
use crate::text;

verus! {

/// How many of some samples satisfy a predicate, between none and all.
pub proof fn lemma_count(samples: Seq<MetricSample>, p: spec_fn(MetricSample) -> bool)
    ensures
        list::count_where(samples, p) <= samples.len(),
        (forall|i: int| 0 <= i < samples.len() ==> #[trigger] p(samples[i])) ==> list::count_where(
            samples,
            p,
        ) == samples.len(),
        (forall|i: int| 0 <= i < samples.len() ==> !#[trigger] p(samples[i])) ==> list::count_where(
            samples,
            p,
        ) == 0,
        list::count_where(samples, p) == 0 ==> forall|i: int|
            0 <= i < samples.len() ==> !#[trigger] p(samples[i]),
    decreases samples.len(),
{
    if samples.len() > 0 {
        let rest = samples.drop_last();
        lemma_count(rest, p);
        assert(samples.last() == samples[samples.len() - 1]);
        assert forall|i: int| 0 <= i < rest.len() implies rest[i] == samples[i] by {}
        if forall|i: int| 0 <= i < samples.len() ==> #[trigger] p(samples[i]) {
            assert forall|i: int| 0 <= i < rest.len() implies #[trigger] p(rest[i]) by {
                assert(p(samples[i]));
            }
            assert(p(samples[samples.len() - 1]));
        }
        if forall|i: int| 0 <= i < samples.len() ==> !#[trigger] p(samples[i]) {
            assert forall|i: int| 0 <= i < rest.len() implies !#[trigger] p(rest[i]) by {
                assert(!p(samples[i]));
            }
            assert(!p(samples[samples.len() - 1]));
        }
        if list::count_where(samples, p) == 0 {
            assert forall|i: int| 0 <= i < samples.len() implies !#[trigger] p(samples[i]) by {
                if i < rest.len() {
                    assert(!p(rest[i]));
                }
            }
        }
    }
}

/// What a viewer is told after it reported, if no encoder has to be started for it.
pub open spec fn told(
    v: GroupsView,
    client: Seq<char>,
    window: Seq<MetricSample>,
    now: u64,
) -> Option<AssignmentView> {
    let state = v.observed_client(client, now);
    let current = v.group(state.group_id);
    let ready = v.readied(client, window, now).0;
    ready.concluded(
        state,
        current.settings.bitrate,
        current.codec,
        window,
        ready.lower_offered(state.group_id, current.codec),
        now,
    ).1
}

/// The samples of a window show trouble on the path of a viewer: for four fifths of them there is
/// too little room for the bitrate, or three fifths are lossy; or playback has failed.
pub open spec fn shows_trouble(window: Seq<MetricSample>, bitrate: u32) -> bool {
    ||| 100 * list::count_where(
        window,
        |s: MetricSample| metrics::is_starved(s, bitrate, 65, 70),
    ) >= 80 * window.len()
    ||| 100 * list::count_where(window, |s: MetricSample| metrics::is_lossy(s)) >= 60
        * window.len()
    ||| metrics::freeze_sum(window) >= 3
    ||| metrics::dropped_sum(window) >= 300
}

proof fn lemma_trouble_is_degradation(window: Seq<MetricSample>, bitrate: u32)
    requires
        0 < window.len() < 0x100_0000_0000,
    ensures
        observing::is_degraded(window, bitrate) == shows_trouble(window, bitrate),
{
    let starved = |s: MetricSample| metrics::is_starved(s, bitrate, 65, 70);
    let lossy = |s: MetricSample| metrics::is_lossy(s);
    lemma_count(window, starved);
    lemma_count(window, lossy);
    exact::lemma_share_is_exact(list::count_where(window, starved), window.len(), 80);
    exact::lemma_share_is_exact(list::count_where(window, lossy), window.len(), 60);
    metrics::lemma_playback_limits(metrics::dropped_sum(window), metrics::freeze_sum(window));
}

/// Whether a group offers a codec, in whatever case it is written.
pub open spec fn offers(v: GroupsView, i: int, codec: Seq<char>) -> bool {
    v.is_active(i) && text::ascii_lower(v.groups[i].codec) == text::ascii_lower(codec)
}

/// A viewer who has stayed in its group for 30 seconds and whose every sample has headroom for the
/// next better group, without loss or trouble in playback, is moved to that group.
pub proof fn lemma_headroom_moves_a_viewer_up(
    v: GroupsView,
    client: Seq<char>,
    window: Seq<MetricSample>,
    now: u64,
    higher: usize,
)
    requires
        v.wf(),
        0 < window.len() < 0x100_0000_0000,
        ({
            let state = v.observed_client(client, now);
            let current = v.group(state.group_id);
            let better = v.groups[higher as int].settings.bitrate;
            &&& now - state.last_change >= 30_000_000_000
            &&& higher < state.group_id
            &&& offers(v, higher as int, current.codec)
            &&& forall|i: int| higher < i < state.group_id ==> !#[trigger] offers(v, i, current.codec)
            &&& 0 < current.settings.bitrate <= better
            &&& forall|k: int|
                0 <= k < window.len() ==> metrics::has_headroom(#[trigger] window[k], better)
            &&& forall|k: int| 0 <= k < window.len() ==> !metrics::is_lossy(#[trigger] window[k])
        }),
        metrics::dropped_sum(window) < 120,
        metrics::freeze_sum(window) == 0,
    ensures
        v.readied(client, window, now).1 is None,
        told(v, client, window, now) == Some(
            AssignmentView {
                group_id: higher,
                reason: "15-second media-path headroom window"@,
                restart: true,
            },
        ),
{
    let state = v.observed_client(client, now);
    let current = v.group(state.group_id);
    let bitrate = current.settings.bitrate;
    let better = v.groups[higher as int].settings.bitrate;
    let starved = |s: MetricSample| metrics::is_starved(s, bitrate, 65, 70);
    let lossy = |s: MetricSample| metrics::is_lossy(s);
    let headroom = |s: MetricSample| metrics::has_headroom(s, better);
    lemma_count(window, starved);
    lemma_count(window, lossy);
    lemma_count(window, headroom);
    assert forall|k: int| 0 <= k < window.len() implies !#[trigger] starved(window[k]) by {
        lemma_headroom_is_no_starvation(window[k], bitrate, better);
    }
    assert forall|k: int| 0 <= k < window.len() implies !#[trigger] lossy(window[k]) by {}
    assert forall|k: int| 0 <= k < window.len() implies #[trigger] headroom(window[k]) by {}
    lemma_trouble_is_degradation(window, bitrate);
    exact::lemma_share_is_exact(window.len(), window.len(), 80);
    metrics::lemma_playback_limits(metrics::dropped_sum(window), metrics::freeze_sum(window));
    let ready = v.readied(client, window, now).0;
    assert(ready.groups == v.groups && ready.capacity() == v.capacity());
    let p = |i: int|
        ready.is_active(i) && i < state.group_id && ready.speaks(i, current.codec);
    assert forall|j: int| higher < j < ready.groups.len() implies !#[trigger] p(j) by {
        if p(j) {
            assert(offers(v, j, current.codec));
        }
    }
    assert(p(higher as int));
    list::lemma_last_found(0, ready.groups.len() as int, p, higher as int);
}

/// A path with room for a quarter more than a bitrate is not starved at that bitrate or a smaller
/// one.
proof fn lemma_headroom_is_no_starvation(sample: MetricSample, bitrate: u32, better: u32)
    requires
        0 < bitrate <= better,
        metrics::has_headroom(sample, better),
    ensures
        !metrics::is_starved(sample, bitrate, 65, 70),
{
    metrics::lemma_headroom_samples(sample, better);
    metrics::lemma_starved_samples(sample, bitrate, 65, 70);
    let room = sample.available_incoming_bitrate_bps->0;
    let b = bitrate as nat;
    let c = better as nat;
    assert((b * 65 * 1001) * 4 <= (5 * c) * 100_000) by (nonlinear_arith)
        requires
            b <= c,
    ;
    exact::lemma_fractions(metrics::value(room), b * 65 * 1001, 100_000, 5 * c, 4);
}

/// A viewer none of whose samples has headroom for any better group is never moved to one.
pub proof fn lemma_without_headroom_nobody_moves_up(
    v: GroupsView,
    client: Seq<char>,
    window: Seq<MetricSample>,
    now: u64,
)
    requires
        v.wf(),
        0 < window.len() < 0x100_0000_0000,
        forall|i: int, k: int|
            #![trigger v.groups[i], window[k]]
            0 <= i < v.groups.len() && i < v.observed_client(client, now).group_id && 0 <= k
                < window.len() ==> !metrics::has_headroom(window[k], v.groups[i].settings.bitrate),
        v.readied(client, window, now).1 is None,
    ensures
        told(v, client, window, now) matches Some(assignment) ==> assignment.group_id
            > v.observed_client(client, now).group_id,
{
    let state = v.observed_client(client, now);
    let current = v.group(state.group_id);
    let ready = v.readied(client, window, now).0;
    assert(ready.groups == v.groups && ready.capacity() == v.capacity());
    let n = ready.groups.len() as int;
    let up = |i: int| ready.is_active(i) && i < state.group_id && ready.speaks(i, current.codec);
    let down = |i: int| ready.is_active(i) && i > state.group_id && ready.speaks(i, current.codec);
    laws::lemma_last_satisfies(0, n, up);
    list::lemma_first_in_range(0, n, down);
    if let Some(higher) = list::last_in(0, n, up) {
        let bitrate = v.groups[higher].settings.bitrate;
        let headroom = |s: MetricSample| metrics::has_headroom(s, bitrate);
        assert forall|k: int| 0 <= k < window.len() implies !#[trigger] headroom(window[k]) by {
            assert(v.groups[higher] == v.groups[higher]);
        }
        lemma_count(window, headroom);
        metrics::lemma_nothing_is_no_share(window.len(), 80);
    }
}

/// A viewer in trouble who has stayed in its group for 30 seconds leaves it: for an idle group below
/// that is started, or for one below that already offers its codec.
pub proof fn lemma_trouble_moves_a_viewer_down(
    v: GroupsView,
    client: Seq<char>,
    window: Seq<MetricSample>,
    now: u64,
    lower: int,
)
    requires
        v.wf(),
        0 < window.len() < 0x100_0000_0000,
        ({
            let state = v.observed_client(client, now);
            let current = v.group(state.group_id);
            &&& now - state.last_change >= 30_000_000_000
            &&& shows_trouble(window, current.settings.bitrate)
            &&& state.group_id < lower
            &&& offers(v, lower, current.codec)
        }),
    ensures
        ({
            let state = v.observed_client(client, now);
            match v.readied(client, window, now).1 {
                Some(idle) => idle > state.group_id && v.groups[idle as int].media is None,
                None => {
                    &&& told(v, client, window, now) is Some
                    &&& state.group_id < told(v, client, window, now)->0.group_id <= lower
                    &&& told(v, client, window, now)->0.restart
                    &&& offers(
                        v,
                        told(v, client, window, now)->0.group_id as int,
                        v.group(state.group_id).codec,
                    )
                },
            }
        }),
{
    let state = v.observed_client(client, now);
    let current = v.group(state.group_id);
    lemma_trouble_is_degradation(window, current.settings.bitrate);
    let (ready, idle) = v.readied(client, window, now);
    let free = |i: int| v.groups[i].media is None;
    list::lemma_first_in_range(state.group_id + 1, v.capacity(), free);
    if idle is None {
        assert(ready.groups == v.groups && ready.capacity() == v.capacity());
        let n = ready.groups.len() as int;
        let down = |i: int|
            ready.is_active(i) && i > state.group_id && ready.speaks(i, current.codec);
        assert(down(lower));
        list::lemma_first_in_range(0, n, down);
        list::lemma_first_is_least(0, n, down, lower);
    }
}

/// A viewer without such trouble is never moved to a lower group, and none is started for it.
pub proof fn lemma_without_trouble_nobody_moves_down(
    v: GroupsView,
    client: Seq<char>,
    window: Seq<MetricSample>,
    now: u64,
)
    requires
        v.wf(),
        0 < window.len() < 0x100_0000_0000,
        !shows_trouble(
            window,
            v.group(v.observed_client(client, now).group_id).settings.bitrate,
        ),
    ensures
        v.readied(client, window, now).1 is None,
        told(v, client, window, now) matches Some(assignment) ==> assignment.group_id
            < v.observed_client(client, now).group_id,
{
    let state = v.observed_client(client, now);
    let current = v.group(state.group_id);
    lemma_trouble_is_degradation(window, current.settings.bitrate);
    let ready = v.readied(client, window, now).0;
    assert(ready.groups == v.groups);
    let n = ready.groups.len() as int;
    let up = |i: int| ready.is_active(i) && i < state.group_id && ready.speaks(i, current.codec);
    laws::lemma_last_satisfies(0, n, up);
}

/// A probe that did not time out, with a delay of at most a second and a half.
pub open spec fn is_prompt(probe: ViewerBootstrap) -> bool {
    &&& !probe.timed_out
    &&& metrics::is_positive(probe.download_bps)
    &&& metrics::measures_at_most(probe.latency_ms, 1500, 1)
}

/// A throughput of at least five quarters of a group's bitrate.
pub open spec fn affords(v: GroupsView, probe: ViewerBootstrap, i: int) -> bool {
    metrics::measures_at_least(probe.download_bps, 5 * v.groups[i].settings.bitrate as nat, 4)
}

proof fn lemma_delay_is_exact(bits: u64)
    ensures
        metrics::is_at_most(bits, float::ratio(1500, 1)) == metrics::measures_at_most(
            bits,
            1500,
            1,
        ),
{
    let limit = float::ratio(1500, 1);
    let v = metrics::value(bits);
    exact::lemma_integer_is_exact(1500);
    exact::lemma_at_most_is_not_less(v, limit);
    exact::lemma_between(v, 1500, 1, limit);
    if float::at_most(v, limit) {
        exact::lemma_transitive(
            v.significand as nat,
            1,
            v.exponent as int,
            limit.significand as nat,
            1,
            limit.exponent as int,
            1500,
            1,
            0,
        );
    }
}

/// A prompt newcomer prefers the best group whose bitrate its throughput affords; who affords none,
/// or is not prompt, prefers the last group in use.
pub proof fn lemma_newcomer_prefers_what_it_affords(v: GroupsView, probe: ViewerBootstrap)
    requires
        v.wf(),
    ensures
        ({
            let preferred = v.preferred_group(probe) as int;
            let last = v.capacity() - 1;
            &&& 0 <= preferred <= last
            &&& is_prompt(probe) && affords(v, probe, 0) ==> preferred == 0
            &&& is_prompt(probe) ==> forall|i: int| 0 <= i < preferred ==> !#[trigger] affords(v, probe, i)
            &&& preferred != last ==> is_prompt(probe) && affords(v, probe, preferred)
        }),
{
    let n = v.groups.len() as int;
    let p = |i: int| i < v.capacity() && joining::can_carry(probe, v.groups[i].settings.bitrate);
    list::lemma_first_in_range(0, n, p);
    lemma_delay_is_exact(probe.latency_ms);
    assert forall|i: int| 0 <= i < v.capacity() implies p(i) == (affords(v, probe, i)
        && metrics::measures_at_most(probe.latency_ms, 1500, 1)) by {
        metrics::lemma_carried_bitrate(probe.download_bps, v.groups[i].settings.bitrate);
    }
    let preferred = v.preferred_group(probe) as int;
    if is_prompt(probe) {
        assert forall|i: int| 0 <= i < preferred implies !#[trigger] affords(v, probe, i) by {
            if affords(v, probe, i) {
                assert(p(i));
                list::lemma_first_is_least(0, n, p, i);
            }
        }
    }
}

/// A faster newcomer never prefers a lower group than a slower one.
pub proof fn lemma_faster_newcomer_prefers_no_lower_group(
    v: GroupsView,
    slow: ViewerBootstrap,
    fast: ViewerBootstrap,
)
    requires
        v.wf(),
        is_prompt(slow),
        is_prompt(fast),
        float::at_most(metrics::value(slow.download_bps), metrics::value(fast.download_bps)),
    ensures
        v.preferred_group(fast) <= v.preferred_group(slow),
{
    lemma_newcomer_prefers_what_it_affords(v, slow);
    lemma_newcomer_prefers_what_it_affords(v, fast);
    let first = v.preferred_group(slow) as int;
    if first < v.preferred_group(fast) {
        let a = metrics::value(slow.download_bps);
        let b = metrics::value(fast.download_bps);
        assert(affords(v, slow, first));
        exact::lemma_transitive(
            5 * v.groups[first].settings.bitrate as nat,
            4,
            0,
            a.significand as nat,
            1,
            a.exponent as int,
            b.significand as nat,
            1,
            b.exponent as int,
        );
        assert(affords(v, fast, first));
    }
}

/// What a newcomer is given at most: 65 hundredths of its throughput, to the next integer and within
/// a thousandth, but at least 250000 bits a second, which is also what an unknown throughput gives.
#[verifier::spinoff_prover]
pub proof fn lemma_newcomer_budget(probe: ViewerBootstrap)
    ensures
        ({
            let budget = joining::delivery_budget(probe);
            let d = probe.download_bps;
            &&& budget >= 250_000
            &&& probe.timed_out || !metrics::is_positive(d) ==> budget == 250_000
            &&& budget > 250_000 ==> metrics::measures_at_least(
                d,
                ((budget - 1) * 100_000) as nat,
                65 * 1001,
            )
            &&& !probe.timed_out && metrics::is_positive(d) && budget < u32::MAX
                ==> metrics::measures_at_most(d, ((budget + 1) * 100_000) as nat, 65 * 999)
        }),
{
    let d = probe.download_bps;
    let budget = joining::delivery_budget(probe);
    if !probe.timed_out && metrics::is_positive(d) {
        let a = metrics::value(d);
        float::lemma_magnitude_is_normal(metrics::magnitude_bits(d));
        exact::lemma_share_of_number(a, 65);
        let p = float::product(a, float::ratio(65, 100));
        exact::lemma_nearest_integer(p);
        let n = float::rounded(p);
        let s = a.significand as nat;
        let e = a.exponent as int;
        let v = p.significand as nat;
        let g = p.exponent as int;
        assert(s * 65 * 1001 == s * (65 * 1001) && s * 65 * 999 == s * (65 * 999))
            by (nonlinear_arith);
        if budget > 250_000 {
            // The share is at least one less than the budget.
            exact::lemma_fractions(p, (budget - 1) as nat, 1, (n - 1) as nat, 1);
            exact::lemma_transitive((budget - 1) as nat, 1, 0, v, 1, g, s * 65 * 1001, 100_000, e);
            lemma_rearranged(s, e, 65 * 1001, (budget - 1) as nat);
        }
        if budget < u32::MAX {
            exact::lemma_fractions(p, n + 1, 1, (budget + 1) as nat, 1);
            exact::lemma_transitive(s * 65 * 999, 100_000, e, v, 1, g, (budget + 1) as nat, 1, 0);
            lemma_rearranged(s, e, 65 * 999, (budget + 1) as nat);
        }
    }
}

proof fn lemma_rearranged(s: nat, e: int, factor: nat, n: nat)
    requires
        factor > 0,
    ensures
        float::ratio_at_most(n, 1, 0, s * factor, 100_000, e) ==> float::ratio_at_most(
            n * 100_000,
            factor,
            0,
            s,
            1,
            e,
        ),
        float::ratio_at_most(s * factor, 100_000, e, n, 1, 0) ==> float::ratio_at_most(
            s,
            1,
            e,
            n * 100_000,
            factor,
            0,
        ),
{
    let low = exact::least(e, 0);
    exact::lemma_common_base(n, 1, 0, s * factor, 100_000, e, low);
    exact::lemma_common_base(s * factor, 100_000, e, n, 1, 0, low);
    exact::lemma_common_base(n * 100_000, factor, 0, s, 1, e, low);
    exact::lemma_common_base(s, 1, e, n * 100_000, factor, 0, low);
    let p = vstd::arithmetic::power2::pow2((0 - low) as nat) as int;
    let q = vstd::arithmetic::power2::pow2((e - low) as nat) as int;
    let x = n as int;
    let y = s as int;
    let f = factor as int;
    assert((x * 100_000) * p * 1 == x * p * 100_000) by (nonlinear_arith);
    assert(y * q * f == (y * f) * q * 1) by (nonlinear_arith);
}

/// The profile that a newcomer's group is given never exceeds its budget, nor the profile it is
/// lowered from, but for the smallest frame rate and height; a profile within the budget stays.
pub proof fn lemma_fitted_profile_keeps_the_budget(profile: CaptureSettingsView, budget: u32)
    requires
        budget >= 250_000,
    ensures
        ({
            let fit = joining::fitted(profile, budget);
            &&& fit.bitrate <= budget
            &&& fit.bitrate <= profile.bitrate
            &&& profile.bitrate <= budget ==> fit == profile
            &&& profile.bitrate > budget ==> fit.bitrate >= 250_000 && shown_fps(fit) >= 5
                && shown_height(fit) >= 144
            &&& shown_fps(fit) <= shown_fps(profile) || shown_fps(fit) == 5
            &&& shown_height(fit) <= shown_height(profile) || shown_height(fit) == 144
            &&& fit == (CaptureSettingsView {
                bitrate: fit.bitrate,
                output_fps: fit.output_fps,
                output_height: fit.output_height,
                ..profile
            })
        }),
    decreases profile.bitrate,
{
    if profile.bitrate > budget {
        let lowered = CaptureSettingsView {
            bitrate: profile::reduced_bitrate(profile.bitrate),
            output_fps: Some(
                profile::step_down_fps(config::value_or(profile.output_fps, profile.fps)),
            ),
            output_height: Some(
                profile::step_down_height(config::value_or(profile.output_height, profile.height)),
            ),
            ..profile
        };
        lemma_fitted_profile_keeps_the_budget(lowered, budget);
        profile::lemma_step_down(shown_fps(profile));
        profile::lemma_step_down(shown_height(profile));
    }
}

pub open spec fn shown_fps(profile: CaptureSettingsView) -> u32 {
    match profile.output_fps {
        Some(fps) => fps,
        None => profile.fps,
    }
}

pub open spec fn shown_height(profile: CaptureSettingsView) -> u32 {
    match profile.output_height {
        Some(height) => height,
        None => profile.height,
    }
}

/// No member of a group has anything to complain of.
pub open spec fn is_untroubled(report: GroupReport, bitrate: u32) -> bool {
    &&& forall|k: int|
        0 <= k < report.samples.len() ==> !metrics::is_starved(
            #[trigger] report.samples[k],
            bitrate,
            70,
            75,
        ) && !metrics::is_lossy(report.samples[k])
    &&& metrics::freeze_sum(report.samples) == 0
    &&& metrics::dropped_sum(report.samples) < 120
    &&& report.members == 0 || 2 * report.failures < report.members
}

/// Most of a group is in trouble: four fifths of its samples are starved, three fifths are lossy, or
/// playback fails for half of its members.
pub open spec fn is_troubled(report: GroupReport, bitrate: u32) -> bool {
    ||| 100 * list::count_where(
        report.samples,
        |s: MetricSample| metrics::is_starved(s, bitrate, 70, 75),
    ) >= 80 * report.samples.len()
    ||| 100 * list::count_where(report.samples, |s: MetricSample| metrics::is_lossy(s)) >= 60
        * report.samples.len()
    ||| report.members > 0 && 2 * report.failures >= report.members
}

proof fn lemma_trouble_is_instability(report: GroupReport, bitrate: u32)
    requires
        0 < report.samples.len() < 0x100_0000_0000,
    ensures
        tuning::is_unstable(report, bitrate) == is_troubled(report, bitrate),
        is_untroubled(report, bitrate) ==> tuning::is_stable(report, bitrate) && !is_troubled(
            report,
            bitrate,
        ),
        tuning::is_stable(report, bitrate) && !is_troubled(report, bitrate) ==> is_untroubled(
            report,
            bitrate,
        ),
{
    let samples = report.samples;
    let starved = |s: MetricSample| metrics::is_starved(s, bitrate, 70, 75);
    let lossy = |s: MetricSample| metrics::is_lossy(s);
    lemma_count(samples, starved);
    lemma_count(samples, lossy);
    exact::lemma_share_is_exact(list::count_where(samples, starved), samples.len(), 80);
    exact::lemma_share_is_exact(list::count_where(samples, lossy), samples.len(), 60);
    metrics::lemma_playback_limits(metrics::dropped_sum(samples), metrics::freeze_sum(samples));
    if is_untroubled(report, bitrate) {
        assert forall|k: int| 0 <= k < samples.len() implies !#[trigger] starved(samples[k]) by {}
        assert forall|k: int| 0 <= k < samples.len() implies !#[trigger] lossy(samples[k]) by {}
    }
    if list::count_where(samples, starved) == 0 && list::count_where(samples, lossy) == 0 {
        assert forall|k: int| 0 <= k < samples.len() implies !metrics::is_starved(
            #[trigger] samples[k],
            bitrate,
            70,
            75,
        ) && !metrics::is_lossy(samples[k]) by {
            assert(!starved(samples[k]));
            assert(!lossy(samples[k]));
        }
    }
}

/// A group whose members are all well is never lowered. Its bitrate rises by a tenth, up to the
/// ceiling; once it is there, the frame rate rises, and then the height. (Bitrates are multiplied in
/// 32 bits, so one above 42949672 bits a second does not rise.)
pub proof fn lemma_untroubled_group_is_raised(group: GroupView, report: GroupReport)
    requires
        0 < report.samples.len() < 0x100_0000_0000,
        is_untroubled(report, group.settings.bitrate),
        laws::is_within(group.settings, group.ceiling),
        group.settings.bitrate <= 42_949_672,
    ensures
        ({
            let now = group.settings;
            let top = group.ceiling;
            let next = tuning::tuned_profile(group, report);
            &&& next.bitrate >= now.bitrate
            &&& shown_fps(next) >= shown_fps(now)
            &&& shown_height(next) >= shown_height(now)
            &&& laws::is_within(next, top)
            &&& 10 <= now.bitrate < top.bitrate && now.bitrate < 42_949_672 ==> next.bitrate
                > now.bitrate
            &&& next.bitrate < top.bitrate && now.bitrate <= 39_045_157 ==> 11 * now.bitrate - 10
                < 10 * next.bitrate <= 11 * now.bitrate
            &&& next.bitrate == now.bitrate && shown_fps(now) < shown_fps(top) ==> shown_fps(next)
                > shown_fps(now)
            &&& next.bitrate == now.bitrate && shown_fps(now) == shown_fps(top) && shown_height(now)
                < shown_height(top) ==> shown_height(next) > shown_height(now)
            &&& next == (CaptureSettingsView {
                bitrate: next.bitrate,
                output_fps: next.output_fps,
                output_height: next.output_height,
                ..now
            })
        }),
{
    let now = group.settings;
    let top = group.ceiling;
    lemma_trouble_is_instability(report, now.bitrate);
    if shown_fps(now) < shown_fps(top) {
        profile::lemma_step_up(shown_fps(now), shown_fps(top));
    }
    if shown_height(now) < shown_height(top) {
        profile::lemma_step_up(shown_height(now), shown_height(top));
    }
}

/// A group most of which is in trouble is never raised. Its bitrate falls by a tenth; once that is as
/// small as it gets, the frame rate falls, and then the height.
pub proof fn lemma_troubled_group_is_eased(group: GroupView, report: GroupReport)
    requires
        0 < report.samples.len() < 0x100_0000_0000,
        is_troubled(report, group.settings.bitrate),
        group.settings.bitrate >= 250_000,
        shown_fps(group.settings) >= 5,
        shown_height(group.settings) >= 144,
    ensures
        ({
            let now = group.settings;
            let next = tuning::tuned_profile(group, report);
            &&& next.bitrate <= now.bitrate
            &&& shown_fps(next) <= shown_fps(now)
            &&& shown_height(next) <= shown_height(now)
            &&& now.bitrate > 250_000 ==> next.bitrate < now.bitrate
            &&& 250_000 < next.bitrate && now.bitrate <= 47_721_858 ==> 9 * now.bitrate - 10 < 10
                * next.bitrate <= 9 * now.bitrate
            &&& next.bitrate >= 250_000
            &&& now.bitrate == 250_000 && shown_fps(now) > 5 ==> shown_fps(next) < shown_fps(now)
            &&& now.bitrate == 250_000 && shown_fps(now) == 5 && shown_height(now) > 144
                ==> shown_height(next) < shown_height(now)
            &&& next == (CaptureSettingsView {
                bitrate: next.bitrate,
                output_fps: next.output_fps,
                output_height: next.output_height,
                ..now
            })
        }),
{
    let now = group.settings;
    lemma_trouble_is_instability(report, now.bitrate);
    profile::lemma_step_down(shown_fps(now));
    profile::lemma_step_down(shown_height(now));
}

/// A group that is neither untroubled nor mostly in trouble keeps its profile.
pub proof fn lemma_mixed_reports_change_nothing(group: GroupView, report: GroupReport)
    requires
        0 < report.samples.len() < 0x100_0000_0000,
        !is_troubled(report, group.settings.bitrate),
        !is_untroubled(report, group.settings.bitrate),
    ensures
        tuning::tuned_profile(group, report) == group.settings,
{
    lemma_trouble_is_instability(report, group.settings.bitrate);
}

/// A group is tuned at most every 10 seconds, while it is offered and has five samples; and then it
/// is.
pub proof fn lemma_tuning_takes_its_time(
    v: GroupsView,
    i: int,
    records: Seq<tuning::RecordView>,
    now: u64,
)
    requires
        0 <= i < v.groups.len() <= usize::MAX,
        now >= v.groups[i].last_tuned,
    ensures
        ({
            let group = v.groups[i];
            let report = tuning::group_report(v.assignments, i as usize, records, now);
            let tuned = v.tuned_group(i, records, now);
            let due = v.is_active(i) && report.samples.len() >= 5 && now - group.last_tuned
                >= 10_000_000_000;
            &&& !due ==> tuned == group
            &&& due ==> tuned.settings == tuning::tuned_profile(group, report)
            &&& tuned.settings != group.settings ==> tuned.last_tuned == now
            &&& tuned.ceiling == group.ceiling && tuned.codec == group.codec && tuned.media
                == group.media
        }),
{
}

/// A viewer counts for a group once it has been in it for 30 seconds and has reported: it adds its
/// recent samples, and a failure where its own playback fails. Other viewers add nothing.
pub proof fn lemma_report_holds_settled_members(
    clients: Seq<ClientView>,
    client: ClientView,
    group_id: usize,
    records: Seq<tuning::RecordView>,
    now: u64,
    at: int,
)
    requires
        now >= client.last_change,
        0 <= at < records.len(),
        records[at].client_id == client.client_id,
        forall|j: int| 0 <= j < at ==> (#[trigger] records[j]).client_id != client.client_id,
    ensures
        ({
            let before = tuning::group_report(clients, group_id, records, now);
            let after = tuning::group_report(clients.push(client), group_id, records, now);
            let window = metrics::window(records[at].metrics.samples, now);
            let fails = metrics::freeze_sum(window) >= 3 || metrics::dropped_sum(window) >= 300;
            if client.group_id == group_id && now - client.last_change >= 30_000_000_000 {
                &&& after.members == before.members + 1
                &&& after.samples == before.samples + window
                &&& after.failures == before.failures + if fails {
                    1nat
                } else {
                    0nat
                }
            } else {
                after == before
            }
        }),
{
    assert(clients.push(client).drop_last() =~= clients);
    let ids = tuning::record_ids(records);
    assert forall|j: int| 0 <= j < at implies ids[j] != client.client_id by {
        assert(ids[j] == records[j].client_id);
    }
    assert(ids[at] == client.client_id);
    list::lemma_position_found(ids, client.client_id, at);
    let window = metrics::window(records[at].metrics.samples, now);
    metrics::lemma_playback_limits(metrics::dropped_sum(window), metrics::freeze_sum(window));
}

/// A group that is nearly identical to an offered one with the same codec and at least as many members
/// is merged into such a one: into the one with the most.
pub proof fn lemma_similar_groups_are_merged(
    v: GroupsView,
    active: Seq<usize>,
    source: usize,
    members: spec_fn(usize) -> nat,
    k: int,
)
    requires
        source != 0,
        members(source) > 0,
        0 <= k < active.len(),
        active[k] != source,
        members(active[k]) >= members(source),
        text::ascii_lower(v.groups[active[k] as int].codec) == text::ascii_lower(
            v.groups[source as int].codec,
        ),
        profile::are_similar(
            v.groups[source as int].settings,
            v.groups[active[k] as int].settings,
        ),
    ensures
        v.merge_choice(active, source, members) is Some,
        members(v.merge_choice(active, source, members)->0) >= members(active[k]),
{
    lemma_best_target(v, active, source as int, members, k);
}

proof fn lemma_best_target(
    v: GroupsView,
    active: Seq<usize>,
    source: int,
    members: spec_fn(usize) -> nat,
    k: int,
)
    requires
        0 <= k < active.len(),
        v.can_absorb(active[k] as int, source),
    ensures
        v.merge_target(active, source, members) is Some,
        members(v.merge_target(active, source, members)->0) >= members(active[k]),
    decreases active.len(),
{
    let rest = active.drop_last();
    if k < rest.len() {
        assert(rest[k] == active[k]);
        lemma_best_target(v, rest, source, members, k);
    }
}

/// Groups that viewers can tell apart, or that speak another codec, are not merged; nor is the first
/// group, or an empty one, or one into a smaller one.
pub proof fn lemma_other_groups_are_not_merged(
    v: GroupsView,
    active: Seq<usize>,
    source: usize,
    members: spec_fn(usize) -> nat,
)
    requires
        forall|j: int| 0 <= j < active.len() ==> (#[trigger] active[j]) < v.groups.len(),
    ensures
        source == 0 || members(source) == 0 ==> v.merge_choice(active, source, members) is None,
        v.merge_choice(active, source, members) matches Some(target) ==> {
            &&& target != source
            &&& members(target) >= members(source)
            &&& text::ascii_lower(v.groups[target as int].codec) == text::ascii_lower(
                v.groups[source as int].codec,
            )
            &&& profile::are_similar(
                v.groups[source as int].settings,
                v.groups[target as int].settings,
            )
        },
{
    laws::lemma_merge_target_absorbs(v, active, source as int, members);
}

/// A merge moves every viewer of the one group to the other, tells them, and touches nobody else.
pub proof fn lemma_merge_moves_everybody(
    v: GroupsView,
    source: usize,
    target: usize,
    now: u64,
    k: int,
)
    requires
        source != target,
        source < v.groups.len(),
        0 <= k < v.assignments.len(),
    ensures
        ({
            let after = v.merged(source, target, now);
            let before = v.assignments[k];
            &&& after.assignments[k].client_id == before.client_id
            &&& before.group_id == source ==> after.assignments[k].group_id == target
                && after.assignments[k].last_change == now
            &&& before.group_id != source ==> after.assignments[k] == before
            &&& after.groups[source as int].lifecycle == GroupLifecycle::Draining
            &&& after.groups[source as int].media == v.groups[source as int].media
        }),
{
}

/// The group that a codec finds offers that codec: the preferred one, one that is offered, or an idle
/// one that is given it.
pub proof fn lemma_group_of_a_codec_speaks_it(
    v: GroupsView,
    codec: Seq<char>,
    preferred: usize,
    settings: CaptureSettingsView,
    ceiling: CaptureSettingsView,
)
    requires
        v.wf(),
    ensures
        ({
            let (after, target) = v.group_for(codec, preferred, settings, ceiling);
            &&& after.groups.len() == v.groups.len()
            &&& after.assignments == v.assignments
            &&& target matches Some(group_id) ==> text::ascii_lower(after.group(group_id).codec)
                == text::ascii_lower(codec)
            &&& text::ascii_lower(v.group(preferred).codec) == text::ascii_lower(codec) ==> target
                == Some(preferred)
        }),
{
    let n = v.groups.len() as int;
    list::lemma_first_in_range(0, n, |i: int| v.is_active(i) && v.speaks(i, codec));
    list::lemma_first_in_range(0, n, |i: int| i < v.capacity() && v.groups[i].media is None);
}

/// A newcomer has the place that was found for it, and remembers only those rejections that concern
/// codecs it still names.
pub proof fn lemma_newcomer_has_its_place(
    v: GroupsView,
    client: Seq<char>,
    supported: Seq<Seq<char>>,
    codec: Seq<char>,
    timed_out: bool,
    group_id: usize,
    now: u64,
)
    requires
        v.wf(),
        now >= 30_000_000_000,
    ensures
        ({
            let after = v.joined(client, supported, codec, timed_out, group_id, now);
            let at = v.client_at(client);
            &&& 0 <= at < after.assignments.len()
            &&& after.assignments[at].client_id == client
            &&& after.assignments[at].group_id == group_id
            &&& after.assignments[at].last_change == now
            &&& after.assignments[at].supported_codecs == supported
            &&& after.groups == v.groups
        }),
{
    list::lemma_position(groups::client_ids(v.assignments), client);
    let at = v.client_at(client);
    if v.knows(client) {
        assert(groups::client_ids(v.assignments)[at] == client);
    }
}

/// Looking at a group's members changes it exactly where it says so: a group that drains is taken up
/// again as soon as it has a member, an empty one begins to drain, and after twelve seconds it stops.
pub proof fn lemma_settling_tells_what_changes(v: GroupsView, i: int, now: u64)
    requires
        0 < i < v.capacity(),
    ensures
        ({
            let before = v.groups[i];
            let after = v.settled_group(i, now);
            let busy = v.has_members(i as usize);
            let rests = before.media is Some && before.drain_started_at is Some && now
                >= before.drain_started_at->0 + 12_000_000_000;
            &&& !v.settling_changes(i, now) ==> after.lifecycle == before.lifecycle && after.media
                == before.media
            &&& busy ==> after.media == before.media && after.drain_started_at is None
                && after.lifecycle != GroupLifecycle::Draining
            &&& busy && before.lifecycle == GroupLifecycle::Draining ==> v.settling_changes(i, now)
                && after.lifecycle == GroupLifecycle::Active
            &&& !busy && before.media is Some && before.drain_started_at is None
                ==> v.settling_changes(i, now) && after.lifecycle == GroupLifecycle::Draining
                && after.media == before.media && after.drain_started_at == Some(now)
            &&& !busy && rests ==> v.settling_changes(i, now) && after.lifecycle
                == GroupLifecycle::Stopped && after.media is None
            &&& !busy && before.drain_started_at is Some && !rests ==> after == before
                && !v.settling_changes(i, now)
            &&& !busy && before.media is None ==> after == before && !v.settling_changes(i, now)
        }),
{
}

/// A viewer who was not known belongs to the first group that is offered, and has been there long
/// enough to be moved at once; one whose group is gone waits like everybody who was moved.
pub proof fn lemma_unknown_viewer_is_settled(v: GroupsView, client: Seq<char>, now: u64)
    requires
        v.wf(),
        now >= 31_000_000_000,
    ensures
        ({
            let state = v.settled_client(client, now);
            &&& state.client_id == client
            &&& !v.knows(client) && v.is_active(v.primary() as int) ==> state.group_id
                == v.primary() && state.last_change + 30_000_000_000 < now
            &&& v.knows(client) && v.is_active(v.assignments[v.client_at(client)].group_id as int)
                ==> state == v.assignments[v.client_at(client)]
            &&& v.knows(client) && !v.is_active(v.assignments[v.client_at(client)].group_id as int)
                ==> state.group_id == v.primary() && state.last_change == now
        }),
{
    list::lemma_position(groups::client_ids(v.assignments), client);
    if v.knows(client) {
        assert(groups::client_ids(v.assignments)[v.client_at(client)] == client);
    }
}

} // verus!
