//! Measuring the host's connection, and finding its public address.

use vstd::prelude::*;
use vstd::string::*;

use crate::config;
use crate::float;
use crate::float::{Float, Precision};
use crate::noise;
use crate::text;

verus! {

pub const UPLOAD_PROBE_SEED: u64 = 0xA11C_E55D_1234_5678;

pub const FIRST_PROBE_SIZE: usize = 1_048_576;

/// How often the progress of a probe is reported.
pub const UPLOAD_PROGRESS_INTERVAL_NANOS: u64 = 250_000_000;

pub open spec fn lookup_endpoints() -> Seq<Seq<char>> {
    seq!["https://ipv4.wtfismyip.com/text"@, "https://api.ipify.org"@]
}

/// The services that tell the public address, in the order in which they are asked.
pub fn public_ip_endpoints() -> (r: Vec<&'static str>)
    ensures
        text::views_of(r@) == lookup_endpoints(),
{
    let endpoints = vec!["https://ipv4.wtfismyip.com/text", "https://api.ipify.org"];
    assert(text::views_of(endpoints@) =~= lookup_endpoints());
    endpoints
}

#[derive(Clone, Copy, Debug, PartialEq, Eq, Structural)]
pub struct UploadSpeedTestProgress {
    pub upload_bps: u64,
}

/// The bits per second of an upload. Times below a millisecond count as one.
pub open spec fn rate_of(bytes: nat, elapsed_nanos: u64) -> u64 {
    let measured = float::seconds_of(elapsed_nanos);
    let least = float::ratio(1, 1000);
    let elapsed = if float::less(measured, least) {
        least
    } else {
        measured
    };
    let rate = float::floor(
        float::quotient(
            float::product(
                float::of_nat(Precision::Double, bytes),
                float::of_nat(Precision::Double, 8),
            ),
            elapsed,
        ),
    );
    if rate > u64::MAX {
        u64::MAX
    } else {
        rate as u64
    }
}

pub fn upload_rate(bytes: u64, elapsed_nanos: u64) -> (r: u64)
    ensures
        r == rate_of(bytes as nat, elapsed_nanos),
{
    let measured = float::seconds(elapsed_nanos);
    let least = float::fraction(1, 1000);
    let elapsed: Float = if float::is_less(measured, least) {
        least
    } else {
        measured
    };
    proof {
        if measured.significand == 0 {
            float::lemma_zero_is_less(measured, least);
        }
    }
    let bits = float::multiply(
        float::integer(Precision::Double, bytes),
        float::integer(Precision::Double, 8),
    );
    float::truncated(float::divide(bits, elapsed), u64::MAX)
}

/// The size that follows a probe: four times as much for the first sizes, then twice as much.
pub open spec fn size_after(size: usize) -> Option<usize> {
    if size == 1_048_576 || size == 4_194_304 || size == 16_777_216 {
        Some((size * 4) as usize)
    } else if size * 2 > usize::MAX {
        None
    } else {
        Some((size * 2) as usize)
    }
}

pub fn next_upload_probe_size(size: usize) -> (r: Option<usize>)
    ensures
        r == size_after(size),
{
    if size == 1_048_576 || size == 4_194_304 || size == 16_777_216 {
        return Some(size * 4);
    }
    size.checked_mul(2)
}

/// A series of uploads that grow until one is slower than the one before.
#[derive(Clone, Copy, Debug, PartialEq, Eq, Structural)]
pub struct UploadRamp {
    pub size: usize,
    pub previous_bps: Option<u64>,
    pub largest_bps: Option<u64>,
}

/// What a finished upload means.
#[derive(Clone, Copy, Debug, PartialEq, Eq, Structural)]
pub struct ProbeOutcome {
    pub progress: UploadSpeedTestProgress,
    /// Whether another upload follows.
    pub goes_on: bool,
}

impl UploadRamp {
    pub fn new() -> (r: Self)
        ensures
            r == (UploadRamp { size: FIRST_PROBE_SIZE, previous_bps: None, largest_bps: None }),
    {
        UploadRamp { size: FIRST_PROBE_SIZE, previous_bps: None, largest_bps: None }
    }

    /// An upload was finished. A slower one than before is reported but does not count, and ends
    /// the series.
    pub open spec fn completed(self, elapsed_nanos: u64) -> (UploadRamp, ProbeOutcome) {
        let bps = rate_of(self.size as nat, elapsed_nanos);
        let slower = self.previous_bps is Some && bps < self.previous_bps->0;
        let progress = UploadSpeedTestProgress { upload_bps: bps };
        if slower {
            (self, ProbeOutcome { progress, goes_on: false })
        } else {
            (
                UploadRamp {
                    size: match size_after(self.size) {
                        Some(next) => next,
                        None => self.size,
                    },
                    previous_bps: Some(bps),
                    largest_bps: Some(bps),
                },
                ProbeOutcome { progress, goes_on: size_after(self.size) is Some },
            )
        }
    }

    pub fn complete(&mut self, elapsed_nanos: u64) -> (r: ProbeOutcome)
        ensures
            (*final(self), r) == old(self).completed(elapsed_nanos),
    {
        let upload_bps = upload_rate(self.size as u64, elapsed_nanos);
        let progress = UploadSpeedTestProgress { upload_bps };
        let slower = match self.previous_bps {
            Some(previous) => upload_bps < previous,
            None => false,
        };
        if slower {
            return ProbeOutcome { progress, goes_on: false };
        }
        self.largest_bps = Some(upload_bps);
        self.previous_bps = Some(upload_bps);
        match next_upload_probe_size(self.size) {
            Some(next) => {
                self.size = next;
                ProbeOutcome { progress, goes_on: true }
            },
            None => ProbeOutcome { progress, goes_on: false },
        }
    }

    /// Whether an upload that took too long ends the series rather than the whole measurement.
    pub fn timeout_ends_ramp(&self) -> (r: bool)
        ensures
            r == (self.largest_bps is Some),
    {
        self.largest_bps.is_some()
    }

    /// The result of the series.
    pub fn result(&self) -> (r: Result<u64, &'static str>)
        ensures
            match r {
                Ok(bps) => self.largest_bps == Some(bps) && bps > 0,
                Err(message) => (self.largest_bps is None || self.largest_bps == Some(0u64))
                    && message@ == "Cloudflare upload speed test returned no usable measurements"@,
            },
    {
        match self.largest_bps {
            Some(bps) => if bps > 0 {
                Ok(bps)
            } else {
                Err("Cloudflare upload speed test returned no usable measurements")
            },
            None => Err("Cloudflare upload speed test returned no usable measurements"),
        }
    }
}

/// What a series has measured never falls: a slower upload does not replace a faster one.
pub proof fn lemma_measurement_never_falls(ramp: UploadRamp, elapsed_nanos: u64)
    requires
        ramp.previous_bps == ramp.largest_bps,
    ensures
        ({
            let after = ramp.completed(elapsed_nanos).0;
            &&& after.previous_bps == after.largest_bps
            &&& ramp.largest_bps is Some ==> after.largest_bps is Some && after.largest_bps->0
                >= ramp.largest_bps->0
        }),
{
}

/// The number of viewers that an upload rate can serve. Some of it is left for other traffic, and a
/// stream takes more than its bitrate.
pub open spec fn viewers_served(upload_bps: u64, bitrate: u32) -> nat {
    let per_viewer = float::product(
        float::of_nat(Precision::Double, config::max_u32(bitrate, 250_000) as nat),
        float::ratio(110, 100),
    );
    let usable = float::product(
        float::of_nat(Precision::Double, upload_bps as nat),
        float::ratio(65, 100),
    );
    float::floor(float::quotient(usable, per_viewer))
}

/// How many viewers are let in at an upload rate: those that it serves, but always one.
pub open spec fn viewer_limit(upload_bps: u64, bitrate: u32) -> usize {
    let served = viewers_served(upload_bps, bitrate);
    if served < 1 {
        1
    } else if served > usize::MAX {
        usize::MAX
    } else {
        served as usize
    }
}

proof fn lemma_stream_rate(bitrate: u32)
    ensures
        ({
            let rate = float::product(
                float::of_nat(Precision::Double, config::max_u32(bitrate, 250_000) as nat),
                float::ratio(110, 100),
            );
            rate.wf() && rate.precision == Precision::Double && rate.significand > 0
                && rate.within(1000)
        }),
{
    let most = config::max_u32(bitrate, 250_000);
    float::lemma_ratio_is_normal(most as nat, 1);
    float::lemma_ratio_is_normal(110, 100);
    float::lemma_product_is_normal(
        float::of_nat(Precision::Double, most as nat),
        float::ratio(110, 100),
    );
}

proof fn lemma_usable_rate(upload_bps: u64)
    ensures
        ({
            let usable = float::product(
                float::of_nat(Precision::Double, upload_bps as nat),
                float::ratio(65, 100),
            );
            usable.wf() && usable.precision == Precision::Double && usable.within(1000)
        }),
{
    float::lemma_ratio_is_normal(upload_bps as nat, 1);
    float::lemma_ratio_is_normal(65, 100);
    float::lemma_product_is_normal(
        float::of_nat(Precision::Double, upload_bps as nat),
        float::ratio(65, 100),
    );
}

/// The limit on viewers is at least one. It does not fall when the upload rate rises, and does not
/// rise with the bitrate of a stream; below the smallest bitrate it does not depend on it.
pub proof fn lemma_viewer_limit_follows_the_rates(
    upload_bps: u64,
    faster_bps: u64,
    bitrate: u32,
    higher_bitrate: u32,
)
    requires
        upload_bps <= faster_bps,
        bitrate <= higher_bitrate,
    ensures
        viewer_limit(upload_bps, bitrate) >= 1,
        viewers_served(upload_bps, bitrate) <= viewers_served(faster_bps, bitrate),
        viewers_served(upload_bps, higher_bitrate) <= viewers_served(upload_bps, bitrate),
        viewer_limit(upload_bps, bitrate) <= viewer_limit(faster_bps, bitrate),
        viewer_limit(upload_bps, higher_bitrate) <= viewer_limit(upload_bps, bitrate),
        bitrate < 250_000 ==> viewer_limit(upload_bps, bitrate) == viewer_limit(
            upload_bps,
            250_000,
        ),
{
    let stream = float::of_nat(Precision::Double, config::max_u32(bitrate, 250_000) as nat);
    let higher = float::of_nat(Precision::Double, config::max_u32(higher_bitrate, 250_000) as nat);
    let slow = float::of_nat(Precision::Double, upload_bps as nat);
    let fast = float::of_nat(Precision::Double, faster_bps as nat);
    let share = float::ratio(65, 100);
    let overhead = float::ratio(110, 100);
    lemma_stream_rate(bitrate);
    lemma_stream_rate(higher_bitrate);
    lemma_usable_rate(upload_bps);
    lemma_usable_rate(faster_bps);
    float::lemma_ratio_is_normal(65, 100);
    float::lemma_ratio_is_normal(110, 100);
    float::lemma_ratio_is_normal(upload_bps as nat, 1);
    float::lemma_ratio_is_normal(faster_bps as nat, 1);
    float::lemma_ratio_is_normal(config::max_u32(bitrate, 250_000) as nat, 1);
    float::lemma_ratio_is_normal(config::max_u32(higher_bitrate, 250_000) as nat, 1);
    let per_viewer = float::product(stream, overhead);
    let per_higher = float::product(higher, overhead);
    let usable = float::product(slow, share);
    let more = float::product(fast, share);
    float::lemma_integers_keep_order(upload_bps as nat, faster_bps as nat);
    float::lemma_products_keep_order(slow, fast, share);
    float::lemma_dividends_keep_order(usable, more, per_viewer);
    float::lemma_floor_keeps_order(
        float::quotient(usable, per_viewer),
        float::quotient(more, per_viewer),
    );
    float::lemma_integers_keep_order(
        config::max_u32(bitrate, 250_000) as nat,
        config::max_u32(higher_bitrate, 250_000) as nat,
    );
    float::lemma_products_keep_order(stream, higher, overhead);
    float::lemma_divisors_reverse_order(usable, per_viewer, per_higher);
    float::lemma_floor_keeps_order(
        float::quotient(usable, per_higher),
        float::quotient(usable, per_viewer),
    );
}

pub fn recommended_max_viewers(upload_bps: u64, per_viewer_bitrate_bps: u32) -> (r: usize)
    ensures
        r == viewer_limit(upload_bps, per_viewer_bitrate_bps),
{
    let bitrate: u32 = if per_viewer_bitrate_bps > 250_000 {
        per_viewer_bitrate_bps
    } else {
        250_000
    };
    let per_viewer = float::multiply(
        float::integer(Precision::Double, bitrate as u64),
        float::fraction(110, 100),
    );
    let usable = float::multiply(
        float::integer(Precision::Double, upload_bps),
        float::fraction(65, 100),
    );
    let served = float::truncated(float::divide(usable, per_viewer), usize::MAX as u64);
    if served < 1 {
        1
    } else {
        served as usize
    }
}

/// The body of a probe: bytes that do not repeat, handed out in portions.
#[derive(Clone, Copy, Debug, PartialEq, Eq, Structural)]
pub struct UploadProbeReader {
    pub remaining: u64,
    pub state: u64,
    pub uploaded: u64,
}

impl UploadProbeReader {
    pub fn new(size: usize) -> (r: Self)
        ensures
            r == (UploadProbeReader { remaining: size as u64, state: UPLOAD_PROBE_SEED, uploaded: 0 }),
    {
        UploadProbeReader { remaining: size as u64, state: UPLOAD_PROBE_SEED, uploaded: 0 }
    }

    /// The next bytes, as many as fit into a buffer.
    pub fn read(&mut self, room: usize) -> (r: Vec<u8>)
        requires
            old(self).uploaded + old(self).remaining <= u64::MAX,
        ensures
            ({
                let amount = if old(self).remaining < room {
                    old(self).remaining as nat
                } else {
                    room as nat
                };
                &&& r@ == noise::noise(old(self).state, amount)
                &&& *final(self) == (UploadProbeReader {
                    remaining: (old(self).remaining - amount) as u64,
                    state: noise::state_after(old(self).state, amount),
                    uploaded: (old(self).uploaded + amount) as u64,
                })
            }),
    {
        let amount: usize = if self.remaining < room as u64 {
            self.remaining as usize
        } else {
            room
        };
        let (bytes, state) = noise::fill(self.state, amount);
        self.state = state;
        self.remaining -= amount as u64;
        self.uploaded += amount as u64;
        bytes
    }

    /// The rate so far, if it is time to report it.
    pub fn report_progress(&self, since_last_nanos: u64, elapsed_nanos: u64) -> (r: Option<
        UploadSpeedTestProgress,
    >)
        ensures
            r == if self.uploaded == 0 || since_last_nanos < UPLOAD_PROGRESS_INTERVAL_NANOS {
                None
            } else {
                Some(
                    UploadSpeedTestProgress {
                        upload_bps: rate_of(self.uploaded as nat, elapsed_nanos),
                    },
                )
            },
    {
        if self.uploaded == 0 || since_last_nanos < UPLOAD_PROGRESS_INTERVAL_NANOS {
            return None;
        }
        Some(UploadSpeedTestProgress { upload_bps: upload_rate(self.uploaded, elapsed_nanos) })
    }
}

/// A probe's body is the same however it is read.
pub proof fn lemma_probe_body_is_one_stream(reader: UploadProbeReader, n: nat, m: nat)
    ensures
        noise::noise(reader.state, n) + noise::noise(noise::state_after(reader.state, n), m)
            == noise::noise(reader.state, n + m),
{
    noise::lemma_portions_join(reader.state, n, m);
}

/// A number of an IPv4 address: one to three digits without a leading zero, at most 255.
pub open spec fn octet(s: Seq<char>) -> Option<nat> {
    if 1 <= s.len() <= 3 && text::all_digits(s) && (s.len() == 1 || s[0] != '0')
        && text::digits_value(s) <= 255 {
        Some(text::digits_value(s))
    } else {
        None
    }
}

/// An IPv4 address in dotted notation.
pub open spec fn ipv4_of(s: Seq<char>) -> Option<u32> {
    let parts = text::split_seq(s, '.');
    if parts.len() == 4 && octet(parts[0]) is Some && octet(parts[1]) is Some && octet(parts[2])
        is Some && octet(parts[3]) is Some {
        Some(
            (octet(parts[0])->0 * 0x100_0000 + octet(parts[1])->0 * 0x1_0000 + octet(parts[2])->0
                * 0x100 + octet(parts[3])->0) as u32,
        )
    } else {
        None
    }
}

fn read_octet(s: &str) -> (r: Option<u32>)
    ensures
        match r {
            Some(n) => octet(s@) == Some(n as nat) && n <= 255,
            None => octet(s@) is None,
        },
{
    let chars = text::chars_of(s);
    if chars.len() == 0 || chars.len() > 3 || (chars.len() > 1 && chars[0] == '0') {
        return None;
    }
    if chars[0] == '+' {
        assert(!text::is_digit(s@[0]));
        return None;
    }
    assert(text::unsigned_body(s@) == s@);
    match text::parse_number(s, 255) {
        Some(n) => Some(n as u32),
        None => None,
    }
}

pub fn parse_ipv4(s: &str) -> (r: Option<u32>)
    ensures
        r == ipv4_of(s@),
{
    let parts = text::split(s, '.');
    let ghost views = text::split_seq(s@, '.');
    assert(parts@.len() == views.len());
    if parts.len() != 4 {
        return None;
    }
    assert(views[0] == parts@[0]@ && views[1] == parts@[1]@ && views[2] == parts@[2]@ && views[3]
        == parts@[3]@);
    match (read_octet(parts[0]), read_octet(parts[1]), read_octet(parts[2]), read_octet(parts[3])) {
        (Some(a), Some(b), Some(c), Some(d)) => Some(
            a * 0x100_0000 + b * 0x1_0000 + c * 0x100 + d,
        ),
        _ => None,
    }
}

pub open spec fn has_white_space(s: Seq<char>) -> bool {
    exists|i: int| 0 <= i < s.len() && text::is_white_space(#[trigger] s[i])
}

fn holds_white_space(s: &str) -> (r: bool)
    ensures
        r == has_white_space(s@),
{
    let chars = text::chars_of(s);
    let mut i: usize = 0;
    while i < chars.len()
        invariant
            i <= chars@.len(),
            chars@ == s@,
            forall|j: int| 0 <= j < i ==> !text::is_white_space(#[trigger] s@[j]),
        decreases chars@.len() - i,
    {
        if text::white_space(chars[i]) {
            assert(text::is_white_space(s@[i as int]));
            return true;
        }
        i += 1;
    }
    false
}

/// The address in the answer of a service, or what is wrong with the answer.
pub open spec fn answered_address(response: Seq<char>) -> Result<u32, Seq<char>> {
    let value = text::trim_seq(response);
    if value.len() == 0 || has_white_space(value) {
        Err("service returned an invalid response"@)
    } else {
        match ipv4_of(value) {
            Some(address) => Ok(address),
            None => Err("service returned '"@ + value + "', not an IPv4 address"@),
        }
    }
}

pub fn public_ip_answer(response: &str) -> (r: Result<u32, String>)
    ensures
        match r {
            Ok(address) => answered_address(response@) == Ok::<u32, Seq<char>>(address),
            Err(message) => answered_address(response@) == Err::<u32, Seq<char>>(message@),
        },
{
    let value = text::trim(response);
    if value.is_empty() || holds_white_space(value) {
        return Err("service returned an invalid response".to_owned());
    }
    match parse_ipv4(value) {
        Some(address) => Ok(address),
        None => {
            let mut message = text::joined("service returned '", value);
            message.append("', not an IPv4 address");
            Err(message)
        },
    }
}

/// A service's failure, with the service's name.
pub fn endpoint_failure(endpoint: &str, error: &str) -> (r: String)
    ensures
        r@ == endpoint@ + ": "@ + error@,
{
    let mut s = text::joined(endpoint, ": ");
    s.append(error);
    s
}

/// What is reported when no service told the address.
pub fn lookup_failure(failures: &Vec<String>) -> (r: String)
    ensures
        r@ == "all public IP lookup services failed: "@ + text::joined_with(
            config::texts(failures@),
            "; "@,
        ),
{
    let list = text::join(failures, "; ");
    text::joined("all public IP lookup services failed: ", list.as_str())
}

/// The measured uploads grow: four times as large at first, then twice.
pub proof fn lemma_uploads_grow(size: usize)
    requires
        size > 0,
    ensures
        size_after(size) matches Some(next) ==> next > size && (next == 2 * size || next == 4
            * size),
        size_after(1_048_576) == Some(4_194_304usize),
        size_after(4_194_304) == Some(16_777_216usize),
        size_after(16_777_216) == Some(67_108_864usize),
        size == 67_108_864 ==> size_after(size) == Some((2 * size) as usize),
{
}

/// A series of uploads goes on while each is at least as fast as the one before, and ends with the
/// first that is slower; the rate that is kept is that of the last one that was not.
pub proof fn lemma_series_of_uploads(ramp: UploadRamp, elapsed_nanos: u64)
    ensures
        ({
            let bps = rate_of(ramp.size as nat, elapsed_nanos);
            let (after, outcome) = ramp.completed(elapsed_nanos);
            &&& outcome.progress.upload_bps == bps
            &&& ramp.previous_bps is Some && bps < ramp.previous_bps->0 ==> !outcome.goes_on
                && after == ramp
            &&& ramp.previous_bps is None || bps >= ramp.previous_bps->0 ==> after.largest_bps
                == Some(bps)
            &&& (ramp.previous_bps is None || bps >= ramp.previous_bps->0) && size_after(ramp.size)
                is Some ==> outcome.goes_on && after.size == size_after(ramp.size)->0
        }),
{
}

/// An address is written as four numbers with dots between them, the first of which counts most.
pub proof fn lemma_address_round_trip(a: u8, b: u8, c: u8, d: u8)
    ensures
        ({
            let dotted = text::decimal(a as nat).push('.') + text::decimal(b as nat).push('.')
                + text::decimal(c as nat).push('.') + text::decimal(d as nat);
            ipv4_of(dotted) == Some(
                (a * 0x100_0000 + b * 0x1_0000 + c * 0x100 + d) as u32,
            )
        }),
{
    let p = text::decimal(a as nat);
    let q = text::decimal(b as nat);
    let r = text::decimal(c as nat);
    let s = text::decimal(d as nat);
    lemma_octet(a);
    lemma_octet(b);
    lemma_octet(c);
    lemma_octet(d);
    let dotted = p.push('.') + q.push('.') + r.push('.') + s;
    let one = q.push('.') + r.push('.') + s;
    let two = r.push('.') + s;
    assert(dotted =~= p.push('.') + one);
    assert(one =~= q.push('.') + two);
    text::lemma_first_index(s, '.');
    if s.contains('.') {
        let i = choose|i: int| 0 <= i < s.len() && s[i] == '.';
        assert(s[i] != '.');
    }
    assert(text::split_seq(s, '.') == seq![s]);
    lemma_next_part(r, s);
    assert(text::split_seq(two, '.') =~= seq![r, s]);
    lemma_next_part(q, two);
    assert(text::split_seq(one, '.') =~= seq![q, r, s]);
    lemma_next_part(p, one);
    assert(text::split_seq(dotted, '.') =~= seq![p, q, r, s]);
}

proof fn lemma_next_part(front: Seq<char>, back: Seq<char>)
    requires
        forall|i: int| 0 <= i < front.len() ==> front[i] != '.',
    ensures
        text::split_seq(front.push('.') + back, '.') == seq![front] + text::split_seq(back, '.'),
{
    let all = front.push('.') + back;
    text::lemma_split(front, '.', back);
    text::lemma_first_index(all, '.');
    let i = text::first_index(all, '.');
    assert(all.take(i) == front && all.skip(i + 1) == back);
}

proof fn lemma_octet(n: u8)
    ensures
        octet(text::decimal(n as nat)) == Some(n as nat),
        forall|i: int|
            0 <= i < text::decimal(n as nat).len() ==> text::decimal(n as nat)[i] != '.',
{
    let s = text::decimal(n as nat);
    text::lemma_decimal_digits(n as nat);
    reveal_with_fuel(text::decimal, 4);
    assert(s.len() <= 3);
    assert forall|i: int| 0 <= i < s.len() implies s[i] != '.' by {
        assert(text::is_digit(s[i]));
    }
    if s.len() > 1 {
        assert(s[0] != '0');
    }
}

/// A number of an address is accepted only as it is written out: from 0 to 255, without leading
/// zeros.
pub proof fn lemma_octets_are_written_out(s: Seq<char>)
    ensures
        octet(s) matches Some(n) ==> n <= 255 && s == text::decimal(n),
        forall|n: nat| n <= 255 ==> octet(#[trigger] text::decimal(n)) == Some(n),
{
    if octet(s) is Some {
        text::lemma_digits_round_trip(s);
    }
    assert forall|n: nat| n <= 255 implies octet(#[trigger] text::decimal(n)) == Some(n) by {
        lemma_octet(n as u8);
    }
}

/// An address begins with a digit.
pub proof fn lemma_addresses_begin_with_a_digit(s: Seq<char>)
    requires
        ipv4_of(s) is Some,
    ensures
        s.len() > 0,
        text::is_digit(s[0]),
{
    text::lemma_first_index(s, '.');
    let i = text::first_index(s, '.');
    let first = text::split_seq(s, '.')[0];
    assert(octet(first) is Some);
    assert(text::is_digit(first[0]));
    if i < s.len() {
        assert(first == s.take(i));
        assert(first[0] == s[0]);
    } else {
        assert(first == s);
    }
}

/// A service that answers with an address, and white space around it, is understood; one that answers
/// with nothing is not.
pub proof fn lemma_answers_are_read(
    front: Seq<char>,
    a: u8,
    b: u8,
    c: u8,
    d: u8,
    back: Seq<char>,
)
    requires
        forall|i: int| 0 <= i < front.len() ==> text::is_white_space(#[trigger] front[i]),
        forall|i: int| 0 <= i < back.len() ==> text::is_white_space(#[trigger] back[i]),
    ensures
        ({
            let dotted = text::decimal(a as nat).push('.') + text::decimal(b as nat).push('.')
                + text::decimal(c as nat).push('.') + text::decimal(d as nat);
            answered_address(front + dotted + back) == Ok::<u32, Seq<char>>(
                (a * 0x100_0000 + b * 0x1_0000 + c * 0x100 + d) as u32,
            )
        }),
        answered_address(Seq::empty()) is Err,
{
    let p = text::decimal(a as nat);
    let q = text::decimal(b as nat);
    let r = text::decimal(c as nat);
    let s = text::decimal(d as nat);
    let dotted = p.push('.') + q.push('.') + r.push('.') + s;
    text::lemma_decimal_digits(a as nat);
    text::lemma_decimal_digits(b as nat);
    text::lemma_decimal_digits(c as nat);
    text::lemma_decimal_digits(d as nat);
    assert forall|i: int| 0 <= i < dotted.len() implies !text::is_white_space(#[trigger] dotted[i]) by {
        let m = p.len() + 1;
        let n = m + q.len() + 1;
        let o = n + r.len() + 1;
        if i < p.len() {
            assert(dotted[i] == p[i] && text::is_digit(p[i]));
        } else if m <= i < n - 1 {
            assert(dotted[i] == q[i - m] && text::is_digit(q[i - m]));
        } else if n <= i < o - 1 {
            assert(dotted[i] == r[i - n] && text::is_digit(r[i - n]));
        } else if o <= i {
            assert(dotted[i] == s[i - o] && text::is_digit(s[i - o]));
        } else {
            assert(dotted[i] == '.');
        }
    }
    text::lemma_trimmed(front, dotted, back);
    lemma_address_round_trip(a, b, c, d);
}

} // verus!
