//! Quality profiles: the steps between them, and the changes that a new profile asks for.

use vstd::prelude::*;

use crate::config;
use crate::exact;
use crate::float;
use crate::media::{CaptureSettings, CaptureSettingsView};
use crate::text;

verus! {

/// The next standard height below `height`.
pub open spec fn step_down_height(height: u32) -> u32 {
    if height > 2160 {
        2160
    } else if height > 1440 {
        1440
    } else if height > 1080 {
        1080
    } else if height > 720 {
        720
    } else if height > 480 {
        480
    } else if height > 360 {
        360
    } else if height > 240 {
        240
    } else {
        144
    }
}

pub fn lower_height(height: u32) -> (r: u32)
    ensures
        r == step_down_height(height),
{
    if height > 2160 {
        2160
    } else if height > 1440 {
        1440
    } else if height > 1080 {
        1080
    } else if height > 720 {
        720
    } else if height > 480 {
        480
    } else if height > 360 {
        360
    } else if height > 240 {
        240
    } else {
        144
    }
}

/// The next standard frame rate below `fps`.
pub open spec fn step_down_fps(fps: u32) -> u32 {
    if fps > 60 {
        60
    } else if fps > 30 {
        30
    } else if fps > 24 {
        24
    } else if fps > 15 {
        15
    } else if fps > 10 {
        10
    } else {
        5
    }
}

pub fn lower_fps(fps: u32) -> (r: u32)
    ensures
        r == step_down_fps(fps),
{
    if fps > 60 {
        60
    } else if fps > 30 {
        30
    } else if fps > 24 {
        24
    } else if fps > 15 {
        15
    } else if fps > 10 {
        10
    } else {
        5
    }
}

/// `value`, if it lies above `current` and not above `ceiling`.
pub open spec fn reachable(value: u32, current: u32, ceiling: u32) -> bool {
    current < value <= ceiling
}

/// The next standard frame rate above `fps` within the ceiling, or the ceiling itself.
pub open spec fn step_up_fps(fps: u32, ceiling: u32) -> u32 {
    if reachable(5, fps, ceiling) {
        5
    } else if reachable(10, fps, ceiling) {
        10
    } else if reachable(15, fps, ceiling) {
        15
    } else if reachable(24, fps, ceiling) {
        24
    } else if reachable(30, fps, ceiling) {
        30
    } else if reachable(60, fps, ceiling) {
        60
    } else if reachable(75, fps, ceiling) {
        75
    } else if reachable(120, fps, ceiling) {
        120
    } else {
        ceiling
    }
}

pub fn higher_fps(fps: u32, ceiling: u32) -> (r: u32)
    ensures
        r == step_up_fps(fps, ceiling),
{
    if fps < 5 && 5 <= ceiling {
        5
    } else if fps < 10 && 10 <= ceiling {
        10
    } else if fps < 15 && 15 <= ceiling {
        15
    } else if fps < 24 && 24 <= ceiling {
        24
    } else if fps < 30 && 30 <= ceiling {
        30
    } else if fps < 60 && 60 <= ceiling {
        60
    } else if fps < 75 && 75 <= ceiling {
        75
    } else if fps < 120 && 120 <= ceiling {
        120
    } else {
        ceiling
    }
}

/// The next standard height above `height` within the ceiling, or the ceiling itself.
pub open spec fn step_up_height(height: u32, ceiling: u32) -> u32 {
    if reachable(144, height, ceiling) {
        144
    } else if reachable(240, height, ceiling) {
        240
    } else if reachable(360, height, ceiling) {
        360
    } else if reachable(480, height, ceiling) {
        480
    } else if reachable(720, height, ceiling) {
        720
    } else if reachable(1080, height, ceiling) {
        1080
    } else if reachable(1440, height, ceiling) {
        1440
    } else if reachable(2160, height, ceiling) {
        2160
    } else if reachable(4320, height, ceiling) {
        4320
    } else {
        ceiling
    }
}

pub fn higher_height(height: u32, ceiling: u32) -> (r: u32)
    ensures
        r == step_up_height(height, ceiling),
{
    if height < 144 && 144 <= ceiling {
        144
    } else if height < 240 && 240 <= ceiling {
        240
    } else if height < 360 && 360 <= ceiling {
        360
    } else if height < 480 && 480 <= ceiling {
        480
    } else if height < 720 && 720 <= ceiling {
        720
    } else if height < 1080 && 1080 <= ceiling {
        1080
    } else if height < 1440 && 1440 <= ceiling {
        1440
    } else if height < 2160 && 2160 <= ceiling {
        2160
    } else if height < 4320 && 4320 <= ceiling {
        4320
    } else {
        ceiling
    }
}

/// A step up leads upwards and never above the ceiling.
pub proof fn lemma_step_up(current: u32, ceiling: u32)
    requires
        current < ceiling,
    ensures
        current < step_up_fps(current, ceiling) <= ceiling,
        current < step_up_height(current, ceiling) <= ceiling,
{
}

/// A step down never leads upwards, except to the lowest standard value.
pub proof fn lemma_step_down(value: u32)
    ensures
        step_down_fps(value) < value || step_down_fps(value) == 5,
        step_down_height(value) < value || step_down_height(value) == 144,
{
}

/// Three fifths of a bitrate, computed in 32 bits, but not below the minimum.
pub open spec fn reduced_bitrate(bitrate: u32) -> u32 {
    let tripled = if bitrate * 3 > u32::MAX {
        u32::MAX as int
    } else {
        bitrate * 3
    };
    if tripled / 5 >= 250_000 {
        (tripled / 5) as u32
    } else {
        250_000
    }
}

pub fn reduce_bitrate(bitrate: u32) -> (r: u32)
    ensures
        r == reduced_bitrate(bitrate),
{
    let wide: u64 = bitrate as u64 * 3;
    let tripled: u64 = if wide > u32::MAX as u64 {
        u32::MAX as u64
    } else {
        wide
    };
    if tripled / 5 >= 250_000 {
        (tripled / 5) as u32
    } else {
        250_000
    }
}

/// The frame rate of the group below one with `fps`.
pub open spec fn group_fps_below(fps: u32) -> u32 {
    if fps > 30 {
        30
    } else if fps > 24 {
        24
    } else if fps > 15 {
        15
    } else if fps > 10 {
        10
    } else {
        5
    }
}

/// Height, frame rate and bitrate after `steps` steps down from the profile of the first group.
pub open spec fn descended(height: u32, fps: u32, bitrate: u32, steps: nat) -> (u32, u32, u32)
    decreases steps,
{
    if steps == 0 {
        (height, fps, bitrate)
    } else {
        let (h, f, b) = descended(height, fps, bitrate, (steps - 1) as nat);
        (step_down_height(h), group_fps_below(f), reduced_bitrate(b))
    }
}

/// The profile of a quality group: the base profile, lowered once for each group above it.
pub open spec fn profile_of_group(
    base: CaptureSettingsView,
    group_id: nat,
) -> CaptureSettingsView {
    let (height, fps, bitrate) = descended(
        config::value_or(base.output_height, base.height),
        config::value_or(base.output_fps, base.fps),
        base.bitrate,
        group_id,
    );
    CaptureSettingsView {
        output_height: Some(height),
        output_fps: Some(fps),
        bitrate,
        ..base
    }
}

pub fn group_settings(base: &CaptureSettings, group_id: usize) -> (r: CaptureSettings)
    ensures
        r@ == profile_of_group(base@, group_id as nat),
{
    let mut settings = base.clone();
    let mut height: u32 = match base.output_height {
        Some(height) => height,
        None => base.height,
    };
    let mut fps: u32 = match base.output_fps {
        Some(fps) => fps,
        None => base.fps,
    };
    let mut bitrate: u32 = base.bitrate;
    let ghost start = (height, fps, bitrate);
    let mut step: usize = 0;
    while step < group_id
        invariant
            step <= group_id,
            (height, fps, bitrate) == descended(start.0, start.1, start.2, step as nat),
        decreases group_id - step,
    {
        height = lower_height(height);
        fps = if fps > 30 {
            30
        } else if fps > 24 {
            24
        } else if fps > 15 {
            15
        } else if fps > 10 {
            10
        } else {
            5
        };
        bitrate = reduce_bitrate(bitrate);
        step += 1;
    }
    settings.output_height = Some(height);
    settings.output_fps = Some(fps);
    settings.bitrate = bitrate;
    settings
}

/// Whether two numbers differ by no more than `percent` hundredths of the larger one.
pub open spec fn is_close(left: u32, right: u32, percent: nat) -> bool {
    let larger = if left >= right {
        left
    } else {
        right
    };
    let difference = if left >= right {
        left - right
    } else {
        right - left
    };
    !float::less(
        float::ratio(percent, 100),
        float::quotient(
            float::of_nat(float::Precision::Double, difference as nat),
            float::of_nat(
                float::Precision::Double,
                if larger >= 1 {
                    larger as nat
                } else {
                    1
                },
            ),
        ),
    )
}

fn close(left: u32, right: u32, percent: u64) -> (r: bool)
    ensures
        r == is_close(left, right, percent as nat),
{
    let larger: u32 = if left >= right {
        left
    } else {
        right
    };
    let difference: u32 = if left >= right {
        left - right
    } else {
        right - left
    };
    let divisor: u64 = if larger >= 1 {
        larger as u64
    } else {
        1
    };
    let share = float::divide(
        float::integer(float::Precision::Double, difference as u64),
        float::integer(float::Precision::Double, divisor),
    );
    !float::is_less(float::fraction(percent, 100), share)
}

/// Two profiles that viewers can hardly tell apart.
pub open spec fn are_similar(left: CaptureSettingsView, right: CaptureSettingsView) -> bool {
    &&& is_close(
        config::value_or(left.output_height, left.height),
        config::value_or(right.output_height, right.height),
        15,
    )
    &&& is_close(
        config::value_or(left.output_fps, left.fps),
        config::value_or(right.output_fps, right.fps),
        15,
    )
    &&& is_close(left.bitrate, right.bitrate, 20)
}

/// The height that settings ask for.
pub fn profile_height(settings: &CaptureSettings) -> (r: u32)
    ensures
        r == config::value_or(settings.output_height, settings.height),
{
    match settings.output_height {
        Some(height) => height,
        None => settings.height,
    }
}

/// The frame rate that settings ask for.
pub fn profile_fps(settings: &CaptureSettings) -> (r: u32)
    ensures
        r == config::value_or(settings.output_fps, settings.fps),
{
    match settings.output_fps {
        Some(fps) => fps,
        None => settings.fps,
    }
}

pub fn profiles_are_similar(left: &CaptureSettings, right: &CaptureSettings) -> (r: bool)
    ensures
        r == are_similar(left@, right@),
{
    close(profile_height(left), profile_height(right), 15) && close(
        profile_fps(left),
        profile_fps(right),
        15,
    ) && close(left.bitrate, right.bitrate, 20)
}

/// The number of quality groups that a setting asks for: two by default, from one to four.
pub open spec fn group_count(value: Seq<char>) -> usize {
    match text::parse_unsigned(value, usize::MAX as nat) {
        None => 2,
        Some(count) => if count < 1 {
            1
        } else if count > 4 {
            4
        } else {
            count as usize
        },
    }
}

pub fn configured_group_count(value: &str) -> (r: usize)
    ensures
        r == group_count(value@),
        1 <= r <= 4,
{
    match text::parse_number(value, usize::MAX as u64) {
        None => 2,
        Some(count) => if count < 1 {
            1
        } else if count > 4 {
            4
        } else {
            count as usize
        },
    }
}

/// The groups that settings make use of.
pub open spec fn wanted_groups(settings: CaptureSettingsView) -> usize {
    if settings.quality_mode == "adaptive"@ {
        group_count(settings.max_quality_groups)
    } else {
        1
    }
}

pub fn requested_groups(settings: &CaptureSettings) -> (r: usize)
    ensures
        r == wanted_groups(settings@),
        1 <= r <= 4,
{
    if text::text_eq(settings.quality_mode.as_str(), "adaptive") {
        configured_group_count(settings.max_quality_groups.as_str())
    } else {
        1
    }
}

pub open spec fn has_audio(settings: CaptureSettingsView) -> bool {
    settings.audio_mode != "off"@
}

pub fn audio_enabled(settings: &CaptureSettings) -> (r: bool)
    ensures
        r == has_audio(settings@),
{
    !text::text_eq(settings.audio_mode.as_str(), "off")
}

/// Whether the captured source changes. A native handle identifies a source more surely than its
/// place in a list.
pub open spec fn input_changes(previous: CaptureSettingsView, next: CaptureSettingsView) -> bool {
    ||| previous.source_kind != next.source_kind
    ||| match (previous.source_native_id, next.source_native_id) {
        (Some(previous_id), Some(next_id)) => previous_id != next_id,
        (None, None) => previous.source_index != next.source_index,
        _ => true,
    }
    ||| previous.draw_mouse != next.draw_mouse
}

pub fn capture_input_changed(previous: &CaptureSettings, next: &CaptureSettings) -> (r: bool)
    ensures
        r == input_changes(previous@, next@),
{
    let moved = match (previous.source_native_id, next.source_native_id) {
        (Some(previous_id), Some(next_id)) => previous_id != next_id,
        (None, None) => previous.source_index != next.source_index,
        _ => true,
    };
    !text::text_eq(previous.source_kind.as_str(), next.source_kind.as_str()) || moved
        || previous.draw_mouse != next.draw_mouse
}

/// Whether the dimensions or the cadence of the raw frames change. Capture and encoders are then
/// built anew.
pub open spec fn format_changes(previous: CaptureSettingsView, next: CaptureSettingsView) -> bool {
    ||| input_changes(previous, next)
    ||| previous.width != next.width
    ||| previous.height != next.height
    ||| previous.fps != next.fps
    ||| previous.output_height != next.output_height
    ||| previous.output_fps != next.output_fps
}

pub fn capture_format_changed(previous: &CaptureSettings, next: &CaptureSettings) -> (r: bool)
    ensures
        r == format_changes(previous@, next@),
{
    capture_input_changed(previous, next) || previous.width != next.width || previous.height
        != next.height || previous.fps != next.fps || previous.output_height != next.output_height
        || previous.output_fps != next.output_fps
}

/// Whether the video profile that a viewer negotiated can change, even with the same raw frames.
pub open spec fn profile_changes(previous: CaptureSettingsView, next: CaptureSettingsView) -> bool {
    ||| previous.quality_mode != next.quality_mode
    ||| previous.adaptive_quality_ceiling != next.adaptive_quality_ceiling
    ||| previous.adaptive_fps_ceiling != next.adaptive_fps_ceiling
    ||| previous.max_quality_groups != next.max_quality_groups
}

pub fn encoder_profile_changed(previous: &CaptureSettings, next: &CaptureSettings) -> (r: bool)
    ensures
        r == profile_changes(previous@, next@),
{
    !text::text_eq(previous.quality_mode.as_str(), next.quality_mode.as_str()) || !text::text_eq(
        previous.adaptive_quality_ceiling.as_str(),
        next.adaptive_quality_ceiling.as_str(),
    ) || !text::text_eq(
        previous.adaptive_fps_ceiling.as_str(),
        next.adaptive_fps_ceiling.as_str(),
    ) || !text::text_eq(
        previous.max_quality_groups.as_str(),
        next.max_quality_groups.as_str(),
    )
}

pub fn uses_group_adaptation(settings: &CaptureSettings) -> (r: bool)
    ensures
        r == (settings@.quality_mode == "adaptive"@),
{
    text::text_eq(settings.quality_mode.as_str(), "adaptive")
}

pub fn uses_single_group_bitrate_adaptation(settings: &CaptureSettings) -> (r: bool)
    ensures
        r == (settings@.quality_mode != "adaptive"@ && settings@.bitrate_mode == "automatic"@),
{
    !text::text_eq(settings.quality_mode.as_str(), "adaptive") && text::text_eq(
        settings.bitrate_mode.as_str(),
        "automatic",
    )
}

/// Each group's profile is at most as demanding as that of the group above it.
pub proof fn lemma_profiles_descend(base: CaptureSettingsView, group_id: nat)
    requires
        base.bitrate >= 250_000,
        config::value_or(base.output_height, base.height) >= 144,
        config::value_or(base.output_fps, base.fps) >= 5,
    ensures
        ({
            let upper = profile_of_group(base, group_id);
            let lower = profile_of_group(base, group_id + 1);
            &&& lower.bitrate <= upper.bitrate
            &&& lower.output_height->0 <= upper.output_height->0
            &&& lower.output_fps->0 <= upper.output_fps->0
            &&& lower.bitrate >= 250_000
        }),
    decreases group_id,
{
    if group_id > 0 {
        lemma_profiles_descend(base, (group_id - 1) as nat);
    }
    reveal_with_fuel(descended, 2);
    let (h, f, b) = descended(
        config::value_or(base.output_height, base.height),
        config::value_or(base.output_fps, base.fps),
        base.bitrate,
        group_id,
    );
    assert(h >= 144 && f >= 5 && b >= 250_000);
}

/// A step leads to the next standard value: none is left out between.
pub proof fn lemma_steps_leave_nothing_out(value: u32, ceiling: u32, standard: u32)
    ensures
        (standard == 5 || standard == 10 || standard == 15 || standard == 24 || standard == 30
            || standard == 60) && standard < value ==> step_down_fps(value) >= standard,
        (standard == 5 || standard == 10 || standard == 15 || standard == 24 || standard == 30
            || standard == 60 || standard == 75 || standard == 120) && value < standard <= ceiling
            ==> step_up_fps(value, ceiling) <= standard,
        (standard == 144 || standard == 240 || standard == 360 || standard == 480 || standard == 720
            || standard == 1080 || standard == 1440 || standard == 2160) && standard < value
            ==> step_down_height(value) >= standard,
        (standard == 144 || standard == 240 || standard == 360 || standard == 480 || standard == 720
            || standard == 1080 || standard == 1440 || standard == 2160 || standard == 4320)
            && value < standard <= ceiling ==> step_up_height(value, ceiling) <= standard,
        value > 5 ==> step_down_fps(value) < value,
        value > 144 ==> step_down_height(value) < value,
{
}

/// The bitrate of a group is three fifths of that of the group above it, but not below the smallest.
pub proof fn lemma_reduced_bitrate(bitrate: u32)
    requires
        bitrate <= 1_431_655_765,
    ensures
        ({
            let reduced = reduced_bitrate(bitrate);
            &&& reduced >= 250_000
            &&& reduced > 250_000 ==> 3 * bitrate - 5 < 5 * reduced <= 3 * bitrate
            &&& 3 * bitrate < 1_250_000 ==> reduced == 250_000
        }),
{
}

/// The first group has the profile that was asked for; each further one takes one step down in every
/// respect.
pub proof fn lemma_group_profiles(base: CaptureSettingsView, group_id: nat)
    ensures
        profile_of_group(base, 0) == (CaptureSettingsView {
            output_height: Some(config::value_or(base.output_height, base.height)),
            output_fps: Some(config::value_or(base.output_fps, base.fps)),
            ..base
        }),
        ({
            let upper = profile_of_group(base, group_id);
            let lower = profile_of_group(base, group_id + 1);
            &&& lower.bitrate == reduced_bitrate(upper.bitrate)
            &&& lower.output_height == Some(step_down_height(upper.output_height->0))
            &&& upper.output_fps->0 <= 60 ==> lower.output_fps == Some(
                step_down_fps(upper.output_fps->0),
            )
            &&& upper.output_fps->0 > 60 ==> lower.output_fps == Some(30u32)
            &&& lower == (CaptureSettingsView {
                bitrate: lower.bitrate,
                output_height: lower.output_height,
                output_fps: lower.output_fps,
                ..upper
            })
        }),
{
    reveal_with_fuel(descended, 2);
}

/// Two numbers are close where they differ by no more than a share of the larger one.
pub proof fn lemma_close_numbers(left: u32, right: u32, percent: nat)
    requires
        0 < percent <= 100,
    ensures
        is_close(left, right, percent) == ({
            let larger = if left >= right {
                left as int
            } else {
                right as int
            };
            let difference = if left >= right {
                left - right
            } else {
                right - left
            };
            100 * difference <= percent * larger
        }),
        is_close(left, right, percent) == is_close(right, left, percent),
        is_close(left, left, percent),
{
    let larger = if left >= right {
        left
    } else {
        right
    };
    let difference = if left >= right {
        left - right
    } else {
        right - left
    };
    let whole = if larger >= 1 {
        larger as nat
    } else {
        1
    };
    exact::lemma_smaller_share_is_exact(difference as nat, whole, percent);
    exact::lemma_smaller_share_is_exact(
        0,
        if left >= 1 {
            left as nat
        } else {
            1
        },
        percent,
    );
    if larger == 0 {
        assert(percent * 0 == 0) by (nonlinear_arith);
        assert(percent * whole >= 0) by (nonlinear_arith)
            requires
                percent >= 0,
                whole >= 0,
        ;
    }
    assert(percent * (if left >= 1 {
        left as nat
    } else {
        1
    }) >= 0) by (nonlinear_arith)
        requires
            percent >= 0,
            left >= 0,
    ;
}

/// Profiles that viewers can hardly tell apart: their heights and frame rates differ by at most 15
/// hundredths, their bitrates by at most 20.
pub proof fn lemma_similar_profiles(left: CaptureSettingsView, right: CaptureSettingsView)
    ensures
        are_similar(left, left),
        are_similar(left, right) == are_similar(right, left),
        are_similar(left, right) ==> ({
            let (a, b) = (left.bitrate as int, right.bitrate as int);
            100 * (a - b) <= 20 * a && 100 * (b - a) <= 20 * b
        }),
        are_similar(left, right) ==> ({
            let a = config::value_or(left.output_height, left.height) as int;
            let b = config::value_or(right.output_height, right.height) as int;
            100 * (a - b) <= 15 * a && 100 * (b - a) <= 15 * b
        }),
        are_similar(left, right) ==> ({
            let a = config::value_or(left.output_fps, left.fps) as int;
            let b = config::value_or(right.output_fps, right.fps) as int;
            100 * (a - b) <= 15 * a && 100 * (b - a) <= 15 * b
        }),
        left.bitrate == right.bitrate && left.output_height == right.output_height && left.height
            == right.height && left.output_fps == right.output_fps && left.fps == right.fps
            ==> are_similar(left, right),
{
    let (a, b) = (
        config::value_or(left.output_height, left.height),
        config::value_or(right.output_height, right.height),
    );
    let (c, d) = (
        config::value_or(left.output_fps, left.fps),
        config::value_or(right.output_fps, right.fps),
    );
    lemma_close_numbers(a, b, 15);
    lemma_close_numbers(b, a, 15);
    lemma_close_numbers(a, a, 15);
    lemma_close_numbers(c, d, 15);
    lemma_close_numbers(d, c, 15);
    lemma_close_numbers(c, c, 15);
    lemma_close_numbers(left.bitrate, right.bitrate, 20);
    lemma_close_numbers(right.bitrate, left.bitrate, 20);
    lemma_close_numbers(left.bitrate, left.bitrate, 20);
}

/// A source is captured anew when another one, or the pointer, is wanted: a window that keeps its
/// native number is the same wherever it stands in the list. What only concerns the encoder does not
/// touch the capture.
pub proof fn lemma_what_restarts_a_capture(previous: CaptureSettingsView, next: CaptureSettingsView)
    ensures
        !input_changes(previous, previous),
        !format_changes(previous, previous),
        !profile_changes(previous, previous),
        previous.source_kind != next.source_kind ==> input_changes(previous, next),
        previous.draw_mouse != next.draw_mouse ==> input_changes(previous, next),
        previous.source_native_id != next.source_native_id ==> input_changes(previous, next),
        previous.source_native_id is None && previous.source_index != next.source_index
            ==> input_changes(previous, next),
        previous.source_native_id is Some ==> !input_changes(
            previous,
            CaptureSettingsView { source_index: next.source_index, ..previous },
        ),
        !format_changes(
            previous,
            CaptureSettingsView {
                bitrate: next.bitrate,
                audio_mode: next.audio_mode,
                quality_mode: next.quality_mode,
                max_quality_groups: next.max_quality_groups,
                ..previous
            },
        ),
        input_changes(previous, next) ==> format_changes(previous, next),
        previous.output_height != next.output_height || previous.output_fps != next.output_fps
            ==> format_changes(previous, next),
        previous.width != next.width || previous.height != next.height || previous.fps != next.fps
            ==> format_changes(previous, next),
        previous.quality_mode != next.quality_mode || previous.max_quality_groups
            != next.max_quality_groups ==> profile_changes(previous, next),
{
}

/// The number of groups is what the setting names, between one and four; without adaptation there is
/// one.
pub proof fn lemma_group_count(settings: CaptureSettingsView, n: nat)
    requires
        1 <= n <= 4,
    ensures
        settings.quality_mode == "adaptive"@ && settings.max_quality_groups == text::decimal(n)
            ==> wanted_groups(settings) == n,
        settings.quality_mode != "adaptive"@ ==> wanted_groups(settings) == 1,
        1 <= wanted_groups(settings) <= 4,
{
    text::lemma_decimal_round_trip(n, usize::MAX as nat);
}

} // verus!
