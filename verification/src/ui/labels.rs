//! The texts of the controls.

use vstd::prelude::*;
use vstd::string::*;

use crate::capture::SourceKind;
use crate::config;
use crate::config::{fps_presets, fps_value, quality_height, quality_presets};
use crate::float;
use crate::float::Precision;
use crate::text;

verus! {

pub open spec fn quality_text(value: Seq<char>) -> Seq<char> {
    if value == "source"@ {
        "Source"@
    } else if value == "720p"@ || value == "1080p"@ || value == "1440p"@ {
        value + " HD"@
    } else if value == "2160p"@ {
        "2160p 4K"@
    } else if value == "4320p"@ {
        "4320p 8K"@
    } else {
        value
    }
}

pub fn quality_label(value: &str) -> (r: String)
    ensures
        r@ == quality_text(value@),
{
    if text::text_eq(value, "source") {
        "Source".to_owned()
    } else if text::text_eq(value, "720p") || text::text_eq(value, "1080p") || text::text_eq(
        value,
        "1440p",
    ) {
        text::joined(value, " HD")
    } else if text::text_eq(value, "2160p") {
        "2160p 4K".to_owned()
    } else if text::text_eq(value, "4320p") {
        "4320p 8K".to_owned()
    } else {
        value.to_owned()
    }
}

/// The source's own quality is shown with its size, where that is known.
pub open spec fn selected_quality_text(value: Seq<char>, source: Option<(u32, u32)>) -> Seq<char> {
    match source {
        Some((width, height)) if value == "source"@ => "Source · "@ + text::decimal(width as nat)
            + " × "@ + text::decimal(height as nat),
        _ => quality_text(value),
    }
}

pub fn selected_quality_label(value: &str, source: Option<(u32, u32)>) -> (r: String)
    ensures
        r@ == selected_quality_text(value@, source),
{
    if text::text_eq(value, "source") {
        if let Some((width, height)) = source {
            let mut s = text::around_number("Source · ", width as u64, " × ");
            text::push_decimal(&mut s, height as u64);
            return s;
        }
    }
    quality_label(value)
}

pub fn quality_option_label(value: &str, source: Option<(u32, u32)>) -> (r: String)
    ensures
        r@ == selected_quality_text(value@, source),
{
    selected_quality_label(value, source)
}

pub open spec fn fps_text(value: Seq<char>) -> Seq<char> {
    if value == "source"@ {
        "Source"@
    } else {
        value + " FPS"@
    }
}

pub fn fps_label(value: &str) -> (r: String)
    ensures
        r@ == fps_text(value@),
{
    if text::text_eq(value, "source") {
        "Source".to_owned()
    } else {
        text::joined(value, " FPS")
    }
}

pub open spec fn selected_fps_text(value: Seq<char>, source_fps: Option<u32>) -> Seq<char> {
    if value == "source"@ && source_fps is Some {
        "Source · "@ + text::decimal(source_fps->0 as nat) + " FPS"@
    } else {
        fps_text(value)
    }
}

pub fn selected_fps_label(value: &str, source_fps: Option<u32>) -> (r: String)
    ensures
        r@ == selected_fps_text(value@, source_fps),
{
    if text::text_eq(value, "source") {
        if let Some(fps) = source_fps {
            return text::around_number("Source · ", fps as u64, " FPS");
        }
    }
    fps_label(value)
}

pub fn fps_option_label(value: &str, source_fps: Option<u32>) -> (r: String)
    ensures
        r@ == selected_fps_text(value@, source_fps),
{
    selected_fps_label(value, source_fps)
}

pub fn quality_mode_label(value: &str) -> (r: &'static str)
    ensures
        r@ == if value@ == "adaptive"@ {
            "Auto"@
        } else {
            "Manual"@
        },
{
    if text::text_eq(value, "adaptive") {
        "Auto"
    } else {
        "Manual"
    }
}

pub fn bitrate_mode_label(value: &str) -> (r: &'static str)
    ensures
        r@ == if value@ == "automatic"@ {
            "Auto"@
        } else {
            "Manual"@
        },
{
    if text::text_eq(value, "automatic") {
        "Auto"
    } else {
        "Manual"
    }
}

pub open spec fn codec_text(value: Seq<char>) -> Seq<char> {
    let name = text::ascii_lower(value);
    if name == "vp8"@ {
        "VP8"@
    } else if name == "vp9"@ {
        "VP9"@
    } else if name == "h264"@ {
        "H.264"@
    } else {
        "Auto"@
    }
}

pub fn codec_label(value: &str) -> (r: &'static str)
    ensures
        r@ == codec_text(value@),
{
    let name = text::to_ascii_lowercase(value);
    if text::text_eq(name.as_str(), "vp8") {
        "VP8"
    } else if text::text_eq(name.as_str(), "vp9") {
        "VP9"
    } else if text::text_eq(name.as_str(), "h264") {
        "H.264"
    } else {
        "Auto"
    }
}

pub fn latency_preference_label(value: &str) -> (r: &'static str)
    ensures
        r@ == if value@ == "low"@ {
            "Low"@
        } else if value@ == "quality"@ {
            "Quality"@
        } else {
            "Balanced"@
        },
{
    if text::text_eq(value, "low") {
        "Low"
    } else if text::text_eq(value, "quality") {
        "Quality"
    } else {
        "Balanced"
    }
}

/// A bitrate in megabits with one decimal, or in whole kilobits where it is below one megabit.
pub open spec fn bitrate_text(bits_per_second: u64) -> Seq<char> {
    if bits_per_second >= 1_000_000 {
        let tenths = float::tenths_of(
            float::quotient(
                float::of_nat(Precision::Double, bits_per_second as nat),
                float::of_nat(Precision::Double, 1_000_000),
            ),
        );
        let shown = if tenths > u64::MAX {
            u64::MAX as nat
        } else {
            tenths
        };
        text::decimal(shown / 10) + "."@ + text::decimal(shown % 10) + " Mbps"@
    } else {
        text::decimal((bits_per_second / 1000) as nat) + " Kbps"@
    }
}

pub fn bitrate_label(bits_per_second: u64) -> (r: String)
    ensures
        r@ == bitrate_text(bits_per_second),
{
    if bits_per_second >= 1_000_000 {
        let tenths = float::tenths(
            float::divide(
                float::integer(Precision::Double, bits_per_second),
                float::integer(Precision::Double, 1_000_000),
            ),
            u64::MAX,
        );
        let mut s = text::decimal_string(tenths / 10);
        s.append(".");
        text::push_decimal(&mut s, tenths % 10);
        s.append(" Mbps");
        s
    } else {
        let mut s = text::decimal_string(bits_per_second / 1000);
        s.append(" Kbps");
        s
    }
}

/// The size and the rate of a source.
pub fn source_size_label(width: u32, height: u32, fps: Option<u32>) -> (r: String)
    ensures
        r@ == text::decimal(width as nat) + " × "@ + text::decimal(height as nat) + match fps {
            Some(fps) => " · "@ + text::decimal(fps as nat) + " FPS"@,
            None => Seq::empty(),
        },
{
    let mut s = text::decimal_string(width as u64);
    s.append(" × ");
    text::push_decimal(&mut s, height as u64);
    match fps {
        Some(fps) => {
            let ghost before = s@;
            s.append(" · ");
            text::push_decimal(&mut s, fps as u64);
            s.append(" FPS");
            assert(s@ =~= before + (" · "@ + text::decimal(fps as nat) + " FPS"@));
        },
        None => {
            assert(s@ + Seq::empty() =~= s@);
        },
    }
    s
}

/// Whether a preset is offered: a test pattern has no quality of its own, and nothing is offered
/// that exceeds the source.
pub open spec fn is_offered(preset: Seq<char>, value: Option<u32>, test_pattern: bool, limit: Option<u32>) -> bool {
    &&& !(test_pattern && preset == "source"@)
    &&& !(limit is Some && value is Some && value->0 > limit->0)
}

/// The qualities that are offered, in their order.
pub open spec fn offered_qualities(presets: Seq<Seq<char>>, test_pattern: bool, limit: Option<u32>) -> Seq<Seq<char>> {
    crate::list::kept(
        presets,
        |p: Seq<char>| is_offered(p, config::preset_height(p), test_pattern, limit),
    )
}

pub open spec fn offered_rates(presets: Seq<Seq<char>>, test_pattern: bool, limit: Option<u32>) -> Seq<Seq<char>> {
    crate::list::kept(
        presets,
        |p: Seq<char>| is_offered(p, config::preset_fps(p), test_pattern, limit),
    )
}

fn offered(preset: &str, value: Option<u32>, test_pattern: bool, limit: Option<u32>) -> (r: bool)
    ensures
        r == is_offered(preset@, value, test_pattern, limit),
{
    if test_pattern && text::text_eq(preset, "source") {
        return false;
    }
    match (limit, value) {
        (Some(limit), Some(value)) => value <= limit,
        _ => true,
    }
}

pub fn quality_options(test_pattern: bool, limit: Option<u32>) -> (r: Vec<&'static str>)
    ensures
        text::views_of(r@) == offered_qualities(config::quality_list(), test_pattern, limit),
{
    let presets = quality_presets();
    let ghost all = config::quality_list();
    let mut options: Vec<&'static str> = Vec::new();
    let mut i: usize = 0;
    assert(text::views_of(options@) =~= offered_qualities(all.take(0), test_pattern, limit));
    while i < presets.len()
        invariant
            i <= presets@.len(),
            text::views_of(presets@) == all,
            text::views_of(options@) == offered_qualities(all.take(i as int), test_pattern, limit),
        decreases presets@.len() - i,
    {
        let preset = presets[i];
        assert(all[i as int] == preset@);
        assert(all.take(i + 1).drop_last() =~= all.take(i as int));
        let ghost before = options@;
        if offered(preset, quality_height(preset), test_pattern, limit) {
            options.push(preset);
            assert(text::views_of(options@) =~= text::views_of(before).push(preset@));
        }
        i += 1;
    }
    assert(all.take(i as int) =~= all);
    options
}

pub fn fps_options(test_pattern: bool, limit: Option<u32>) -> (r: Vec<&'static str>)
    ensures
        text::views_of(r@) == offered_rates(config::fps_list(), test_pattern, limit),
{
    let presets = fps_presets();
    let ghost all = config::fps_list();
    let mut options: Vec<&'static str> = Vec::new();
    let mut i: usize = 0;
    assert(text::views_of(options@) =~= offered_rates(all.take(0), test_pattern, limit));
    while i < presets.len()
        invariant
            i <= presets@.len(),
            text::views_of(presets@) == all,
            text::views_of(options@) == offered_rates(all.take(i as int), test_pattern, limit),
        decreases presets@.len() - i,
    {
        let preset = presets[i];
        assert(all[i as int] == preset@);
        assert(all.take(i + 1).drop_last() =~= all.take(i as int));
        let ghost before = options@;
        if offered(preset, fps_value(preset), test_pattern, limit) {
            options.push(preset);
            assert(text::views_of(options@) =~= text::views_of(before).push(preset@));
        }
        i += 1;
    }
    assert(all.take(i as int) =~= all);
    options
}

/// What is shown in place of the sources of a kind when there are none: whether the search failed, is
/// under way or has found nothing.
pub fn empty_list_hint(failed: bool, searching: bool, kind: SourceKind) -> (r: &'static str)
    ensures
        r@ == if failed {
            "Source scan failed. Retrying automatically…"@
        } else if searching {
            "Looking for capture sources…"@
        } else {
            match kind {
                SourceKind::Monitor => "No displays were found."@,
                SourceKind::Window => "No capturable windows were found."@,
            }
        },
{
    if failed {
        "Source scan failed. Retrying automatically…"
    } else if searching {
        "Looking for capture sources…"
    } else {
        match kind {
            SourceKind::Monitor => "No displays were found.",
            SourceKind::Window => "No capturable windows were found.",
        }
    }
}

/// Presets beyond what the source delivers are not offered, and all others are, in their order; the
/// test pattern has no source to follow.
pub proof fn lemma_offered_presets(
    presets: Seq<Seq<char>>,
    test_pattern: bool,
    limit: Option<u32>,
    preset: Seq<char>,
)
    ensures
        offered_qualities(presets, test_pattern, limit).contains(preset) <==> presets.contains(
            preset,
        ) && !(test_pattern && preset == "source"@) && !(limit is Some && config::preset_height(
            preset,
        ) is Some && config::preset_height(preset)->0 > limit->0),
        offered_rates(presets, test_pattern, limit).contains(preset) <==> presets.contains(preset)
            && !(test_pattern && preset == "source"@) && !(limit is Some && config::preset_fps(
            preset,
        ) is Some && config::preset_fps(preset)->0 > limit->0),
{
    crate::list::lemma_kept_contains(
        presets,
        |p: Seq<char>| is_offered(p, config::preset_height(p), test_pattern, limit),
        preset,
    );
    crate::list::lemma_kept_contains(
        presets,
        |p: Seq<char>| is_offered(p, config::preset_fps(p), test_pattern, limit),
        preset,
    );
}

/// A codec is shown under its own name, however it is written; what is none is shown as automatic.
pub proof fn lemma_codecs_are_shown_by_name(value: Seq<char>)
    ensures
        match crate::media::codec_of(value) {
            Some(codec) => codec_text(value) == codec.display_name(),
            None => codec_text(value) == "Auto"@,
        },
{
}

/// A preset is shown as it is written, with at most a remark behind it.
pub proof fn lemma_presets_are_shown_as_written(value: Seq<char>)
    requires
        value != "source"@,
    ensures
        value.is_prefix_of(quality_text(value)),
        value.is_prefix_of(fps_text(value)),
        fps_text(value).len() == value.len() + 4,
        fps_text(value).skip(value.len() as int) == " FPS"@,
        selected_quality_text(value, None) == quality_text(value),
        forall|source: Option<(u32, u32)>| #[trigger]
            selected_quality_text(value, source) == quality_text(value),
        forall|fps: Option<u32>| #[trigger] selected_fps_text(value, fps) == fps_text(value),
{
    reveal_strlit("2160p");
    reveal_strlit("2160p 4K");
    reveal_strlit("4320p");
    reveal_strlit("4320p 8K");
    reveal_strlit(" FPS");
    assert(" FPS"@.len() == 4);
    let shown = quality_text(value);
    assert(value =~= shown.take(value.len() as int));
    assert(fps_text(value) == value + " FPS"@);
    assert(value =~= fps_text(value).take(value.len() as int));
    assert(fps_text(value).skip(value.len() as int) =~= " FPS"@);
}

/// Below a megabit a bitrate is shown in whole kilobits, and what is cut off is less than one.
pub proof fn lemma_small_bitrates(bits_per_second: u64)
    requires
        bits_per_second < 1_000_000,
    ensures
        exists|kilobits: nat|
            #![trigger text::decimal(kilobits)]
            bitrate_text(bits_per_second) == text::decimal(kilobits) + " Kbps"@ && kilobits * 1000
                <= bits_per_second < (kilobits + 1) * 1000,
{
    let kilobits = (bits_per_second / 1000) as nat;
    assert(bitrate_text(bits_per_second) == text::decimal(kilobits) + " Kbps"@);
}

} // verus!
