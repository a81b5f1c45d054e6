//! What the settings panel shows and changes.

use vstd::prelude::*;

use crate::capture;
use crate::capture::{CaptureSourceInfo, SourceInfoView};
use crate::config;
use crate::config::{AppConfig, AppConfigView};
use crate::list;
use crate::media;
use crate::media::CaptureSettings;
use crate::text;
use crate::ui::host::HostStatus;
use crate::ui::selection;
use crate::ui::selection::find_selected;

verus! {

/// What is known of the source that is captured.
#[derive(Clone, Copy, Debug, PartialEq, Eq, Structural)]
pub struct SourceDetails {
    pub width: u32,
    pub height: u32,
    pub fps: Option<u32>,
}

/// The source that the settings speak of: the pattern as it would be sent, or the selected source
/// as it is.
pub open spec fn details_of(
    test_pattern: bool,
    config: AppConfigView,
    sources: Seq<SourceInfoView>,
) -> Option<SourceDetails> {
    if test_pattern {
        let settings = media::settings_of(config);
        let (width, height) = media::pattern_dimensions(settings);
        Some(
            SourceDetails {
                width,
                height,
                fps: Some(config::value_or(settings.output_fps, settings.fps)),
            },
        )
    } else {
        match selection::selected_at(config.source, sources) {
            Some(i) => Some(
                SourceDetails {
                    width: sources[i].width,
                    height: sources[i].height,
                    fps: sources[i].fps,
                },
            ),
            None => None,
        }
    }
}

pub fn source_details(
    test_pattern: bool,
    config: &AppConfig,
    sources: &Vec<CaptureSourceInfo>,
) -> (r: Option<SourceDetails>)
    ensures
        r == details_of(test_pattern, config@, capture::source_views(sources@)),
{
    if test_pattern {
        let settings = CaptureSettings::from_config(config);
        let (width, height) = settings.test_pattern_dimensions();
        let fps = match settings.output_fps {
            Some(fps) => fps,
            None => settings.fps,
        };
        return Some(SourceDetails { width, height, fps: Some(fps) });
    }
    match find_selected(
        sources,
        config.source.kind.as_str(),
        config.source.index,
        config.source.native_id,
    ) {
        Some(i) => {
            assert(capture::source_views(sources@)[i as int] == sources@[i as int]@);
            Some(
                SourceDetails {
                    width: sources[i].width,
                    height: sources[i].height,
                    fps: sources[i].fps,
                },
            )
        },
        None => None,
    }
}

pub open spec fn is_adaptive(config: AppConfigView) -> bool {
    config.quality_mode == "adaptive"@
}

fn adapts(config: &AppConfig) -> (r: bool)
    ensures
        r == is_adaptive(config@),
{
    text::text_eq(config.quality_mode.as_str(), "adaptive")
}

/// The quality that is shown: where the quality adapts, its ceiling.
pub fn shown_quality(config: &AppConfig) -> (r: String)
    ensures
        r@ == if is_adaptive(config@) {
            config@.adaptive_quality_ceiling
        } else {
            config@.quality
        },
{
    if adapts(config) {
        config.adaptive_quality_ceiling.clone()
    } else {
        config.quality.clone()
    }
}

/// The frame rate that is shown: where the quality adapts, its ceiling.
pub fn shown_fps(config: &AppConfig) -> (r: String)
    ensures
        r@ == if is_adaptive(config@) {
            config@.adaptive_fps_ceiling
        } else {
            config@.fps_preset
        },
{
    if adapts(config) {
        config.adaptive_fps_ceiling.clone()
    } else {
        config.fps_preset.clone()
    }
}

/// Another quality is chosen; the one for the other mode stays.
pub open spec fn with_quality(config: AppConfigView, value: Seq<char>) -> AppConfigView {
    if is_adaptive(config) {
        AppConfigView { adaptive_quality_ceiling: value, ..config }
    } else {
        AppConfigView { quality: value, ..config }
    }
}

pub fn choose_quality(config: &mut AppConfig, value: String)
    ensures
        final(config)@ == with_quality(old(config)@, value@),
{
    if adapts(config) {
        config.adaptive_quality_ceiling = value;
    } else {
        config.quality = value;
    }
}

/// Another frame rate is chosen; the one for the other mode stays.
pub open spec fn with_fps(config: AppConfigView, value: Seq<char>) -> AppConfigView {
    if is_adaptive(config) {
        AppConfigView { adaptive_fps_ceiling: value, ..config }
    } else {
        AppConfigView { fps_preset: value, ..config }
    }
}

pub fn choose_fps(config: &mut AppConfig, value: String)
    ensures
        final(config)@ == with_fps(old(config)@, value@),
{
    if adapts(config) {
        config.adaptive_fps_ceiling = value;
    } else {
        config.fps_preset = value;
    }
}

/// Audio of a mode is turned on or off.
pub fn choose_audio(config: &mut AppConfig, mode: &str, enabled: bool)
    ensures
        final(config)@ == (AppConfigView {
            audio_mode: if enabled {
                mode@
            } else {
                "off"@
            },
            ..old(config)@
        }),
{
    config.audio_mode = if enabled {
        mode.to_owned()
    } else {
        "off".to_owned()
    };
}

/// The settings that a running stream is told, if they have changed since `before`.
pub fn settings_update(status: &HostStatus, config: &AppConfig, before: &CaptureSettings) -> (r:
    Option<CaptureSettings>)
    ensures
        match r {
            Some(settings) => status@ is Running && settings@ == media::settings_of(config@)
                && settings@ != before@,
            None => !(status@ is Running) || media::settings_of(config@) == before@,
        },
{
    if !status.is_running() {
        return None;
    }
    let settings = CaptureSettings::from_config(config);
    if settings.same_as(before) {
        None
    } else {
        Some(settings)
    }
}

/// What is chosen in one mode is shown in it, and what the other mode shows is not touched.
pub proof fn lemma_modes_keep_their_presets(
    config: AppConfigView,
    quality: Seq<char>,
    fps: Seq<char>,
)
    ensures
        ({
            let chosen = with_fps(with_quality(config, quality), fps);
            if config.quality_mode == "adaptive"@ {
                &&& chosen.adaptive_quality_ceiling == quality
                &&& chosen.adaptive_fps_ceiling == fps
                &&& chosen.quality == config.quality
                &&& chosen.fps_preset == config.fps_preset
            } else {
                &&& chosen.quality == quality
                &&& chosen.fps_preset == fps
                &&& chosen.adaptive_quality_ceiling == config.adaptive_quality_ceiling
                &&& chosen.adaptive_fps_ceiling == config.adaptive_fps_ceiling
            }
        }),
{
}

/// What is shown of the test pattern is the picture that viewers are sent; of any other source what
/// was listed of it, and of none that is not listed.
pub proof fn lemma_shown_details(config: AppConfigView, sources: Seq<SourceInfoView>)
    ensures
        ({
            let shown = details_of(true, config, sources);
            let settings = media::settings_of(config);
            &&& shown is Some
            &&& settings.output_height is Some ==> shown->0.height == settings.output_height->0
            &&& settings.output_height is None ==> shown->0.width == config.width
                && shown->0.height == config.height
            &&& settings.output_fps is Some ==> shown->0.fps == settings.output_fps
            &&& settings.output_fps is None ==> shown->0.fps == Some(config.fps)
        }),
        sources.len() == 0 ==> details_of(false, config, sources) is None,
        match selection::selected_at(config.source, sources) {
            Some(i) => details_of(false, config, sources) is Some && details_of(
                false,
                config,
                sources,
            )->0.width == sources[i].width && details_of(false, config, sources)->0.height
                == sources[i].height,
            None => details_of(false, config, sources) is None,
        },
{
    list::lemma_first_in_range(
        0,
        sources.len() as int,
        |i: int| capture::is_source(config.source, sources[i]),
    );
}

} // verus!
