//! What the host remembers between runs.

use vstd::prelude::*;

use crate::config;
use crate::config::{clone_texts, AppConfig, AppConfigView, SourceSpec, SourceSpecView};
use crate::text;

verus! {

/// The result of the last measurement of the host's connection.
#[derive(Clone, Copy, Debug, PartialEq, Eq, Structural)]
pub struct HostNetworkTestResult {
    pub upload_bps: u64,
    pub tested_at_unix_secs: u64,
}

#[derive(Debug)]
pub struct UserPreferences {
    pub bind: String,
    pub http_port: u16,
    pub max_viewers: usize,
    pub source: SourceSpec,
    pub draw_mouse: bool,
    pub codec: String,
    pub quality: String,
    pub fps_preset: String,
    pub bitrate: u32,
    pub quality_mode: String,
    pub bitrate_mode: String,
    pub adaptive_quality_ceiling: String,
    pub adaptive_fps_ceiling: String,
    pub max_quality_groups: String,
    pub latency_preference: String,
    pub audio_mode: String,
    pub excluded_audio_processes: Vec<String>,
    pub host_network_test: Option<HostNetworkTestResult>,
}

#[verifier::ext_equal]
pub struct PreferencesView {
    pub bind: Seq<char>,
    pub http_port: u16,
    pub max_viewers: usize,
    pub source: SourceSpecView,
    pub draw_mouse: bool,
    pub codec: Seq<char>,
    pub quality: Seq<char>,
    pub fps_preset: Seq<char>,
    pub bitrate: u32,
    pub quality_mode: Seq<char>,
    pub bitrate_mode: Seq<char>,
    pub adaptive_quality_ceiling: Seq<char>,
    pub adaptive_fps_ceiling: Seq<char>,
    pub max_quality_groups: Seq<char>,
    pub latency_preference: Seq<char>,
    pub audio_mode: Seq<char>,
    pub excluded_audio_processes: Seq<Seq<char>>,
    pub host_network_test: Option<HostNetworkTestResult>,
}

impl View for UserPreferences {
    type V = PreferencesView;

    open spec fn view(&self) -> PreferencesView {
        PreferencesView {
            bind: self.bind@,
            http_port: self.http_port,
            max_viewers: self.max_viewers,
            source: self.source@,
            draw_mouse: self.draw_mouse,
            codec: self.codec@,
            quality: self.quality@,
            fps_preset: self.fps_preset@,
            bitrate: self.bitrate,
            quality_mode: self.quality_mode@,
            bitrate_mode: self.bitrate_mode@,
            adaptive_quality_ceiling: self.adaptive_quality_ceiling@,
            adaptive_fps_ceiling: self.adaptive_fps_ceiling@,
            max_quality_groups: self.max_quality_groups@,
            latency_preference: self.latency_preference@,
            audio_mode: self.audio_mode@,
            excluded_audio_processes: config::texts(self.excluded_audio_processes@),
            host_network_test: self.host_network_test,
        }
    }
}

/// The number of viewers where older preferences name none.
pub fn default_max_viewers() -> (r: usize)
    ensures
        r == 8,
{
    8
}

/// What is remembered of a configuration. A window's native number is not: it means nothing in the
/// next session.
pub open spec fn remembered(
    config: AppConfigView,
    host_network_test: Option<HostNetworkTestResult>,
) -> PreferencesView {
    PreferencesView {
        bind: config.bind,
        http_port: config.http_port,
        max_viewers: config.max_viewers,
        source: SourceSpecView { native_id: None, ..config.source },
        draw_mouse: config.draw_mouse,
        codec: config.codec,
        quality: config.quality,
        fps_preset: config.fps_preset,
        bitrate: config.bitrate,
        quality_mode: config.quality_mode,
        bitrate_mode: config.bitrate_mode,
        adaptive_quality_ceiling: config.adaptive_quality_ceiling,
        adaptive_fps_ceiling: config.adaptive_fps_ceiling,
        max_quality_groups: config.max_quality_groups,
        latency_preference: config.latency_preference,
        audio_mode: config.audio_mode,
        excluded_audio_processes: config.excluded_audio_processes,
        host_network_test,
    }
}

/// The number of groups, where it is one above four, becomes four.
pub open spec fn limited_groups(value: Seq<char>) -> Seq<char> {
    match text::parse_unsigned(value, usize::MAX as nat) {
        Some(groups) => if groups > 4 {
            "4"@
        } else {
            value
        },
        None => value,
    }
}

/// A configuration with what was remembered.
pub open spec fn restored(config: AppConfigView, preferences: PreferencesView) -> AppConfigView {
    AppConfigView {
        bind: preferences.bind,
        http_port: preferences.http_port,
        max_viewers: if preferences.max_viewers < 1 {
            1
        } else {
            preferences.max_viewers
        },
        source: preferences.source,
        draw_mouse: preferences.draw_mouse,
        codec: preferences.codec,
        quality: preferences.quality,
        fps_preset: preferences.fps_preset,
        bitrate: preferences.bitrate,
        quality_mode: preferences.quality_mode,
        bitrate_mode: preferences.bitrate_mode,
        adaptive_quality_ceiling: preferences.adaptive_quality_ceiling,
        adaptive_fps_ceiling: preferences.adaptive_fps_ceiling,
        max_quality_groups: limited_groups(preferences.max_quality_groups),
        latency_preference: preferences.latency_preference,
        audio_mode: preferences.audio_mode,
        excluded_audio_processes: preferences.excluded_audio_processes,
        ..config
    }
}

impl UserPreferences {
    pub fn from_config(
        config: &AppConfig,
        host_network_test: Option<HostNetworkTestResult>,
    ) -> (r: Self)
        ensures
            r@ == remembered(config@, host_network_test),
    {
        let mut source = config.source.clone();
        source.native_id = None;
        UserPreferences {
            bind: config.bind.clone(),
            http_port: config.http_port,
            max_viewers: config.max_viewers,
            source,
            draw_mouse: config.draw_mouse,
            codec: config.codec.clone(),
            quality: config.quality.clone(),
            fps_preset: config.fps_preset.clone(),
            bitrate: config.bitrate,
            quality_mode: config.quality_mode.clone(),
            bitrate_mode: config.bitrate_mode.clone(),
            adaptive_quality_ceiling: config.adaptive_quality_ceiling.clone(),
            adaptive_fps_ceiling: config.adaptive_fps_ceiling.clone(),
            max_quality_groups: config.max_quality_groups.clone(),
            latency_preference: config.latency_preference.clone(),
            audio_mode: config.audio_mode.clone(),
            excluded_audio_processes: clone_texts(&config.excluded_audio_processes),
            host_network_test,
        }
    }

    pub fn apply_to(&self, config: &mut AppConfig)
        ensures
            final(config)@ == restored(old(config)@, self@),
    {
        config.bind = self.bind.clone();
        config.http_port = self.http_port;
        config.max_viewers = if self.max_viewers < 1 {
            1
        } else {
            self.max_viewers
        };
        config.source = self.source.clone();
        config.draw_mouse = self.draw_mouse;
        config.codec = self.codec.clone();
        config.quality = self.quality.clone();
        config.fps_preset = self.fps_preset.clone();
        config.bitrate = self.bitrate;
        config.quality_mode = self.quality_mode.clone();
        config.bitrate_mode = self.bitrate_mode.clone();
        config.adaptive_quality_ceiling = self.adaptive_quality_ceiling.clone();
        config.adaptive_fps_ceiling = self.adaptive_fps_ceiling.clone();
        let too_many = match text::parse_number(
            self.max_quality_groups.as_str(),
            usize::MAX as u64,
        ) {
            Some(groups) => groups > 4,
            None => false,
        };
        config.max_quality_groups = if too_many {
            "4".to_owned()
        } else {
            self.max_quality_groups.clone()
        };
        config.latency_preference = self.latency_preference.clone();
        config.audio_mode = self.audio_mode.clone();
        config.excluded_audio_processes = clone_texts(&self.excluded_audio_processes);
    }
}

/// What is remembered comes back, but for a window's native number; the token, the ports for media
/// and the host's name are never remembered.
pub proof fn lemma_preferences_round_trip(
    config: AppConfigView,
    other: AppConfigView,
    result: Option<HostNetworkTestResult>,
)
    requires
        config.max_viewers >= 1,
        limited_groups(config.max_quality_groups) == config.max_quality_groups,
    ensures
        restored(other, remembered(config, result)) == (AppConfigView {
            media_ports: other.media_ports,
            advertise_host: other.advertise_host,
            token: other.token,
            width: other.width,
            height: other.height,
            fps: other.fps,
            json: other.json,
            source: SourceSpecView { native_id: None, ..config.source },
            ..config
        }),
        remembered(restored(other, remembered(config, result)), result) == remembered(
            config,
            result,
        ),
{
}

/// No more than four groups are restored; a smaller number, and what is none, comes back as it was
/// written.
pub proof fn lemma_restored_groups(groups: nat)
    requires
        groups <= usize::MAX,
    ensures
        limited_groups(text::decimal(groups)) == text::decimal(
            if groups <= 4 {
                groups
            } else {
                4
            },
        ),
        limited_groups("auto"@) == "auto"@,
{
    text::lemma_decimal_round_trip(groups, usize::MAX as nat);
    reveal_strlit("4");
    assert(text::decimal(4) =~= "4"@);
    reveal_strlit("auto");
    assert("auto"@.len() == 4 && !text::is_digit("auto"@[0]));
}

} // verus!
