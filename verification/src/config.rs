//! Configuration of the host: defaults, command-line arguments, validation and derived values.

use rand::distr::Alphanumeric;
use rand::Rng;
use vstd::prelude::*;
use vstd::string::*;

use crate::cli::StartArgs;
use crate::exact;
use crate::float;
use crate::network;
use crate::text;

verus! {

pub const TOKEN_LENGTH: usize = 12;

/// The largest number of quality groups that an encoder budget may name.
pub const MAX_QUALITY_GROUPS: usize = 12;

/// The ports of the media socket. Only the first one is bound.
#[derive(Clone, Copy, Debug, PartialEq, Eq, Structural)]
pub struct PortRange {
    pub first: u16,
    pub last: u16,
}

/// What is captured: a kind of source and its position or native handle.
#[derive(Debug)]
pub struct SourceSpec {
    pub kind: String,
    pub index: usize,
    pub native_id: Option<u64>,
}

pub struct SourceSpecView {
    pub kind: Seq<char>,
    pub index: usize,
    pub native_id: Option<u64>,
}

impl View for SourceSpec {
    type V = SourceSpecView;

    open spec fn view(&self) -> SourceSpecView {
        SourceSpecView { kind: self.kind@, index: self.index, native_id: self.native_id }
    }
}

impl Clone for SourceSpec {
    fn clone(&self) -> (r: Self)
        ensures
            r@ == self@,
    {
        SourceSpec { kind: self.kind.clone(), index: self.index, native_id: self.native_id }
    }
}

/// The texts of a vector of strings.
pub open spec fn texts(v: Seq<String>) -> Seq<Seq<char>> {
    v.map_values(|s: String| s@)
}

pub fn clone_texts(v: &Vec<String>) -> (r: Vec<String>)
    ensures
        texts(r@) == texts(v@),
        r@.len() == v@.len(),
{
    let mut r: Vec<String> = Vec::new();
    let mut i: usize = 0;
    while i < v.len()
        invariant
            i <= v@.len(),
            r@.len() == i,
            forall|j: int| 0 <= j < i ==> r@[j]@ == v@[j]@,
        decreases v@.len() - i,
    {
        r.push(v[i].clone());
        i += 1;
    }
    assert(texts(r@) =~= texts(v@));
    r
}

pub open spec fn optional_text(s: Option<String>) -> Option<Seq<char>> {
    match s {
        Some(text) => Some(text@),
        None => None,
    }
}

pub fn clone_optional(s: &Option<String>) -> (r: Option<String>)
    ensures
        optional_text(r) == optional_text(*s),
{
    match s {
        Some(text) => Some(text.clone()),
        None => None,
    }
}

/// The complete configuration of a host.
#[derive(Debug)]
pub struct AppConfig {
    pub bind: String,
    pub http_port: u16,
    pub media_ports: PortRange,
    pub advertise_host: Option<String>,
    pub token: String,
    pub max_viewers: usize,
    pub source: SourceSpec,
    pub draw_mouse: bool,
    pub codec: String,
    pub quality: String,
    pub fps_preset: String,
    pub width: u32,
    pub height: u32,
    pub fps: u32,
    pub bitrate: u32,
    pub quality_mode: String,
    pub bitrate_mode: String,
    pub adaptive_quality_ceiling: String,
    pub adaptive_fps_ceiling: String,
    pub max_quality_groups: String,
    pub latency_preference: String,
    pub audio_mode: String,
    pub excluded_audio_processes: Vec<String>,
    pub json: bool,
}

pub struct AppConfigView {
    pub bind: Seq<char>,
    pub http_port: u16,
    pub media_ports: PortRange,
    pub advertise_host: Option<Seq<char>>,
    pub token: Seq<char>,
    pub max_viewers: usize,
    pub source: SourceSpecView,
    pub draw_mouse: bool,
    pub codec: Seq<char>,
    pub quality: Seq<char>,
    pub fps_preset: Seq<char>,
    pub width: u32,
    pub height: u32,
    pub fps: u32,
    pub bitrate: u32,
    pub quality_mode: Seq<char>,
    pub bitrate_mode: Seq<char>,
    pub adaptive_quality_ceiling: Seq<char>,
    pub adaptive_fps_ceiling: Seq<char>,
    pub max_quality_groups: Seq<char>,
    pub latency_preference: Seq<char>,
    pub audio_mode: Seq<char>,
    pub excluded_audio_processes: Seq<Seq<char>>,
    pub json: bool,
}

impl View for AppConfig {
    type V = AppConfigView;

    open spec fn view(&self) -> AppConfigView {
        AppConfigView {
            bind: self.bind@,
            http_port: self.http_port,
            media_ports: self.media_ports,
            advertise_host: optional_text(self.advertise_host),
            token: self.token@,
            max_viewers: self.max_viewers,
            source: self.source@,
            draw_mouse: self.draw_mouse,
            codec: self.codec@,
            quality: self.quality@,
            fps_preset: self.fps_preset@,
            width: self.width,
            height: self.height,
            fps: self.fps,
            bitrate: self.bitrate,
            quality_mode: self.quality_mode@,
            bitrate_mode: self.bitrate_mode@,
            adaptive_quality_ceiling: self.adaptive_quality_ceiling@,
            adaptive_fps_ceiling: self.adaptive_fps_ceiling@,
            max_quality_groups: self.max_quality_groups@,
            latency_preference: self.latency_preference@,
            audio_mode: self.audio_mode@,
            excluded_audio_processes: texts(self.excluded_audio_processes@),
            json: self.json,
        }
    }
}

impl Clone for AppConfig {
    fn clone(&self) -> (r: Self)
        ensures
            r@ == self@,
    {
        AppConfig {
            bind: self.bind.clone(),
            http_port: self.http_port,
            media_ports: self.media_ports,
            advertise_host: clone_optional(&self.advertise_host),
            token: self.token.clone(),
            max_viewers: self.max_viewers,
            source: self.source.clone(),
            draw_mouse: self.draw_mouse,
            codec: self.codec.clone(),
            quality: self.quality.clone(),
            fps_preset: self.fps_preset.clone(),
            width: self.width,
            height: self.height,
            fps: self.fps,
            bitrate: self.bitrate,
            quality_mode: self.quality_mode.clone(),
            bitrate_mode: self.bitrate_mode.clone(),
            adaptive_quality_ceiling: self.adaptive_quality_ceiling.clone(),
            adaptive_fps_ceiling: self.adaptive_fps_ceiling.clone(),
            max_quality_groups: self.max_quality_groups.clone(),
            latency_preference: self.latency_preference.clone(),
            audio_mode: self.audio_mode.clone(),
            excluded_audio_processes: clone_texts(&self.excluded_audio_processes),
            json: self.json,
        }
    }
}

/// The command-line arguments that describe a configuration.
#[derive(Debug)]
pub struct ConfigArgs {
    pub port: Option<u16>,
    pub bind: String,
    pub http_port: u16,
    pub media_ports: String,
    pub advertise_host: Option<String>,
    pub token: Option<String>,
    pub max_viewers: usize,
    pub source: String,
    pub source_native_id: Option<u64>,
    pub draw_mouse: bool,
    pub codec: String,
    pub quality: Option<String>,
    pub fps_preset: Option<String>,
    pub width: Option<u32>,
    pub height: Option<u32>,
    pub fps: Option<u32>,
    pub bitrate: u32,
    pub quality_mode: String,
    pub bitrate_mode: String,
    pub adaptive_quality_ceiling: String,
    pub adaptive_fps_ceiling: String,
    pub max_quality_groups: String,
    pub latency_preference: String,
    pub audio: Option<String>,
    pub exclude_audio_process: Vec<String>,
}

/// Why a configuration is refused.
#[derive(Clone, Copy, Debug, PartialEq, Eq, Structural)]
pub enum ConfigErrorKind {
    HttpPort,
    AdvertisedHost,
    MediaPortRange,
    MaxViewers,
    Dimensions,
    CaptureFps,
    Codec,
    Quality,
    FpsPreset,
    QualityMode,
    BitrateMode,
    QualityCeiling,
    FpsCeiling,
    QualityGroups,
    LatencyPreference,
    AudioMode,
    WindowAudio,
    TestPatternAudio,
    Token,
    FirstMediaPort,
    LastMediaPort,
    MediaPortShape,
    SourceShape,
    SourceIndex,
    SourceKind,
    NativeId,
    SharedPort,
}

/// A refusal and the value that caused it, where the message names one.
#[derive(Debug)]
pub struct ConfigError {
    pub kind: ConfigErrorKind,
    pub value: String,
}

/// The kind of a refusal and the value it names.
pub type Refusal = (ConfigErrorKind, Seq<char>);

pub open spec fn refuse(kind: ConfigErrorKind) -> Option<Refusal> {
    Some((kind, Seq::<char>::empty()))
}

impl ConfigError {
    pub open spec fn refusal(&self) -> Refusal {
        (self.kind, self.value@)
    }

    fn plain(kind: ConfigErrorKind) -> (r: Self)
        ensures
            Some(r.refusal()) == refuse(kind),
    {
        ConfigError { kind, value: String::new() }
    }

    fn naming(kind: ConfigErrorKind, value: &str) -> (r: Self)
        ensures
            r.refusal() == (kind, value@),
    {
        ConfigError { kind, value: value.to_owned() }
    }

    /// The words before and after the value in a message.
    pub open spec fn wording(kind: ConfigErrorKind) -> (Seq<char>, Seq<char>) {
        match kind {
            ConfigErrorKind::HttpPort => ("HTTP port must be between 1 and 65535"@, ""@),
            ConfigErrorKind::AdvertisedHost => (
                "advertised host must be a hostname or IP address"@,
                ""@,
            ),
            ConfigErrorKind::MediaPortRange => ("media port range is invalid"@, ""@),
            ConfigErrorKind::MaxViewers => ("max viewers must be greater than zero"@, ""@),
            ConfigErrorKind::Dimensions => (
                "width, height, fps, and bitrate must be greater than zero"@,
                ""@,
            ),
            ConfigErrorKind::CaptureFps => ("capture FPS must not exceed 240"@, ""@),
            ConfigErrorKind::Codec => (
                "unsupported initial codec '"@,
                "', choose auto, vp8, vp9, or h264"@,
            ),
            ConfigErrorKind::Quality => (
                "unsupported quality preset '"@,
                "', choose source or a standard resolution"@,
            ),
            ConfigErrorKind::FpsPreset => (
                "unsupported FPS preset '"@,
                "', choose source or a standard frame rate"@,
            ),
            ConfigErrorKind::QualityMode => (
                "unsupported quality mode '"@,
                "', choose manual or adaptive"@,
            ),
            ConfigErrorKind::BitrateMode => (
                "unsupported bitrate mode '"@,
                "', choose fixed or automatic"@,
            ),
            ConfigErrorKind::QualityCeiling => (
                "unsupported adaptive quality ceiling '"@,
                "', choose a standard preset or source"@,
            ),
            ConfigErrorKind::FpsCeiling => (
                "unsupported adaptive FPS ceiling '"@,
                "', choose a standard FPS or source"@,
            ),
            ConfigErrorKind::QualityGroups => (
                "the current adaptive implementation supports one to four quality groups"@,
                ""@,
            ),
            ConfigErrorKind::LatencyPreference => (
                "unsupported latency preference '"@,
                "', choose low, balanced, or quality"@,
            ),
            ConfigErrorKind::AudioMode => (
                "unsupported audio mode '"@,
                "', choose off, system, or window"@,
            ),
            ConfigErrorKind::WindowAudio => (
                "window audio requires a selected application window"@,
                ""@,
            ),
            ConfigErrorKind::TestPatternAudio => (
                "system audio is unavailable for the test pattern"@,
                ""@,
            ),
            ConfigErrorKind::Token => (
                "token must contain exactly 12 ASCII letters or digits"@,
                ""@,
            ),
            ConfigErrorKind::FirstMediaPort => ("invalid first media port"@, ""@),
            ConfigErrorKind::LastMediaPort => ("invalid last media port"@, ""@),
            ConfigErrorKind::MediaPortShape => (
                "media port range must look like 40000-40010"@,
                ""@,
            ),
            ConfigErrorKind::SourceShape => ("source must look like monitor:0"@, ""@),
            ConfigErrorKind::SourceIndex => ("source index must be a number"@, ""@),
            ConfigErrorKind::SourceKind => (
                "unsupported source kind '"@,
                "', use monitor, window, or test"@,
            ),
            ConfigErrorKind::NativeId => (
                "--source-native-id can only be used with a window source"@,
                ""@,
            ),
            ConfigErrorKind::SharedPort => ("--port must be between 1 and 65535"@, ""@),
        }
    }

    fn words(kind: ConfigErrorKind) -> (r: (&'static str, &'static str))
        ensures
            (r.0@, r.1@) == Self::wording(kind),
    {
        match kind {
            ConfigErrorKind::HttpPort => ("HTTP port must be between 1 and 65535", ""),
            ConfigErrorKind::AdvertisedHost => (
                "advertised host must be a hostname or IP address",
                "",
            ),
            ConfigErrorKind::MediaPortRange => ("media port range is invalid", ""),
            ConfigErrorKind::MaxViewers => ("max viewers must be greater than zero", ""),
            ConfigErrorKind::Dimensions => (
                "width, height, fps, and bitrate must be greater than zero",
                "",
            ),
            ConfigErrorKind::CaptureFps => ("capture FPS must not exceed 240", ""),
            ConfigErrorKind::Codec => (
                "unsupported initial codec '",
                "', choose auto, vp8, vp9, or h264",
            ),
            ConfigErrorKind::Quality => (
                "unsupported quality preset '",
                "', choose source or a standard resolution",
            ),
            ConfigErrorKind::FpsPreset => (
                "unsupported FPS preset '",
                "', choose source or a standard frame rate",
            ),
            ConfigErrorKind::QualityMode => (
                "unsupported quality mode '",
                "', choose manual or adaptive",
            ),
            ConfigErrorKind::BitrateMode => (
                "unsupported bitrate mode '",
                "', choose fixed or automatic",
            ),
            ConfigErrorKind::QualityCeiling => (
                "unsupported adaptive quality ceiling '",
                "', choose a standard preset or source",
            ),
            ConfigErrorKind::FpsCeiling => (
                "unsupported adaptive FPS ceiling '",
                "', choose a standard FPS or source",
            ),
            ConfigErrorKind::QualityGroups => (
                "the current adaptive implementation supports one to four quality groups",
                "",
            ),
            ConfigErrorKind::LatencyPreference => (
                "unsupported latency preference '",
                "', choose low, balanced, or quality",
            ),
            ConfigErrorKind::AudioMode => (
                "unsupported audio mode '",
                "', choose off, system, or window",
            ),
            ConfigErrorKind::WindowAudio => (
                "window audio requires a selected application window",
                "",
            ),
            ConfigErrorKind::TestPatternAudio => (
                "system audio is unavailable for the test pattern",
                "",
            ),
            ConfigErrorKind::Token => (
                "token must contain exactly 12 ASCII letters or digits",
                "",
            ),
            ConfigErrorKind::FirstMediaPort => ("invalid first media port", ""),
            ConfigErrorKind::LastMediaPort => ("invalid last media port", ""),
            ConfigErrorKind::MediaPortShape => (
                "media port range must look like 40000-40010",
                "",
            ),
            ConfigErrorKind::SourceShape => ("source must look like monitor:0", ""),
            ConfigErrorKind::SourceIndex => ("source index must be a number", ""),
            ConfigErrorKind::SourceKind => (
                "unsupported source kind '",
                "', use monitor, window, or test",
            ),
            ConfigErrorKind::NativeId => (
                "--source-native-id can only be used with a window source",
                "",
            ),
            ConfigErrorKind::SharedPort => ("--port must be between 1 and 65535", ""),
        }
    }

    /// The message of a refusal.
    pub open spec fn refusal_text(refusal: Refusal) -> Seq<char> {
        Self::wording(refusal.0).0 + refusal.1 + Self::wording(refusal.0).1
    }

    /// The message for the person who wrote the configuration.
    pub fn message(&self) -> (r: String)
        ensures
            r@ == Self::refusal_text(self.refusal()),
    {
        let words = Self::words(self.kind);
        let mut message = words.0.to_owned();
        message.append(self.value.as_str());
        message.append(words.1);
        message
    }
}

pub open spec fn is_alphanumeric(c: char) -> bool {
    'a' <= c <= 'z' || 'A' <= c <= 'Z' || '0' <= c <= '9'
}

/// A sharing token: twelve ASCII letters or digits.
pub open spec fn is_token(s: Seq<char>) -> bool {
    s.len() == TOKEN_LENGTH && forall|i: int| 0 <= i < s.len() ==> is_alphanumeric(#[trigger] s[i])
}

/// Calls `rand::Rng::sample_iter` of the thread's generator with `rand::distr::Alphanumeric` and
/// takes `count` samples. The distribution yields ASCII letters and digits only; which ones is
/// left open.
#[verifier::external_body]
fn random_alphanumeric(count: usize) -> (r: String)
    ensures
        r@.len() == count,
        forall|i: int| 0 <= i < r@.len() ==> is_alphanumeric(#[trigger] r@[i]),
{
    rand::rng().sample_iter(Alphanumeric).take(count).map(char::from).collect()
}

/// A fresh sharing token.
pub fn generate_token() -> (r: String)
    ensures
        is_token(r@),
{
    random_alphanumeric(TOKEN_LENGTH)
}

pub fn validate_token(token: &str) -> (r: Result<(), ConfigError>)
    ensures
        match r {
            Ok(()) => is_token(token@),
            Err(e) => !is_token(token@) && Some(e.refusal()) == refuse(ConfigErrorKind::Token),
        },
{
    let chars = text::chars_of(token);
    if chars.len() != TOKEN_LENGTH {
        return Err(ConfigError::plain(ConfigErrorKind::Token));
    }
    let mut i: usize = 0;
    while i < chars.len()
        invariant
            i <= chars@.len(),
            chars@ == token@,
            forall|j: int| 0 <= j < i ==> is_alphanumeric(#[trigger] token@[j]),
        decreases chars@.len() - i,
    {
        let c = chars[i];
        let accepted = ('a' <= c && c <= 'z') || ('A' <= c && c <= 'Z') || ('0' <= c && c <= '9');
        if !accepted {
            assert(!is_alphanumeric(token@[i as int]));
            return Err(ConfigError::plain(ConfigErrorKind::Token));
        }
        i += 1;
    }
    Ok(())
}

/// The port range that a text denotes: one port, or two joined by a hyphen.
pub open spec fn port_range(value: Seq<char>) -> Result<PortRange, ConfigErrorKind> {
    let (first, last, more) = match text::split_once_seq(value, '-') {
        None => (value, value, false),
        Some((first, rest)) => match text::split_once_seq(rest, '-') {
            None => (first, rest, false),
            Some((last, _)) => (first, last, true),
        },
    };
    match text::parse_unsigned(first, 65535) {
        None => Err(ConfigErrorKind::FirstMediaPort),
        Some(low) => match text::parse_unsigned(last, 65535) {
            None => Err(ConfigErrorKind::LastMediaPort),
            Some(high) => if more {
                Err(ConfigErrorKind::MediaPortShape)
            } else {
                Ok(PortRange { first: low as u16, last: high as u16 })
            },
        },
    }
}

pub fn parse_port_range(value: &str) -> (r: Result<PortRange, ConfigError>)
    ensures
        match r {
            Ok(range) => port_range(value@) == Ok::<PortRange, ConfigErrorKind>(range),
            Err(e) => port_range(value@) == Err::<PortRange, ConfigErrorKind>(e.kind)
                && e.value@.len() == 0,
        },
{
    let mut first: &str = value;
    let mut last: &str = value;
    let mut more = false;
    if let Some((before, rest)) = text::split_once(value, '-') {
        first = before;
        last = rest;
        if let Some((between, _)) = text::split_once(rest, '-') {
            last = between;
            more = true;
        }
    }
    let low: u64 = match text::parse_number(first, 65535) {
        Some(low) => low,
        None => return Err(ConfigError::plain(ConfigErrorKind::FirstMediaPort)),
    };
    let high: u64 = match text::parse_number(last, 65535) {
        Some(high) => high,
        None => return Err(ConfigError::plain(ConfigErrorKind::LastMediaPort)),
    };
    if more {
        return Err(ConfigError::plain(ConfigErrorKind::MediaPortShape));
    }
    Ok(PortRange { first: low as u16, last: high as u16 })
}

/// The source that a text such as `monitor:0` denotes.
pub open spec fn source_spec(value: Seq<char>) -> Result<SourceSpecView, Refusal> {
    match text::split_once_seq(value, ':') {
        None => Err((ConfigErrorKind::SourceShape, Seq::<char>::empty())),
        Some((kind, identity)) => match text::parse_unsigned(identity, usize::MAX as nat) {
            None => Err((ConfigErrorKind::SourceIndex, Seq::<char>::empty())),
            Some(index) => if kind == "monitor"@ || kind == "window"@ || kind == "test"@ {
                Ok(SourceSpecView { kind, index: index as usize, native_id: None })
            } else {
                Err((ConfigErrorKind::SourceKind, kind))
            },
        },
    }
}

pub fn parse_source(value: &str) -> (r: Result<SourceSpec, ConfigError>)
    ensures
        match r {
            Ok(source) => source_spec(value@) == Ok::<SourceSpecView, Refusal>(source@),
            Err(e) => source_spec(value@) == Err::<SourceSpecView, Refusal>(e.refusal()),
        },
{
    let (kind, identity) = match text::split_once(value, ':') {
        Some(parts) => parts,
        None => return Err(ConfigError::plain(ConfigErrorKind::SourceShape)),
    };
    let index: u64 = match text::parse_number(identity, usize::MAX as u64) {
        Some(index) => index,
        None => return Err(ConfigError::plain(ConfigErrorKind::SourceIndex)),
    };
    if text::text_eq(kind, "monitor") || text::text_eq(kind, "window") || text::text_eq(
        kind,
        "test",
    ) {
        Ok(SourceSpec { kind: kind.to_owned(), index: index as usize, native_id: None })
    } else {
        Err(ConfigError::naming(ConfigErrorKind::SourceKind, kind))
    }
}

/// The height that a quality preset stands for.
pub open spec fn preset_height(value: Seq<char>) -> Option<u32> {
    if value == "144p"@ {
        Some(144)
    } else if value == "240p"@ {
        Some(240)
    } else if value == "360p"@ {
        Some(360)
    } else if value == "480p"@ {
        Some(480)
    } else if value == "720p"@ {
        Some(720)
    } else if value == "1080p"@ {
        Some(1080)
    } else if value == "1440p"@ {
        Some(1440)
    } else if value == "2160p"@ {
        Some(2160)
    } else if value == "4320p"@ {
        Some(4320)
    } else {
        None
    }
}

pub fn quality_height(value: &str) -> (r: Option<u32>)
    ensures
        r == preset_height(value@),
{
    if text::text_eq(value, "144p") {
        Some(144)
    } else if text::text_eq(value, "240p") {
        Some(240)
    } else if text::text_eq(value, "360p") {
        Some(360)
    } else if text::text_eq(value, "480p") {
        Some(480)
    } else if text::text_eq(value, "720p") {
        Some(720)
    } else if text::text_eq(value, "1080p") {
        Some(1080)
    } else if text::text_eq(value, "1440p") {
        Some(1440)
    } else if text::text_eq(value, "2160p") {
        Some(2160)
    } else if text::text_eq(value, "4320p") {
        Some(4320)
    } else {
        None
    }
}

/// The frame rate that a preset stands for.
pub open spec fn preset_fps(value: Seq<char>) -> Option<u32> {
    if value == "source"@ || value == "custom"@ {
        None
    } else {
        match text::parse_unsigned(value, u32::MAX as nat) {
            Some(fps) => Some(fps as u32),
            None => None,
        }
    }
}

pub fn fps_value(value: &str) -> (r: Option<u32>)
    ensures
        r == preset_fps(value@),
{
    if text::text_eq(value, "source") || text::text_eq(value, "custom") {
        None
    } else {
        match text::parse_number(value, u32::MAX as u64) {
            Some(fps) => Some(fps as u32),
            None => None,
        }
    }
}

pub open spec fn is_quality_preset(s: Seq<char>) -> bool {
    s == "source"@ || preset_height(s) is Some
}

pub open spec fn is_fps_preset(s: Seq<char>) -> bool {
    s == "source"@ || s == "5"@ || s == "10"@ || s == "24"@ || s == "30"@ || s == "60"@ || s
        == "75"@ || s == "120"@
}

fn quality_preset(s: &str) -> (r: bool)
    ensures
        r == is_quality_preset(s@),
{
    text::text_eq(s, "source") || quality_height(s).is_some()
}

fn fps_preset(s: &str) -> (r: bool)
    ensures
        r == is_fps_preset(s@),
{
    text::text_eq(s, "source") || text::text_eq(s, "5") || text::text_eq(s, "10") || text::text_eq(
        s,
        "24",
    ) || text::text_eq(s, "30") || text::text_eq(s, "60") || text::text_eq(s, "75")
        || text::text_eq(s, "120")
}

/// The quality presets, in the order in which they are offered.
pub open spec fn quality_list() -> Seq<Seq<char>> {
    seq![
        "source"@,
        "144p"@,
        "240p"@,
        "360p"@,
        "480p"@,
        "720p"@,
        "1080p"@,
        "1440p"@,
        "2160p"@,
        "4320p"@,
    ]
}

pub fn quality_presets() -> (r: Vec<&'static str>)
    ensures
        text::views_of(r@) == quality_list(),
{
    let presets = vec![
        "source",
        "144p",
        "240p",
        "360p",
        "480p",
        "720p",
        "1080p",
        "1440p",
        "2160p",
        "4320p",
    ];
    assert(text::views_of(presets@) =~= quality_list());
    presets
}

/// The frame-rate presets, in the order in which they are offered.
pub open spec fn fps_list() -> Seq<Seq<char>> {
    seq!["source"@, "5"@, "10"@, "24"@, "30"@, "60"@, "75"@, "120"@]
}

pub fn fps_presets() -> (r: Vec<&'static str>)
    ensures
        text::views_of(r@) == fps_list(),
{
    let presets = vec!["source", "5", "10", "24", "30", "60", "75", "120"];
    assert(text::views_of(presets@) =~= fps_list());
    presets
}

/// The processes that system audio leaves out unless the configuration names others.
pub open spec fn default_exclusions() -> Seq<Seq<char>> {
    seq![
        "Discord"@,
        "WhatsApp"@,
        "Telegram"@,
        "Microsoft Teams"@,
        "Zoom"@,
        "Skype"@,
        "Slack"@,
    ]
}

pub fn default_audio_exclusions() -> (r: Vec<String>)
    ensures
        texts(r@) == default_exclusions(),
        r@.len() == 7,
{
    let mut names: Vec<String> = Vec::new();
    names.push("Discord".to_owned());
    names.push("WhatsApp".to_owned());
    names.push("Telegram".to_owned());
    names.push("Microsoft Teams".to_owned());
    names.push("Zoom".to_owned());
    names.push("Skype".to_owned());
    names.push("Slack".to_owned());
    assert(texts(names@) =~= default_exclusions());
    names
}

pub struct ConfigArgsView {
    pub port: Option<u16>,
    pub bind: Seq<char>,
    pub http_port: u16,
    pub media_ports: Seq<char>,
    pub advertise_host: Option<Seq<char>>,
    pub token: Option<Seq<char>>,
    pub max_viewers: usize,
    pub source: Seq<char>,
    pub source_native_id: Option<u64>,
    pub draw_mouse: bool,
    pub codec: Seq<char>,
    pub quality: Option<Seq<char>>,
    pub fps_preset: Option<Seq<char>>,
    pub width: Option<u32>,
    pub height: Option<u32>,
    pub fps: Option<u32>,
    pub bitrate: u32,
    pub quality_mode: Seq<char>,
    pub bitrate_mode: Seq<char>,
    pub adaptive_quality_ceiling: Seq<char>,
    pub adaptive_fps_ceiling: Seq<char>,
    pub max_quality_groups: Seq<char>,
    pub latency_preference: Seq<char>,
    pub audio: Option<Seq<char>>,
    pub exclude_audio_process: Seq<Seq<char>>,
}

impl View for ConfigArgs {
    type V = ConfigArgsView;

    open spec fn view(&self) -> ConfigArgsView {
        ConfigArgsView {
            port: self.port,
            bind: self.bind@,
            http_port: self.http_port,
            media_ports: self.media_ports@,
            advertise_host: optional_text(self.advertise_host),
            token: optional_text(self.token),
            max_viewers: self.max_viewers,
            source: self.source@,
            source_native_id: self.source_native_id,
            draw_mouse: self.draw_mouse,
            codec: self.codec@,
            quality: optional_text(self.quality),
            fps_preset: optional_text(self.fps_preset),
            width: self.width,
            height: self.height,
            fps: self.fps,
            bitrate: self.bitrate,
            quality_mode: self.quality_mode@,
            bitrate_mode: self.bitrate_mode@,
            adaptive_quality_ceiling: self.adaptive_quality_ceiling@,
            adaptive_fps_ceiling: self.adaptive_fps_ceiling@,
            max_quality_groups: self.max_quality_groups@,
            latency_preference: self.latency_preference@,
            audio: optional_text(self.audio),
            exclude_audio_process: texts(self.exclude_audio_process@),
        }
    }
}

/// The configuration of a host that was given no arguments.
pub open spec fn default_config(token: Seq<char>) -> AppConfigView {
    AppConfigView {
        bind: "lan"@,
        http_port: 8080,
        media_ports: PortRange { first: 40000, last: 40000 },
        advertise_host: None,
        token,
        max_viewers: 8,
        source: SourceSpecView { kind: "monitor"@, index: 0, native_id: None },
        draw_mouse: true,
        codec: "auto"@,
        quality: "source"@,
        fps_preset: "source"@,
        width: 1920,
        height: 1080,
        fps: 60,
        bitrate: 14_000_000,
        quality_mode: "adaptive"@,
        bitrate_mode: "automatic"@,
        adaptive_quality_ceiling: "source"@,
        adaptive_fps_ceiling: "source"@,
        max_quality_groups: "2"@,
        latency_preference: "low"@,
        audio_mode: "system"@,
        excluded_audio_processes: default_exclusions(),
        json: false,
    }
}

impl Default for AppConfig {
    fn default() -> (r: Self)
        ensures
            r@ == default_config(r@.token),
            is_token(r@.token),
    {
        AppConfig {
            bind: "lan".to_owned(),
            http_port: 8080,
            media_ports: PortRange { first: 40_000, last: 40_000 },
            advertise_host: None,
            token: generate_token(),
            max_viewers: 8,
            source: SourceSpec { kind: "monitor".to_owned(), index: 0, native_id: None },
            draw_mouse: true,
            codec: "auto".to_owned(),
            quality: "source".to_owned(),
            fps_preset: "source".to_owned(),
            width: 1920,
            height: 1080,
            fps: 60,
            bitrate: 14_000_000,
            quality_mode: "adaptive".to_owned(),
            bitrate_mode: "automatic".to_owned(),
            adaptive_quality_ceiling: "source".to_owned(),
            adaptive_fps_ceiling: "source".to_owned(),
            max_quality_groups: "2".to_owned(),
            latency_preference: "low".to_owned(),
            audio_mode: "system".to_owned(),
            excluded_audio_processes: default_audio_exclusions(),
            json: false,
        }
    }
}

pub open spec fn value_or<T>(value: Option<T>, default: T) -> T {
    match value {
        Some(v) => v,
        None => default,
    }
}

/// The configuration after the arguments were applied to `old`, and the refusal if there was
/// one. What stands before the refused argument has then been taken over.
pub open spec fn applied(old: AppConfigView, args: ConfigArgsView) -> (
    AppConfigView,
    Option<Refusal>,
) {
    let bound = AppConfigView { bind: args.bind, http_port: args.http_port, ..old };
    match port_range(args.media_ports) {
        Err(kind) => (bound, refuse(kind)),
        Ok(media_ports) => {
            let addressed = AppConfigView {
                media_ports,
                advertise_host: args.advertise_host,
                ..bound
            };
            if args.token is Some && !is_token(args.token->0) {
                (addressed, refuse(ConfigErrorKind::Token))
            } else {
                let shared = AppConfigView {
                    token: value_or(args.token, addressed.token),
                    max_viewers: args.max_viewers,
                    ..addressed
                };
                match source_spec(args.source) {
                    Err(refusal) => (shared, Some(refusal)),
                    Ok(source) => if args.source_native_id is Some && source.kind != "window"@ {
                        (
                            AppConfigView { source, ..shared },
                            refuse(ConfigErrorKind::NativeId),
                        )
                    } else {
                        let described = described(shared, source, args);
                        match args.port {
                            None => (described, None),
                            Some(port) => if port == 0 {
                                (described, refuse(ConfigErrorKind::SharedPort))
                            } else {
                                (
                                    AppConfigView {
                                        http_port: port,
                                        media_ports: PortRange { first: port, last: port },
                                        ..described
                                    },
                                    None,
                                )
                            },
                        }
                    },
                }
            }
        },
    }
}

/// `old` with the source and everything that stands behind it in the arguments.
pub open spec fn described(
    old: AppConfigView,
    source: SourceSpecView,
    args: ConfigArgsView,
) -> AppConfigView {
    AppConfigView {
        source: SourceSpecView { native_id: args.source_native_id, ..source },
        draw_mouse: args.draw_mouse,
        codec: args.codec,
        quality: value_or(
            args.quality,
            if args.width is Some || args.height is Some {
                "custom"@
            } else {
                "source"@
            },
        ),
        fps_preset: value_or(
            args.fps_preset,
            if args.fps is Some {
                "custom"@
            } else {
                "source"@
            },
        ),
        width: value_or(args.width, old.width),
        height: value_or(args.height, old.height),
        fps: value_or(args.fps, old.fps),
        bitrate: args.bitrate,
        quality_mode: args.quality_mode,
        bitrate_mode: args.bitrate_mode,
        adaptive_quality_ceiling: args.adaptive_quality_ceiling,
        adaptive_fps_ceiling: args.adaptive_fps_ceiling,
        max_quality_groups: args.max_quality_groups,
        latency_preference: args.latency_preference,
        audio_mode: value_or(
            args.audio,
            if source.kind == "test"@ {
                "off"@
            } else {
                "system"@
            },
        ),
        excluded_audio_processes: if args.exclude_audio_process.len() > 0 {
            args.exclude_audio_process
        } else {
            old.excluded_audio_processes
        },
        ..old
    }
}

/// Whether a text can stand as a host in a URL.
pub open spec fn is_host(host: Seq<char>) -> bool {
    &&& host.len() > 0
    &&& forall|i: int| 0 <= i < host.len() ==> !text::is_white_space(#[trigger] host[i])
    &&& !host.contains('/')
}

/// Whether a number of quality groups can be configured.
pub open spec fn is_group_setting(s: Seq<char>) -> bool {
    s == "auto"@ || (text::parse_unsigned(s, usize::MAX as nat) matches Some(groups) && 1 <= groups
        <= 4)
}

/// The first rule that a configuration breaks.
pub open spec fn validation(config: AppConfigView) -> Option<Refusal> {
    let codec = text::ascii_lower(config.codec);
    if config.http_port == 0 {
        refuse(ConfigErrorKind::HttpPort)
    } else if config.advertise_host is Some && !is_host(config.advertise_host->0) {
        refuse(ConfigErrorKind::AdvertisedHost)
    } else if config.media_ports.first == 0 || config.media_ports.last < config.media_ports.first {
        refuse(ConfigErrorKind::MediaPortRange)
    } else if config.max_viewers == 0 {
        refuse(ConfigErrorKind::MaxViewers)
    } else if config.width == 0 || config.height == 0 || config.fps == 0 || config.bitrate == 0 {
        refuse(ConfigErrorKind::Dimensions)
    } else if config.fps > 240 {
        refuse(ConfigErrorKind::CaptureFps)
    } else if codec != "auto"@ && codec != "vp8"@ && codec != "vp9"@ && codec != "h264"@ {
        Some((ConfigErrorKind::Codec, codec))
    } else if config.quality != "custom"@ && !is_quality_preset(config.quality) {
        Some((ConfigErrorKind::Quality, config.quality))
    } else if config.fps_preset != "custom"@ && !is_fps_preset(config.fps_preset) {
        Some((ConfigErrorKind::FpsPreset, config.fps_preset))
    } else if config.quality_mode != "manual"@ && config.quality_mode != "adaptive"@ {
        Some((ConfigErrorKind::QualityMode, config.quality_mode))
    } else if config.bitrate_mode != "fixed"@ && config.bitrate_mode != "automatic"@ {
        Some((ConfigErrorKind::BitrateMode, config.bitrate_mode))
    } else if !is_quality_preset(config.adaptive_quality_ceiling) {
        Some((ConfigErrorKind::QualityCeiling, config.adaptive_quality_ceiling))
    } else if !is_fps_preset(config.adaptive_fps_ceiling) {
        Some((ConfigErrorKind::FpsCeiling, config.adaptive_fps_ceiling))
    } else if !is_group_setting(config.max_quality_groups) {
        refuse(ConfigErrorKind::QualityGroups)
    } else if config.latency_preference != "low"@ && config.latency_preference != "balanced"@
        && config.latency_preference != "quality"@ {
        Some((ConfigErrorKind::LatencyPreference, config.latency_preference))
    } else if config.audio_mode != "off"@ && config.audio_mode != "system"@ && config.audio_mode
        != "window"@ {
        Some((ConfigErrorKind::AudioMode, config.audio_mode))
    } else if config.audio_mode == "window"@ && config.source.kind != "window"@ {
        refuse(ConfigErrorKind::WindowAudio)
    } else if config.audio_mode == "system"@ && config.source.kind == "test"@ {
        refuse(ConfigErrorKind::TestPatternAudio)
    } else {
        None
    }
}

fn host_is_usable(host: &str) -> (r: bool)
    ensures
        r == is_host(host@),
{
    let chars = text::chars_of(host);
    if chars.len() == 0 || text::contains_char(host, '/') {
        return false;
    }
    let mut i: usize = 0;
    while i < chars.len()
        invariant
            i <= chars@.len(),
            chars@ == host@,
            forall|j: int| 0 <= j < i ==> !text::is_white_space(#[trigger] host@[j]),
        decreases chars@.len() - i,
    {
        if text::white_space(chars[i]) {
            assert(text::is_white_space(host@[i as int]));
            return false;
        }
        i += 1;
    }
    true
}

fn group_setting(s: &str) -> (r: bool)
    ensures
        r == is_group_setting(s@),
{
    if text::text_eq(s, "auto") {
        return true;
    }
    match text::parse_number(s, usize::MAX as u64) {
        Some(groups) => 1 <= groups && groups <= 4,
        None => false,
    }
}

/// The height that the configuration asks for, if it does not follow the source.
pub open spec fn wanted_height(config: AppConfigView) -> Option<u32> {
    let quality = if config.quality_mode == "adaptive"@ {
        config.adaptive_quality_ceiling
    } else {
        config.quality
    };
    match preset_height(quality) {
        Some(height) => Some(height),
        None => if quality == "custom"@ {
            Some(config.height)
        } else {
            None
        },
    }
}

/// The frame rate that the configuration asks for, if it does not follow the source.
pub open spec fn wanted_fps(config: AppConfigView) -> Option<u32> {
    let fps = if config.quality_mode == "adaptive"@ {
        config.adaptive_fps_ceiling
    } else {
        config.fps_preset
    };
    match preset_fps(fps) {
        Some(value) => Some(value),
        None => if fps == "custom"@ {
            Some(config.fps)
        } else {
            None
        },
    }
}

/// Conservative automatic starting floors for readable screen content, in bits per second.
///
/// These are starting targets: the adaptive controller still lowers an individual group after
/// a credible congestion signal. 1080p starts at 14 Mbps because text, interface edges and
/// scrolling expose compression artifacts well before camera video would.
pub open spec fn bitrate_floor(height: u32, fps: u32) -> u32 {
    if height >= 2160 {
        25_000_000
    } else if height >= 1440 && fps >= 60 {
        20_000_000
    } else if height >= 1440 {
        15_000_000
    } else if height >= 1080 {
        14_000_000
    } else if height >= 720 && fps >= 60 {
        7_000_000
    } else if height >= 720 {
        4_000_000
    } else if height >= 480 {
        2_000_000
    } else if height >= 360 {
        1_000_000
    } else {
        500_000
    }
}

pub fn automatic_bitrate_floor(height: u32, fps: u32) -> (r: u32)
    ensures
        r == bitrate_floor(height, fps),
        500_000 <= r <= 25_000_000,
{
    if height >= 2160 {
        25_000_000
    } else if height >= 1440 && fps >= 60 {
        20_000_000
    } else if height >= 1440 {
        15_000_000
    } else if height >= 1080 {
        14_000_000
    } else if height >= 720 && fps >= 60 {
        7_000_000
    } else if height >= 720 {
        4_000_000
    } else if height >= 480 {
        2_000_000
    } else if height >= 360 {
        1_000_000
    } else {
        500_000
    }
}

pub open spec fn max_u32(a: u32, b: u32) -> u32 {
    if a >= b {
        a
    } else {
        b
    }
}

/// Thousandths of a bit that a codec spends on a pixel of a frame.
pub open spec fn millibits_per_pixel(codec: Seq<char>) -> nat {
    let name = text::ascii_lower(codec);
    if name == "vp9"@ {
        55
    } else if name == "h264"@ {
        65
    } else if name == "av1"@ {
        40
    } else {
        80
    }
}

/// Hundredths by which a latency preference scales the bitrate.
pub open spec fn latency_percent(preference: Seq<char>) -> nat {
    if preference == "low"@ {
        90
    } else if preference == "quality"@ {
        120
    } else {
        100
    }
}

/// The width that keeps the aspect ratio of the source at `height`, in 32 bits.
pub open spec fn proportional_width(width: u32, height: u32, output_height: u32) -> u32 {
    let scaled = (max_u32(width, 2) * output_height) / max_u32(height, 2) as int;
    (if scaled >= 2 {
        scaled
    } else {
        2
    } % 0x1_0000_0000) as u32
}

/// The bitrate that the picture itself calls for, before floors and limits.
pub open spec fn recommended_bitrate(config: AppConfigView) -> nat {
    let height = max_u32(value_or(wanted_height(config), config.height), 144);
    let width = proportional_width(config.width, config.height, height);
    let fps = max_u32(value_or(wanted_fps(config), config.fps), 5);
    let pixels = float::product(
        float::of_nat(float::Precision::Double, width as nat),
        float::of_nat(float::Precision::Double, height as nat),
    );
    let rate = float::product(pixels, float::of_nat(float::Precision::Double, fps as nat));
    let coded = float::product(rate, float::ratio(millibits_per_pixel(config.codec), 1000));
    let preferred = float::product(
        coded,
        float::ratio(latency_percent(config.latency_preference), 100),
    );
    let adjusted = float::product(
        preferred,
        float::ratio(
            if config.source.kind == "test"@ {
                110
            } else {
                100
            },
            100,
        ),
    );
    if float::floor(adjusted) <= u32::MAX {
        float::floor(adjusted)
    } else {
        u32::MAX as nat
    }
}

/// The bitrate at which a stream of this configuration starts.
pub open spec fn starting_bitrate(config: AppConfigView) -> u32 {
    if config.bitrate_mode == "fixed"@ {
        config.bitrate
    } else {
        let height = max_u32(value_or(wanted_height(config), config.height), 144);
        let fps = max_u32(value_or(wanted_fps(config), config.fps), 5);
        let wanted = max_u32(recommended_bitrate(config) as u32, bitrate_floor(height, fps));
        if wanted < 250_000 {
            250_000
        } else if wanted > 25_000_000 {
            25_000_000
        } else {
            wanted
        }
    }
}

/// The host that stands in the viewer URL. `local` is the address of this machine in its network.
pub open spec fn url_host(config: AppConfigView, local: Option<Seq<char>>) -> Seq<char> {
    match config.advertise_host {
        Some(host) => host,
        None => if config.bind == "localhost"@ || config.bind == "loopback"@ {
            "127.0.0.1"@
        } else if config.bind == "lan"@ || config.bind == "all"@ {
            value_or(local, "<lan-ip>"@)
        } else if config.bind == "public"@ {
            "<public-ip>"@
        } else {
            config.bind
        },
    }
}

/// The host that media candidates name. An advertised host counts only where it is an address.
pub open spec fn media_host(
    config: AppConfigView,
    advertised_is_address: bool,
    local: Option<Seq<char>>,
) -> Seq<char> {
    if config.advertise_host is Some && advertised_is_address {
        config.advertise_host->0
    } else if config.bind == "localhost"@ || config.bind == "loopback"@ {
        "127.0.0.1"@
    } else if config.bind == "lan"@ || config.bind == "public"@ || config.bind == "all"@ {
        value_or(local, "127.0.0.1"@)
    } else {
        config.bind
    }
}

/// The URL under which a viewer opens the stream.
pub open spec fn viewer_address(config: AppConfigView, host: Seq<char>) -> Seq<char> {
    "http://"@ + host + ":"@ + text::decimal(config.http_port as nat) + "/"@ + config.token
}

impl AppConfig {
    /// The configuration that starts from `defaults` and applies the arguments, if it is valid.
    pub fn configured(defaults: AppConfig, args: Option<StartArgs>) -> (r: Result<Self, ConfigError>)
        ensures
            ({
                let (config, refusal) = match args {
                    Some(args) => applied(defaults@, args.config@),
                    None => (defaults@, None),
                };
                match r {
                    Ok(result) => refusal is None && validation(config) is None && result@
                        == config,
                    Err(e) => Some(e.refusal()) == if refusal is Some {
                        refusal
                    } else {
                        validation(config)
                    },
                }
            }),
    {
        let mut config = defaults;
        if let Some(args) = args {
            if let Err(error) = config.apply_args(args.config) {
                return Err(error);
            }
        }
        match config.validate() {
            Ok(()) => Ok(config),
            Err(error) => Err(error),
        }
    }

    /// The configuration of a host with a fresh token that the arguments may replace.
    pub fn from_cli(args: Option<StartArgs>) -> (r: Result<Self, ConfigError>)
        ensures
            exists|token: Seq<char>| #[trigger]
                is_token(token) && ({
                    let (config, refusal) = match args {
                        Some(args) => applied(default_config(token), args.config@),
                        None => (default_config(token), None),
                    };
                    match r {
                        Ok(result) => refusal is None && validation(config) is None && result@
                            == config,
                        Err(e) => Some(e.refusal()) == if refusal is Some {
                            refusal
                        } else {
                            validation(config)
                        },
                    }
                }),
    {
        let defaults = AppConfig::default();
        assert(is_token(defaults@.token));
        AppConfig::configured(defaults, args)
    }

    /// Takes the arguments over.
    pub fn apply_args(&mut self, args: ConfigArgs) -> (r: Result<(), ConfigError>)
        ensures
            final(self)@ == applied(old(self)@, args@).0,
            match r {
                Ok(()) => applied(old(self)@, args@).1 is None,
                Err(e) => applied(old(self)@, args@).1 == Some(e.refusal()),
            },
    {
        self.bind = args.bind;
        self.http_port = args.http_port;
        match parse_port_range(args.media_ports.as_str()) {
            Ok(range) => {
                self.media_ports = range;
            },
            Err(error) => {
                assert(error.value@ =~= Seq::<char>::empty());
                return Err(error);
            },
        }
        self.advertise_host = args.advertise_host;
        if let Some(token) = args.token {
            if let Err(error) = validate_token(token.as_str()) {
                return Err(error);
            }
            self.token = token;
        }
        self.max_viewers = args.max_viewers;
        match parse_source(args.source.as_str()) {
            Ok(source) => {
                self.source = source;
            },
            Err(error) => {
                return Err(error);
            },
        }
        if args.source_native_id.is_some() && !text::text_eq(self.source.kind.as_str(), "window") {
            return Err(ConfigError::plain(ConfigErrorKind::NativeId));
        }
        self.source.native_id = args.source_native_id;
        self.draw_mouse = args.draw_mouse;
        self.codec = args.codec;
        let explicit_dimensions = args.width.is_some() || args.height.is_some();
        let explicit_fps = args.fps.is_some();
        self.quality = match args.quality {
            Some(quality) => quality,
            None => if explicit_dimensions {
                "custom".to_owned()
            } else {
                "source".to_owned()
            },
        };
        self.fps_preset = match args.fps_preset {
            Some(preset) => preset,
            None => if explicit_fps {
                "custom".to_owned()
            } else {
                "source".to_owned()
            },
        };
        if let Some(width) = args.width {
            self.width = width;
        }
        if let Some(height) = args.height {
            self.height = height;
        }
        if let Some(fps) = args.fps {
            self.fps = fps;
        }
        self.bitrate = args.bitrate;
        self.quality_mode = args.quality_mode;
        self.bitrate_mode = args.bitrate_mode;
        self.adaptive_quality_ceiling = args.adaptive_quality_ceiling;
        self.adaptive_fps_ceiling = args.adaptive_fps_ceiling;
        self.max_quality_groups = args.max_quality_groups;
        self.latency_preference = args.latency_preference;
        self.audio_mode = match args.audio {
            Some(mode) => mode,
            None => if text::text_eq(self.source.kind.as_str(), "test") {
                "off".to_owned()
            } else {
                "system".to_owned()
            },
        };
        if args.exclude_audio_process.len() > 0 {
            self.excluded_audio_processes = args.exclude_audio_process;
        }
        if let Some(port) = args.port {
            if port == 0 {
                return Err(ConfigError::plain(ConfigErrorKind::SharedPort));
            }
            self.http_port = port;
            self.media_ports = PortRange { first: port, last: port };
        }
        Ok(())
    }

    /// Whether a host can run with this configuration.
    pub fn validate(&self) -> (r: Result<(), ConfigError>)
        ensures
            match r {
                Ok(()) => validation(self@) is None,
                Err(e) => validation(self@) == Some(e.refusal()),
            },
    {
        if self.http_port == 0 {
            return Err(ConfigError::plain(ConfigErrorKind::HttpPort));
        }
        if let Some(host) = &self.advertise_host {
            if !host_is_usable(host.as_str()) {
                return Err(ConfigError::plain(ConfigErrorKind::AdvertisedHost));
            }
        }
        if self.media_ports.first == 0 || self.media_ports.last < self.media_ports.first {
            return Err(ConfigError::plain(ConfigErrorKind::MediaPortRange));
        }
        if self.max_viewers == 0 {
            return Err(ConfigError::plain(ConfigErrorKind::MaxViewers));
        }
        if self.width == 0 || self.height == 0 || self.fps == 0 || self.bitrate == 0 {
            return Err(ConfigError::plain(ConfigErrorKind::Dimensions));
        }
        if self.fps > 240 {
            return Err(ConfigError::plain(ConfigErrorKind::CaptureFps));
        }
        let codec = text::to_ascii_lowercase(self.codec.as_str());
        if !text::text_eq(codec.as_str(), "auto") && !text::text_eq(codec.as_str(), "vp8")
            && !text::text_eq(codec.as_str(), "vp9") && !text::text_eq(codec.as_str(), "h264") {
            return Err(ConfigError::naming(ConfigErrorKind::Codec, codec.as_str()));
        }
        let quality = self.quality.as_str();
        if !text::text_eq(quality, "custom") && !quality_preset(quality) {
            return Err(ConfigError::naming(ConfigErrorKind::Quality, quality));
        }
        let preset = self.fps_preset.as_str();
        if !text::text_eq(preset, "custom") && !fps_preset(preset) {
            return Err(ConfigError::naming(ConfigErrorKind::FpsPreset, preset));
        }
        let mode = self.quality_mode.as_str();
        if !text::text_eq(mode, "manual") && !text::text_eq(mode, "adaptive") {
            return Err(ConfigError::naming(ConfigErrorKind::QualityMode, mode));
        }
        let bitrate_mode = self.bitrate_mode.as_str();
        if !text::text_eq(bitrate_mode, "fixed") && !text::text_eq(bitrate_mode, "automatic") {
            return Err(ConfigError::naming(ConfigErrorKind::BitrateMode, bitrate_mode));
        }
        if !quality_preset(self.adaptive_quality_ceiling.as_str()) {
            return Err(
                ConfigError::naming(
                    ConfigErrorKind::QualityCeiling,
                    self.adaptive_quality_ceiling.as_str(),
                ),
            );
        }
        if !fps_preset(self.adaptive_fps_ceiling.as_str()) {
            return Err(
                ConfigError::naming(
                    ConfigErrorKind::FpsCeiling,
                    self.adaptive_fps_ceiling.as_str(),
                ),
            );
        }
        if !group_setting(self.max_quality_groups.as_str()) {
            return Err(ConfigError::plain(ConfigErrorKind::QualityGroups));
        }
        let latency = self.latency_preference.as_str();
        if !text::text_eq(latency, "low") && !text::text_eq(latency, "balanced") && !text::text_eq(
            latency,
            "quality",
        ) {
            return Err(ConfigError::naming(ConfigErrorKind::LatencyPreference, latency));
        }
        let audio = self.audio_mode.as_str();
        if !text::text_eq(audio, "off") && !text::text_eq(audio, "system") && !text::text_eq(
            audio,
            "window",
        ) {
            return Err(ConfigError::naming(ConfigErrorKind::AudioMode, audio));
        }
        let kind = self.source.kind.as_str();
        if text::text_eq(audio, "window") && !text::text_eq(kind, "window") {
            return Err(ConfigError::plain(ConfigErrorKind::WindowAudio));
        }
        if text::text_eq(audio, "system") && text::text_eq(kind, "test") {
            return Err(ConfigError::plain(ConfigErrorKind::TestPatternAudio));
        }
        Ok(())
    }

    pub fn output_height(&self) -> (r: Option<u32>)
        ensures
            r == wanted_height(self@),
    {
        let quality = if text::text_eq(self.quality_mode.as_str(), "adaptive") {
            self.adaptive_quality_ceiling.as_str()
        } else {
            self.quality.as_str()
        };
        match quality_height(quality) {
            Some(height) => Some(height),
            None => if text::text_eq(quality, "custom") {
                Some(self.height)
            } else {
                None
            },
        }
    }

    pub fn output_fps(&self) -> (r: Option<u32>)
        ensures
            r == wanted_fps(self@),
    {
        let fps = if text::text_eq(self.quality_mode.as_str(), "adaptive") {
            self.adaptive_fps_ceiling.as_str()
        } else {
            self.fps_preset.as_str()
        };
        match fps_value(fps) {
            Some(value) => Some(value),
            None => if text::text_eq(fps, "custom") {
                Some(self.fps)
            } else {
                None
            },
        }
    }

    /// The bitrate at which a stream starts, in bits per second.
    pub fn effective_bitrate(&self) -> (r: u32)
        ensures
            r == starting_bitrate(self@),
    {
        if text::text_eq(self.bitrate_mode.as_str(), "fixed") {
            return self.bitrate;
        }
        let mut height: u32 = match self.output_height() {
            Some(height) => height,
            None => self.height,
        };
        if height < 144 {
            height = 144;
        }
        let source_width: u64 = if self.width >= 2 {
            self.width as u64
        } else {
            2
        };
        let source_height: u64 = if self.height >= 2 {
            self.height as u64
        } else {
            2
        };
        assert(source_width * height <= u32::MAX * u32::MAX) by (nonlinear_arith)
            requires
                0 <= source_width <= u32::MAX,
                0 <= height <= u32::MAX,
        ;
        let scaled: u64 = (source_width * height as u64) / source_height;
        let wide: u64 = if scaled >= 2 {
            scaled
        } else {
            2
        };
        let width: u32 = (wide % 0x1_0000_0000) as u32;
        let mut fps: u32 = match self.output_fps() {
            Some(fps) => fps,
            None => self.fps,
        };
        if fps < 5 {
            fps = 5;
        }
        let codec = text::to_ascii_lowercase(self.codec.as_str());
        let millibits: u64 = if text::text_eq(codec.as_str(), "vp9") {
            55
        } else if text::text_eq(codec.as_str(), "h264") {
            65
        } else if text::text_eq(codec.as_str(), "av1") {
            40
        } else {
            80
        };
        let latency: u64 = if text::text_eq(self.latency_preference.as_str(), "low") {
            90
        } else if text::text_eq(self.latency_preference.as_str(), "quality") {
            120
        } else {
            100
        };
        // The test pattern contains continuous motion and fine detail, so it is a useful
        // conservative stand-in for screen content with frequent changes.
        let content: u64 = if text::text_eq(self.source.kind.as_str(), "test") {
            110
        } else {
            100
        };
        let pixels = float::multiply(
            float::integer(float::Precision::Double, width as u64),
            float::integer(float::Precision::Double, height as u64),
        );
        let rate = float::multiply(
            pixels,
            float::integer(float::Precision::Double, fps as u64),
        );
        let coded = float::multiply(rate, float::fraction(millibits, 1000));
        let preferred = float::multiply(coded, float::fraction(latency, 100));
        let adjusted = float::multiply(preferred, float::fraction(content, 100));
        let recommendation: u32 = float::truncated(adjusted, u32::MAX as u64) as u32;
        let floor = automatic_bitrate_floor(height, fps);
        let wanted: u32 = if recommendation >= floor {
            recommendation
        } else {
            floor
        };
        if wanted > 25_000_000 {
            25_000_000
        } else {
            wanted
        }
    }

    /// The host that the HTTP listener binds, as text.
    pub fn bind_host(&self) -> (r: String)
        ensures
            r@ == if self.bind@ == "localhost"@ || self.bind@ == "loopback"@ {
                "127.0.0.1"@
            } else if self.bind@ == "lan"@ || self.bind@ == "public"@ || self.bind@ == "all"@ {
                "0.0.0.0"@
            } else {
                self.bind@
            },
    {
        let bind = self.bind.as_str();
        if text::text_eq(bind, "localhost") || text::text_eq(bind, "loopback") {
            "127.0.0.1".to_owned()
        } else if text::text_eq(bind, "lan") || text::text_eq(bind, "public") || text::text_eq(
            bind,
            "all",
        ) {
            "0.0.0.0".to_owned()
        } else {
            self.bind.clone()
        }
    }

    pub fn advertised_host(&self, local: Option<&str>) -> (r: String)
        ensures
            r@ == url_host(
                self@,
                match local {
                    Some(address) => Some(address@),
                    None => None,
                },
            ),
    {
        if let Some(host) = &self.advertise_host {
            return host.clone();
        }
        let bind = self.bind.as_str();
        if text::text_eq(bind, "localhost") || text::text_eq(bind, "loopback") {
            "127.0.0.1".to_owned()
        } else if text::text_eq(bind, "lan") || text::text_eq(bind, "all") {
            match local {
                Some(address) => address.to_owned(),
                None => "<lan-ip>".to_owned(),
            }
        } else if text::text_eq(bind, "public") {
            "<public-ip>".to_owned()
        } else {
            self.bind.clone()
        }
    }

    pub fn media_bind_host(&self) -> (r: &'static str)
        ensures
            r@ == if self.bind@ == "localhost"@ || self.bind@ == "loopback"@ {
                "127.0.0.1"@
            } else {
                "0.0.0.0"@
            },
    {
        let bind = self.bind.as_str();
        if text::text_eq(bind, "localhost") || text::text_eq(bind, "loopback") {
            "127.0.0.1"
        } else {
            "0.0.0.0"
        }
    }

    /// The host that media candidates name. `advertised_is_address` tells whether the advertised
    /// host is an IP address, `local` is the address of this machine in its network.
    pub fn advertised_host_for_media(
        &self,
        advertised_is_address: bool,
        local: Option<&str>,
    ) -> (r: String)
        ensures
            r@ == media_host(
                self@,
                advertised_is_address,
                match local {
                    Some(address) => Some(address@),
                    None => None,
                },
            ),
    {
        if advertised_is_address {
            if let Some(host) = &self.advertise_host {
                return host.clone();
            }
        }
        let bind = self.bind.as_str();
        if text::text_eq(bind, "localhost") || text::text_eq(bind, "loopback") {
            "127.0.0.1".to_owned()
        } else if text::text_eq(bind, "lan") || text::text_eq(bind, "public") || text::text_eq(
            bind,
            "all",
        ) {
            match local {
                Some(address) => address.to_owned(),
                None => "127.0.0.1".to_owned(),
            }
        } else {
            self.bind.clone()
        }
    }

    pub fn viewer_url(&self, local: Option<&str>) -> (r: String)
        ensures
            r@ == viewer_address(
                self@,
                url_host(
                    self@,
                    match local {
                        Some(address) => Some(address@),
                        None => None,
                    },
                ),
            ),
    {
        let host = self.advertised_host(local);
        self.viewer_url_for_host(host.as_str())
    }

    pub fn viewer_url_for_host(&self, host: &str) -> (r: String)
        ensures
            r@ == viewer_address(self@, host@),
    {
        let mut url = "http://".to_owned();
        url.append(host);
        url.append(":");
        text::push_decimal(&mut url, self.http_port as u64);
        url.append("/");
        url.append(self.token.as_str());
        url
    }
}

/// A host without arguments has a valid configuration.
pub proof fn lemma_default_is_valid(token: Seq<char>)
    ensures
        validation(default_config(token)) is None,
{
    reveal_strlit("auto");
    reveal_strlit("source");
    reveal_strlit("2");
    reveal_strlit("system");
    reveal_strlit("monitor");
    reveal_strlit("test");
    reveal_strlit("window");
    assert(text::ascii_lower("auto"@) =~= "auto"@);
    let s = "2"@;
    assert(text::unsigned_body(s) == s);
    assert(text::all_digits(s));
    assert(s.drop_last() =~= Seq::<char>::empty());
    assert(text::digits_value(s.drop_last()) == 0);
    assert(text::digits_value(s) == 2);
    assert(text::parse_unsigned(s, usize::MAX as nat) == Some(2nat));
    assert("system"@[0] != "window"@[0]);
    assert("monitor"@.len() != "test"@.len());
}

/// One shared port serves both HTTP and media.
pub proof fn lemma_shared_port(old: AppConfigView, args: ConfigArgsView, port: u16)
    requires
        args.port == Some(port),
        applied(old, args).1 is None,
    ensures
        port > 0,
        applied(old, args).0.http_port == port,
        applied(old, args).0.media_ports == (PortRange { first: port, last: port }),
{
}

/// An automatic bitrate never starts below the floor of its picture, and stays within limits.
pub proof fn lemma_automatic_bitrate(config: AppConfigView)
    requires
        config.bitrate_mode != "fixed"@,
    ensures
        250_000 <= starting_bitrate(config) <= 25_000_000,
        starting_bitrate(config) >= bitrate_floor(
            max_u32(value_or(wanted_height(config), config.height), 144),
            max_u32(value_or(wanted_fps(config), config.fps), 5),
        ),
{
}

/// Text that names a port alone denotes the range of just that port.
pub proof fn lemma_single_port(port: u16)
    ensures
        port_range(text::decimal(port as nat)) == Ok::<PortRange, ConfigErrorKind>(
            PortRange { first: port, last: port },
        ),
{
    let s = text::decimal(port as nat);
    text::lemma_decimal_round_trip(port as nat, 65535);
    text::lemma_decimal_digits(port as nat);
    text::lemma_first_index(s, '-');
    assert(s.contains('-') ==> false) by {
        if s.contains('-') {
            let i = choose|i: int| 0 <= i < s.len() && s[i] == '-';
            assert(text::is_digit(s[i]));
        }
    }
}

/// A larger or faster picture never starts with a smaller bitrate than its floor asks for.
pub proof fn lemma_floors_rise(height: u32, taller: u32, fps: u32, faster: u32)
    requires
        height <= taller,
        fps <= faster,
    ensures
        bitrate_floor(height, fps) <= bitrate_floor(taller, faster),
        500_000 <= bitrate_floor(height, fps) <= 25_000_000,
{
}

proof fn lemma_larger_factor(a: float::Float, n: nat, m: nat, den: nat)
    requires
        a.wf(),
        a.precision == float::Precision::Double,
        a.within(0x1_0000),
        n <= m < 0x1_0000,
        0 < den < 0x1_0000,
    ensures
        float::at_most(
            float::product(a, float::ratio(n, den)),
            float::product(a, float::ratio(m, den)),
        ),
        float::product(a, float::ratio(n, den)).wf(),
        float::product(a, float::ratio(n, den)).precision == float::Precision::Double,
        float::product(a, float::ratio(n, den)).exponent <= a.exponent + 300 || float::product(
            a,
            float::ratio(n, den),
        ).exponent == 0,
        float::product(a, float::ratio(n, den)).exponent >= a.exponent - 300 || float::product(
            a,
            float::ratio(n, den),
        ).exponent == 0,
{
    float::lemma_ratio_is_normal(n, den);
    float::lemma_ratio_is_normal(m, den);
    vstd::arithmetic::power2::lemma2_to64();
    exact::lemma_common_base(n, den, 0, m, den, 0, 0);
    assert(n * 1 * den <= m * 1 * den) by (nonlinear_arith)
        requires
            n <= m,
    ;
    float::lemma_rounding_keeps_order(float::Precision::Double, n, den, 0, m, den, 0);
    float::lemma_products_keep_order(float::ratio(n, den), float::ratio(m, den), a);
    float::lemma_product_commutes(a, float::ratio(n, den));
    float::lemma_product_commutes(a, float::ratio(m, den));
    float::lemma_product_is_normal(a, float::ratio(n, den));
}

proof fn lemma_kept_factor(a: float::Float, b: float::Float, n: nat, den: nat)
    requires
        a.wf(),
        b.wf(),
        a.precision == float::Precision::Double,
        b.precision == float::Precision::Double,
        a.within(0x1_0000),
        b.within(0x1_0000),
        float::at_most(a, b),
        n < 0x1_0000,
        0 < den < 0x1_0000,
    ensures
        float::at_most(
            float::product(a, float::ratio(n, den)),
            float::product(b, float::ratio(n, den)),
        ),
{
    float::lemma_ratio_is_normal(n, den);
    float::lemma_products_keep_order(a, b, float::ratio(n, den));
}

/// What a recommendation multiplies: pixels a second, and three factors.
pub open spec fn recommended_rate(
    width: u32,
    height: u32,
    fps: u32,
    millibits: nat,
    latency: nat,
    content: nat,
) -> float::Float {
    let pixels = float::product(
        float::of_nat(float::Precision::Double, width as nat),
        float::of_nat(float::Precision::Double, height as nat),
    );
    let rate = float::product(pixels, float::of_nat(float::Precision::Double, fps as nat));
    let coded = float::product(rate, float::ratio(millibits, 1000));
    float::product(float::product(coded, float::ratio(latency, 100)), float::ratio(content, 100))
}

proof fn lemma_rates_rise(
    width: u32,
    height: u32,
    fps: u32,
    faster: u32,
    millibits: nat,
    more: nat,
    latency: nat,
    patient: nat,
    content: nat,
    busier: nat,
)
    requires
        fps <= faster,
        millibits <= more < 0x1_0000,
        latency <= patient < 0x1_0000,
        content <= busier < 0x1_0000,
    ensures
        float::at_most(
            recommended_rate(width, height, fps, millibits, latency, content),
            recommended_rate(width, height, faster, more, patient, busier),
        ),
{
    let double = float::Precision::Double;
    let w = float::of_nat(double, width as nat);
    let h = float::of_nat(double, height as nat);
    let f = float::of_nat(double, fps as nat);
    let g = float::of_nat(double, faster as nat);
    float::lemma_ratio_is_normal(width as nat, 1);
    float::lemma_ratio_is_normal(height as nat, 1);
    float::lemma_ratio_is_normal(fps as nat, 1);
    float::lemma_ratio_is_normal(faster as nat, 1);
    float::lemma_product_is_normal(w, h);
    let pixels = float::product(w, h);
    float::lemma_integers_keep_order(fps as nat, faster as nat);
    float::lemma_products_keep_order(f, g, pixels);
    float::lemma_product_commutes(f, pixels);
    float::lemma_product_commutes(g, pixels);
    float::lemma_product_is_normal(pixels, f);
    float::lemma_product_is_normal(pixels, g);
    let slow = float::product(pixels, f);
    let fast = float::product(pixels, g);
    let a = float::product(slow, float::ratio(millibits, 1000));
    let b = float::product(fast, float::ratio(more, 1000));
    lemma_larger_factor(slow, millibits, more, 1000);
    lemma_larger_factor(fast, more, more, 1000);
    lemma_kept_factor(slow, fast, more, 1000);
    exact::lemma_at_most_is_transitive(a, float::product(slow, float::ratio(more, 1000)), b);
    let c = float::product(a, float::ratio(latency, 100));
    let d = float::product(b, float::ratio(patient, 100));
    lemma_larger_factor(a, latency, patient, 100);
    lemma_larger_factor(b, patient, patient, 100);
    lemma_kept_factor(a, b, patient, 100);
    exact::lemma_at_most_is_transitive(c, float::product(a, float::ratio(patient, 100)), d);
    lemma_larger_factor(c, content, busier, 100);
    lemma_kept_factor(c, d, busier, 100);
    exact::lemma_at_most_is_transitive(
        float::product(c, float::ratio(content, 100)),
        float::product(c, float::ratio(busier, 100)),
        float::product(d, float::ratio(busier, 100)),
    );
}

proof fn lemma_recommendation_rises(config: AppConfigView, other: AppConfigView)
    requires
        config.bitrate_mode != "fixed"@,
        other.bitrate_mode != "fixed"@,
        config.width == other.width,
        config.height == other.height,
        value_or(wanted_height(config), config.height) == value_or(
            wanted_height(other),
            other.height,
        ),
        value_or(wanted_fps(config), config.fps) <= value_or(wanted_fps(other), other.fps),
        millibits_per_pixel(config.codec) <= millibits_per_pixel(other.codec),
        latency_percent(config.latency_preference) <= latency_percent(other.latency_preference),
        config.source.kind == "test"@ ==> other.source.kind == "test"@,
    ensures
        starting_bitrate(config) <= starting_bitrate(other),
{
    let height = max_u32(value_or(wanted_height(config), config.height), 144);
    let width = proportional_width(config.width, config.height, height);
    let fps = max_u32(value_or(wanted_fps(config), config.fps), 5);
    let faster = max_u32(value_or(wanted_fps(other), other.fps), 5);
    let content: nat = if config.source.kind == "test"@ {
        110
    } else {
        100
    };
    let busier: nat = if other.source.kind == "test"@ {
        110
    } else {
        100
    };
    lemma_rates_rise(
        width,
        height,
        fps,
        faster,
        millibits_per_pixel(config.codec),
        millibits_per_pixel(other.codec),
        latency_percent(config.latency_preference),
        latency_percent(other.latency_preference),
        content,
        busier,
    );
    float::lemma_floor_keeps_order(
        recommended_rate(
            width,
            height,
            fps,
            millibits_per_pixel(config.codec),
            latency_percent(config.latency_preference),
            content,
        ),
        recommended_rate(
            width,
            height,
            faster,
            millibits_per_pixel(other.codec),
            latency_percent(other.latency_preference),
            busier,
        ),
    );
    lemma_floors_rise(height, height, fps, faster);
}

proof fn lemma_codec_factors()
    ensures
        millibits_per_pixel("av1"@) <= millibits_per_pixel("vp9"@),
        millibits_per_pixel("vp9"@) <= millibits_per_pixel("h264"@),
        millibits_per_pixel("h264"@) <= millibits_per_pixel("vp8"@),
        latency_percent("low"@) <= latency_percent("balanced"@),
        latency_percent("balanced"@) <= latency_percent("quality"@),
{
    reveal_strlit("av1");
    reveal_strlit("vp9");
    reveal_strlit("vp8");
    reveal_strlit("h264");
    reveal_strlit("low");
    reveal_strlit("balanced");
    reveal_strlit("quality");
    assert(text::ascii_lower("av1"@) =~= "av1"@);
    assert(text::ascii_lower("vp9"@) =~= "vp9"@);
    assert(text::ascii_lower("vp8"@) =~= "vp8"@);
    assert(text::ascii_lower("h264"@) =~= "h264"@);
    assert("av1"@[0] != "vp9"@[0] && "vp8"@[2] != "vp9"@[2] && "h264"@.len() == 4 && "av1"@.len()
        == 3 && "vp9"@.len() == 3 && "vp8"@.len() == 3 && "av1"@[0] != "vp8"@[0]);
    assert("low"@.len() == 3 && "balanced"@.len() == 8 && "quality"@.len() == 7);
}

/// For the same picture, a codec that compresses better starts with no more: AV1 before VP9 before
/// H.264 before VP8.
pub proof fn lemma_better_codecs_start_with_less(config: AppConfigView)
    requires
        config.bitrate_mode != "fixed"@,
    ensures
        starting_bitrate(AppConfigView { codec: "av1"@, ..config }) <= starting_bitrate(
            AppConfigView { codec: "vp9"@, ..config },
        ),
        starting_bitrate(AppConfigView { codec: "vp9"@, ..config }) <= starting_bitrate(
            AppConfigView { codec: "h264"@, ..config },
        ),
        starting_bitrate(AppConfigView { codec: "h264"@, ..config }) <= starting_bitrate(
            AppConfigView { codec: "vp8"@, ..config },
        ),
{
    lemma_codec_factors();
    let a = AppConfigView { codec: "av1"@, ..config };
    let b = AppConfigView { codec: "vp9"@, ..config };
    let c = AppConfigView { codec: "h264"@, ..config };
    let d = AppConfigView { codec: "vp8"@, ..config };
    lemma_recommendation_rises(a, b);
    lemma_recommendation_rises(b, c);
    lemma_recommendation_rises(c, d);
}

/// A wish for low delay never asks for more than a wish for quality, and the test pattern for no less
/// than anything else.
pub proof fn lemma_wishes_compare(config: AppConfigView)
    requires
        config.bitrate_mode != "fixed"@,
    ensures
        starting_bitrate(AppConfigView { latency_preference: "low"@, ..config })
            <= starting_bitrate(AppConfigView { latency_preference: "balanced"@, ..config }),
        starting_bitrate(AppConfigView { latency_preference: "balanced"@, ..config })
            <= starting_bitrate(AppConfigView { latency_preference: "quality"@, ..config }),
        starting_bitrate(config) <= starting_bitrate(
            AppConfigView {
                source: SourceSpecView { kind: "test"@, ..config.source },
                ..config
            },
        ),
{
    lemma_codec_factors();
    let low = AppConfigView { latency_preference: "low"@, ..config };
    let balanced = AppConfigView { latency_preference: "balanced"@, ..config };
    let quality = AppConfigView { latency_preference: "quality"@, ..config };
    lemma_recommendation_rises(low, balanced);
    lemma_recommendation_rises(balanced, quality);
    lemma_recommendation_rises(
        config,
        AppConfigView { source: SourceSpecView { kind: "test"@, ..config.source }, ..config },
    );
}

/// A faster picture never starts with a smaller bitrate.
pub proof fn lemma_faster_pictures_start_with_more(config: AppConfigView, faster: u32)
    requires
        config.bitrate_mode != "fixed"@,
        config.quality_mode != "adaptive"@,
        config.fps_preset == "custom"@,
        config.fps <= faster,
    ensures
        starting_bitrate(config) <= starting_bitrate(AppConfigView { fps: faster, ..config }),
{
    lemma_recommendation_rises(config, AppConfigView { fps: faster, ..config });
}

/// A fixed bitrate is taken as it is.
pub proof fn lemma_fixed_bitrate(config: AppConfigView)
    requires
        config.bitrate_mode == "fixed"@,
    ensures
        starting_bitrate(config) == config.bitrate,
{
}

/// In adaptive mode the ceilings decide on height and frame rate, otherwise the presets do; neither
/// looks at the other. A custom value is that of the configuration, and the source's own is none.
pub proof fn lemma_modes_choose_the_picture(config: AppConfigView, other: AppConfigView)
    ensures
        config.quality_mode == "adaptive"@ && other.quality_mode == "adaptive"@
            && config.adaptive_quality_ceiling == other.adaptive_quality_ceiling && config.height
            == other.height ==> wanted_height(config) == wanted_height(other),
        config.quality_mode != "adaptive"@ && other.quality_mode != "adaptive"@ && config.quality
            == other.quality && config.height == other.height ==> wanted_height(config)
            == wanted_height(other),
        config.quality_mode != "adaptive"@ && config.quality == "custom"@ ==> wanted_height(config)
            == Some(config.height),
        config.quality_mode != "adaptive"@ && config.quality == "source"@ ==> wanted_height(config)
            is None,
        config.quality_mode != "adaptive"@ && config.quality == "1080p"@ ==> wanted_height(config)
            == Some(1080u32),
        config.quality_mode == "adaptive"@ && config.adaptive_quality_ceiling == "720p"@
            ==> wanted_height(config) == Some(720u32),
        config.quality_mode != "adaptive"@ && config.fps_preset == "custom"@ ==> wanted_fps(config)
            == Some(config.fps),
        config.quality_mode != "adaptive"@ && config.fps_preset == "source"@ ==> wanted_fps(config)
            is None,
{
    reveal_strlit("custom");
    reveal_strlit("source");
    reveal_strlit("144p");
    reveal_strlit("240p");
    reveal_strlit("360p");
    reveal_strlit("480p");
    reveal_strlit("720p");
    reveal_strlit("1080p");
    reveal_strlit("1440p");
    reveal_strlit("2160p");
    reveal_strlit("4320p");
    assert("custom"@.len() == 6 && "source"@.len() == 6 && "custom"@[0] != "source"@[0]);
    assert("144p"@.len() == 4 && "240p"@.len() == 4 && "360p"@.len() == 4 && "480p"@.len() == 4
        && "720p"@.len() == 4 && "1080p"@.len() == 5 && "1440p"@.len() == 5 && "2160p"@.len() == 5
        && "4320p"@.len() == 5);
    assert("720p"@[0] == '7' && "144p"@[0] == '1' && "240p"@[0] == '2' && "360p"@[0] == '3'
        && "480p"@[0] == '4');
}

/// A height is written as a number with a `p` behind it.
pub proof fn lemma_heights_are_named_after_themselves(value: Seq<char>)
    ensures
        preset_height(value) matches Some(height) ==> value.len() > 0 && value.last() == 'p'
            && text::parse_unsigned(value.drop_last(), u32::MAX as nat) == Some(height as nat),
{
    reveal_strlit("144p");
    reveal_strlit("240p");
    reveal_strlit("360p");
    reveal_strlit("480p");
    reveal_strlit("720p");
    reveal_strlit("1080p");
    reveal_strlit("1440p");
    reveal_strlit("2160p");
    reveal_strlit("4320p");
    if let Some(height) = preset_height(value) {
        let n = height as nat;
        text::lemma_decimal_round_trip(n, u32::MAX as nat);
        reveal_with_fuel(text::decimal, 5);
        assert(value.drop_last() =~= text::decimal(n));
    }
}

/// A range of ports is written with a dash between its ends.
pub proof fn lemma_port_range_round_trip(first: u16, last: u16)
    ensures
        port_range(text::decimal(first as nat).push('-') + text::decimal(last as nat)) == Ok::<
            PortRange,
            ConfigErrorKind,
        >(PortRange { first, last }),
{
    let a = text::decimal(first as nat);
    let b = text::decimal(last as nat);
    text::lemma_decimal_round_trip(first as nat, 65535);
    text::lemma_decimal_round_trip(last as nat, 65535);
    text::lemma_decimal_digits(first as nat);
    text::lemma_decimal_digits(last as nat);
    assert forall|i: int| 0 <= i < a.len() implies a[i] != '-' by {
        assert(text::is_digit(a[i]));
    }
    text::lemma_split(a, '-', b);
    text::lemma_first_index(b, '-');
    if b.contains('-') {
        let i = choose|i: int| 0 <= i < b.len() && b[i] == '-';
        assert(text::is_digit(b[i]));
    }
}

/// A source is written as its kind and its place with a colon between them.
pub proof fn lemma_source_round_trip(kind: Seq<char>, index: usize)
    requires
        kind == "monitor"@ || kind == "window"@ || kind == "test"@,
    ensures
        source_spec(kind.push(':') + text::decimal(index as nat)) == Ok::<SourceSpecView, Refusal>(
            SourceSpecView { kind, index, native_id: None },
        ),
{
    reveal_strlit("monitor");
    reveal_strlit("window");
    reveal_strlit("test");
    text::lemma_decimal_round_trip(index as nat, usize::MAX as nat);
    assert forall|i: int| 0 <= i < kind.len() implies kind[i] != ':' by {
        if kind == "monitor"@ {
            assert("monitor"@[i] != ':');
        } else if kind == "window"@ {
            assert("window"@[i] != ':');
        } else {
            assert("test"@[i] != ':');
        }
    }
    text::lemma_split(kind, ':', text::decimal(index as nat));
}

/// What a configuration is accepted for: usable ports, someone to watch, a picture, known names, and
/// audio that the source can have.
pub proof fn lemma_accepted_configuration(config: AppConfigView)
    ensures
        validation(config) is None == ({
            let codec = text::ascii_lower(config.codec);
            &&& config.http_port > 0
            &&& 0 < config.media_ports.first <= config.media_ports.last
            &&& config.max_viewers > 0
            &&& config.width > 0 && config.height > 0 && config.bitrate > 0
            &&& 1 <= config.fps <= 240
            &&& codec == "auto"@ || codec == "vp8"@ || codec == "vp9"@ || codec == "h264"@
            &&& config.quality == "custom"@ || is_quality_preset(config.quality)
            &&& config.fps_preset == "custom"@ || is_fps_preset(config.fps_preset)
            &&& config.quality_mode == "manual"@ || config.quality_mode == "adaptive"@
            &&& config.bitrate_mode == "fixed"@ || config.bitrate_mode == "automatic"@
            &&& is_quality_preset(config.adaptive_quality_ceiling)
            &&& is_fps_preset(config.adaptive_fps_ceiling)
            &&& is_group_setting(config.max_quality_groups)
            &&& config.latency_preference == "low"@ || config.latency_preference == "balanced"@
                || config.latency_preference == "quality"@
            &&& config.audio_mode == "off"@ || config.audio_mode == "system"@ || config.audio_mode
                == "window"@
            &&& config.audio_mode == "window"@ ==> config.source.kind == "window"@
            &&& config.audio_mode == "system"@ ==> config.source.kind != "test"@
            &&& config.advertise_host is Some ==> config.advertise_host->0.len() > 0
                && !config.advertise_host->0.contains('/') && forall|i: int|
                0 <= i < config.advertise_host->0.len() ==> !text::is_white_space(
                    #[trigger] config.advertise_host->0[i],
                )
        }),
{
}

/// A host that was named is the one that viewers are told; a server that only listens locally never
/// names another machine.
pub proof fn lemma_advertised_hosts(config: AppConfigView, local: Option<Seq<char>>)
    ensures
        config.advertise_host is Some ==> url_host(config, local) == config.advertise_host->0,
        config.advertise_host is Some ==> media_host(config, true, local)
            == config.advertise_host->0,
        config.advertise_host is None && (config.bind == "localhost"@ || config.bind == "loopback"@)
            ==> url_host(config, local) == "127.0.0.1"@,
        (config.bind == "localhost"@ || config.bind == "loopback"@) ==> media_host(
            config,
            false,
            local,
        ) == "127.0.0.1"@,
        config.advertise_host is None && config.bind == "lan"@ && local is Some ==> url_host(
            config,
            local,
        ) == local->0,
        config.bind == "lan"@ && local is Some ==> media_host(config, false, local) == local->0,
        config.advertise_host is None && config.bind == "public"@ ==> url_host(config, local)
            == "<public-ip>"@,
        config.advertise_host is None && network::ipv4_of(config.bind) is Some ==> url_host(
            config,
            local,
        ) == config.bind && media_host(config, false, local) == config.bind,
{
    reveal_strlit("localhost");
    reveal_strlit("loopback");
    reveal_strlit("lan");
    reveal_strlit("all");
    reveal_strlit("public");
    assert("lan"@.len() == 3 && "localhost"@.len() == 9 && "loopback"@.len() == 8 && "public"@.len()
        == 6 && "all"@.len() == 3 && "lan"@[0] != "all"@[0]);
    if network::ipv4_of(config.bind) is Some {
        network::lemma_addresses_begin_with_a_digit(config.bind);
        assert(text::is_digit(config.bind[0]));
        assert(!text::is_digit("lan"@[0]) && !text::is_digit("all"@[0]) && !text::is_digit(
            "public"@[0],
        ) && !text::is_digit("localhost"@[0]) && !text::is_digit("loopback"@[0]));
    }
}

/// The address for viewers leads to the host and the port, and ends with the token.
pub proof fn lemma_viewer_address(config: AppConfigView, host: Seq<char>)
    requires
        !host.contains('/'),
        !host.contains(':'),
    ensures
        ({
            let address = viewer_address(config, host);
            &&& "http://"@.is_prefix_of(address)
            &&& text::split_once_seq(address.skip(7), '/') matches Some((authority, token)) && token
                == config.token && text::split_once_seq(authority, ':') == Some(
                (host, text::decimal(config.http_port as nat)),
            )
        }),
        text::parse_unsigned(text::decimal(config.http_port as nat), 65535) == Some(
            config.http_port as nat,
        ),
{
    reveal_strlit("http://");
    reveal_strlit(":");
    reveal_strlit("/");
    let port = text::decimal(config.http_port as nat);
    let address = viewer_address(config, host);
    let authority = host.push(':') + port;
    text::lemma_decimal_round_trip(config.http_port as nat, 65535);
    text::lemma_decimal_digits(config.http_port as nat);
    assert("http://"@ =~= address.take(7));
    assert(address.skip(7) =~= authority.push('/') + config.token);
    assert forall|i: int| 0 <= i < authority.len() implies authority[i] != '/' by {
        if i < host.len() {
            assert(authority[i] == host[i]);
        } else if i > host.len() {
            assert(text::is_digit(port[i - host.len() - 1]));
        }
    }
    text::lemma_split(authority, '/', config.token);
    assert forall|i: int| 0 <= i < host.len() implies host[i] != ':' by {
        assert(host.contains(host[i]));
    }
    text::lemma_split(host, ':', port);
}

/// The width that goes with a height keeps the shape of the source: it is the greatest that is not
/// too wide, but not below two pixels.
pub proof fn lemma_width_keeps_the_shape(width: u32, height: u32, output_height: u32)
    requires
        2 <= width <= 0xffff,
        2 <= height <= 0xffff,
        output_height <= 0xffff,
    ensures
        ({
            let wide = proportional_width(width, height, output_height);
            &&& wide >= 2
            &&& wide > 2 ==> wide * height <= width * output_height
            &&& width * output_height < (wide + 1) * height
            &&& output_height == height ==> wide == width
        }),
{
    let w = width as int;
    let h = height as int;
    let out = output_height as int;
    let scaled = (w * out) / h;
    assert(0 <= w * out <= 0xffff * 0xffff) by (nonlinear_arith)
        requires
            0 <= w <= 0xffff,
            0 <= out <= 0xffff,
    ;
    assert(0 <= scaled <= w * out && scaled * h <= w * out && w * out < (scaled + 1) * h)
        by (nonlinear_arith)
        requires
            scaled == (w * out) / h,
            h >= 2,
            0 <= w * out,
    ;
    let wide = proportional_width(width, height, output_height) as int;
    assert(wide == if scaled >= 2 {
        scaled
    } else {
        2
    });
    assert(w * out < (wide + 1) * h) by (nonlinear_arith)
        requires
            w * out < (scaled + 1) * h,
            scaled <= wide,
            h >= 2,
    ;
    if out == h {
        assert(scaled == w) by (nonlinear_arith)
            requires
                scaled == (w * out) / h,
                out == h,
                h >= 2,
        ;
    }
}

} // verus!
