//! Video encoding: codecs and settings, and in the modules below encoder arguments, frame timing and
//! delivery to viewers.

use rtc::peer_connection::configuration::media_engine::{
    MIME_TYPE_H264, MIME_TYPE_VP8, MIME_TYPE_VP9,
};
use vstd::prelude::*;
use vstd::string::*;

use crate::config;
use crate::config::{clone_texts, AppConfig, AppConfigView};
use crate::text;

pub mod output;
pub mod pipeline;
pub mod plan;
pub mod timing;
pub mod tracks;

pub use self::output::{H264NalKind, h264_nal_kind};
pub use self::pipeline::{
    EncoderLoop, EncoderReadiness, FrameAction, MediaPipeline, MediaPipelineView, ReadinessError,
    ReadinessView, ViewerTimings,
};
pub use self::plan::{
    EncoderPlan, MediaError, configured_output_fps, h264_level_31_bitrate_compatible,
    h264_level_31_compatible, output_dimensions, plan_encoder, push_size, push_string, push_strs,
    source_pixel_format_frame_size, video_encode_args, yuv420p_frame_size,
};
pub use self::timing::{
    ENCODER_BACKLOG_RESTART_AGE_NANOS, ENCODER_BACKLOG_RESTART_FRAMES, ENCODER_TIMING_QUEUE_LIMIT,
    EncodedFrameTiming, EncoderInput, EncoderTiming, FramePacer, MAX_ENCODED_FRAME_AGE_NANOS,
    SubmittedFrameTiming, TimingView, counted, nanos_since,
};
pub use self::tracks::{
    FRAME_TIMING_ENTRY_LIMIT, FRAME_TIMING_RETENTION_NANOS, FrameCaptureMapping,
    FrameCaptureTiming, MAX_QUEUED_H264_NALS, MediaTrack, MediaTrackView, OutgoingSample,
    QueuedSample, QueuedSampleView, copy_bytes, find_timing, first_timestamp,
    initial_rtp_timestamp, record_timing, rtp_timestamp_step,
};

verus! {

pub const VP8_PAYLOAD_TYPE: u8 = 96;

pub const VP9_PAYLOAD_TYPE: u8 = 98;

/// Browsers offer constrained baseline with packetization mode 1 under this payload type, so the
/// sample writer matches the answer without a lookup.
pub const H264_PAYLOAD_TYPE: u8 = 108;

pub const H264_LEVEL_31_MAX_FRAME_SIZE_MACROBLOCKS: u64 = 3600;

pub const H264_LEVEL_31_MAX_MACROBLOCKS_PER_SECOND: u64 = 108_000;

pub const H264_LEVEL_31_MAX_BITRATE_BPS: u32 = 14_000_000;

#[derive(Clone, Copy, Debug, PartialEq, Eq, Structural)]
pub enum VideoCodec {
    Vp8,
    Vp9,
    H264,
}

/// A codec name that no encoder stands behind, in small letters.
#[derive(Debug)]
pub struct UnsupportedCodec {
    pub name: String,
}

impl UnsupportedCodec {
    pub fn message(&self) -> (r: String)
        ensures
            r@ == "unsupported codec '"@ + self.name@ + "'"@,
    {
        let mut message = "unsupported codec '".to_owned();
        message.append(self.name.as_str());
        message.append("'");
        message
    }
}

/// The codec that a name denotes, in any case.
pub open spec fn codec_of(name: Seq<char>) -> Option<VideoCodec> {
    let lower = text::ascii_lower(name);
    if lower == "vp8"@ {
        Some(VideoCodec::Vp8)
    } else if lower == "vp9"@ {
        Some(VideoCodec::Vp9)
    } else if lower == "h264"@ {
        Some(VideoCodec::H264)
    } else {
        None
    }
}

/// Reads the constant `MIME_TYPE_VP8` of the `rtc` crate, which is `video/VP8`.
#[verifier::external_body]
fn vp8_mime_type() -> (r: &'static str)
    ensures
        r@ == "video/VP8"@,
{
    MIME_TYPE_VP8
}

/// Reads the constant `MIME_TYPE_VP9` of the `rtc` crate, which is `video/VP9`.
#[verifier::external_body]
fn vp9_mime_type() -> (r: &'static str)
    ensures
        r@ == "video/VP9"@,
{
    MIME_TYPE_VP9
}

/// Reads the constant `MIME_TYPE_H264` of the `rtc` crate, which is `video/H264`.
#[verifier::external_body]
fn h264_mime_type() -> (r: &'static str)
    ensures
        r@ == "video/H264"@,
{
    MIME_TYPE_H264
}

impl VideoCodec {
    pub fn parse(value: &str) -> (r: Result<Self, UnsupportedCodec>)
        ensures
            match r {
                Ok(codec) => codec_of(value@) == Some(codec),
                Err(e) => codec_of(value@) is None && e.name@ == text::ascii_lower(value@),
            },
    {
        let name = text::to_ascii_lowercase(value);
        if text::text_eq(name.as_str(), "vp8") {
            Ok(VideoCodec::Vp8)
        } else if text::text_eq(name.as_str(), "vp9") {
            Ok(VideoCodec::Vp9)
        } else if text::text_eq(name.as_str(), "h264") {
            Ok(VideoCodec::H264)
        } else {
            Err(UnsupportedCodec { name })
        }
    }

    pub open spec fn display_name(self) -> Seq<char> {
        match self {
            VideoCodec::Vp8 => "VP8"@,
            VideoCodec::Vp9 => "VP9"@,
            VideoCodec::H264 => "H.264"@,
        }
    }

    pub fn name(self) -> (r: &'static str)
        ensures
            r@ == self.display_name(),
    {
        match self {
            VideoCodec::Vp8 => "VP8",
            VideoCodec::Vp9 => "VP9",
            VideoCodec::H264 => "H.264",
        }
    }

    pub open spec fn identifier(self) -> Seq<char> {
        match self {
            VideoCodec::Vp8 => "vp8"@,
            VideoCodec::Vp9 => "vp9"@,
            VideoCodec::H264 => "h264"@,
        }
    }

    pub fn id(self) -> (r: &'static str)
        ensures
            r@ == self.identifier(),
    {
        match self {
            VideoCodec::Vp8 => "vp8",
            VideoCodec::Vp9 => "vp9",
            VideoCodec::H264 => "h264",
        }
    }

    pub open spec fn mime(self) -> Seq<char> {
        match self {
            VideoCodec::Vp8 => "video/VP8"@,
            VideoCodec::Vp9 => "video/VP9"@,
            VideoCodec::H264 => "video/H264"@,
        }
    }

    pub open spec fn payload(self) -> u8 {
        match self {
            VideoCodec::Vp8 => VP8_PAYLOAD_TYPE,
            VideoCodec::Vp9 => VP9_PAYLOAD_TYPE,
            VideoCodec::H264 => H264_PAYLOAD_TYPE,
        }
    }

    pub open spec fn format_parameters(self) -> Seq<char> {
        match self {
            VideoCodec::Vp8 => ""@,
            VideoCodec::Vp9 => "profile-id=0"@,
            VideoCodec::H264 =>
                "level-asymmetry-allowed=1;packetization-mode=1;profile-level-id=42e01f"@,
        }
    }

    pub fn mime_type(self) -> (r: &'static str)
        ensures
            r@ == self.mime(),
    {
        match self {
            VideoCodec::Vp8 => vp8_mime_type(),
            VideoCodec::Vp9 => vp9_mime_type(),
            VideoCodec::H264 => h264_mime_type(),
        }
    }

    pub fn payload_type(self) -> (r: u8)
        ensures
            r == self.payload(),
    {
        match self {
            VideoCodec::Vp8 => VP8_PAYLOAD_TYPE,
            VideoCodec::Vp9 => VP9_PAYLOAD_TYPE,
            VideoCodec::H264 => H264_PAYLOAD_TYPE,
        }
    }

    pub fn sdp_fmtp_line(self) -> (r: &'static str)
        ensures
            r@ == self.format_parameters(),
    {
        match self {
            VideoCodec::Vp8 => "",
            VideoCodec::Vp9 => "profile-id=0",
            VideoCodec::H264 =>
                "level-asymmetry-allowed=1;packetization-mode=1;profile-level-id=42e01f",
        }
    }
}

/// The codec of a name is found again under its own identifier.
pub proof fn lemma_codec_identifier(codec: VideoCodec)
    ensures
        codec_of(codec.identifier()) == Some(codec),
{
    reveal_strlit("vp8");
    reveal_strlit("vp9");
    reveal_strlit("h264");
    assert(text::ascii_lower("vp8"@) =~= "vp8"@);
    assert(text::ascii_lower("vp9"@) =~= "vp9"@);
    assert(text::ascii_lower("h264"@) =~= "h264"@);
    assert("vp8"@[2] != "vp9"@[2]);
    assert("h264"@.len() == 4);
}

/// What a stream captures and how it is to be encoded.
#[derive(Debug)]
pub struct CaptureSettings {
    pub source_kind: String,
    pub source_index: usize,
    pub source_native_id: Option<u64>,
    pub draw_mouse: bool,
    pub width: u32,
    pub height: u32,
    pub fps: u32,
    pub output_height: Option<u32>,
    pub output_fps: Option<u32>,
    pub bitrate: u32,
    pub quality_mode: String,
    pub bitrate_mode: String,
    pub adaptive_quality_ceiling: String,
    pub adaptive_fps_ceiling: String,
    pub max_quality_groups: String,
    pub latency_preference: String,
    pub audio_mode: String,
    pub excluded_audio_processes: Vec<String>,
}

#[verifier::ext_equal]
pub struct CaptureSettingsView {
    pub source_kind: Seq<char>,
    pub source_index: usize,
    pub source_native_id: Option<u64>,
    pub draw_mouse: bool,
    pub width: u32,
    pub height: u32,
    pub fps: u32,
    pub output_height: Option<u32>,
    pub output_fps: Option<u32>,
    pub bitrate: u32,
    pub quality_mode: Seq<char>,
    pub bitrate_mode: Seq<char>,
    pub adaptive_quality_ceiling: Seq<char>,
    pub adaptive_fps_ceiling: Seq<char>,
    pub max_quality_groups: Seq<char>,
    pub latency_preference: Seq<char>,
    pub audio_mode: Seq<char>,
    pub excluded_audio_processes: Seq<Seq<char>>,
}

impl View for CaptureSettings {
    type V = CaptureSettingsView;

    open spec fn view(&self) -> CaptureSettingsView {
        CaptureSettingsView {
            source_kind: self.source_kind@,
            source_index: self.source_index,
            source_native_id: self.source_native_id,
            draw_mouse: self.draw_mouse,
            width: self.width,
            height: self.height,
            fps: self.fps,
            output_height: self.output_height,
            output_fps: self.output_fps,
            bitrate: self.bitrate,
            quality_mode: self.quality_mode@,
            bitrate_mode: self.bitrate_mode@,
            adaptive_quality_ceiling: self.adaptive_quality_ceiling@,
            adaptive_fps_ceiling: self.adaptive_fps_ceiling@,
            max_quality_groups: self.max_quality_groups@,
            latency_preference: self.latency_preference@,
            audio_mode: self.audio_mode@,
            excluded_audio_processes: config::texts(self.excluded_audio_processes@),
        }
    }
}

impl Clone for CaptureSettings {
    fn clone(&self) -> (r: Self)
        ensures
            r@ == self@,
    {
        CaptureSettings {
            source_kind: self.source_kind.clone(),
            source_index: self.source_index,
            source_native_id: self.source_native_id,
            draw_mouse: self.draw_mouse,
            width: self.width,
            height: self.height,
            fps: self.fps,
            output_height: self.output_height,
            output_fps: self.output_fps,
            bitrate: self.bitrate,
            quality_mode: self.quality_mode.clone(),
            bitrate_mode: self.bitrate_mode.clone(),
            adaptive_quality_ceiling: self.adaptive_quality_ceiling.clone(),
            adaptive_fps_ceiling: self.adaptive_fps_ceiling.clone(),
            max_quality_groups: self.max_quality_groups.clone(),
            latency_preference: self.latency_preference.clone(),
            audio_mode: self.audio_mode.clone(),
            excluded_audio_processes: clone_texts(&self.excluded_audio_processes),
        }
    }
}

/// Whether two lists hold the same texts in the same order.
pub fn same_texts(a: &Vec<String>, b: &Vec<String>) -> (r: bool)
    ensures
        r == (config::texts(a@) == config::texts(b@)),
{
    if a.len() != b.len() {
        assert(config::texts(a@).len() != config::texts(b@).len());
        return false;
    }
    let mut i: usize = 0;
    while i < a.len()
        invariant
            a@.len() == b@.len(),
            i <= a@.len(),
            forall|j: int| 0 <= j < i ==> config::texts(a@)[j] == config::texts(b@)[j],
        decreases a@.len() - i,
    {
        if !text::text_eq(a[i].as_str(), b[i].as_str()) {
            assert(config::texts(a@)[i as int] != config::texts(b@)[i as int]);
            return false;
        }
        i += 1;
    }
    assert(config::texts(a@) =~= config::texts(b@));
    true
}

/// The settings of a configuration.
pub open spec fn settings_of(config: AppConfigView) -> CaptureSettingsView {
    CaptureSettingsView {
        source_kind: config.source.kind,
        source_index: config.source.index,
        source_native_id: config.source.native_id,
        draw_mouse: config.draw_mouse,
        width: config.width,
        height: config.height,
        fps: config.fps,
        output_height: config::wanted_height(config),
        output_fps: config::wanted_fps(config),
        bitrate: config::starting_bitrate(config),
        quality_mode: config.quality_mode,
        bitrate_mode: config.bitrate_mode,
        adaptive_quality_ceiling: config.adaptive_quality_ceiling,
        adaptive_fps_ceiling: config.adaptive_fps_ceiling,
        max_quality_groups: config.max_quality_groups,
        latency_preference: config.latency_preference,
        audio_mode: config.audio_mode,
        excluded_audio_processes: config.excluded_audio_processes,
    }
}

/// The dimensions of the test pattern: at an output height, the even width that keeps the
/// aspect ratio of the configured size, computed in 32 bits.
pub open spec fn pattern_dimensions(settings: CaptureSettingsView) -> (u32, u32) {
    match settings.output_height {
        None => (settings.width, settings.height),
        Some(height) => {
            let scaled = ((config::max_u32(settings.width, 2) * height) / config::max_u32(
                settings.height,
                2,
            ) as int) % 0x1_0000_0000;
            let wide = if scaled >= 2 {
                scaled
            } else {
                2
            };
            ((wide - wide % 2) as u32, height)
        },
    }
}

impl CaptureSettings {
    pub fn from_config(config: &AppConfig) -> (r: Self)
        ensures
            r@ == settings_of(config@),
    {
        CaptureSettings {
            source_kind: config.source.kind.clone(),
            source_index: config.source.index,
            source_native_id: config.source.native_id,
            draw_mouse: config.draw_mouse,
            width: config.width,
            height: config.height,
            fps: config.fps,
            output_height: config.output_height(),
            output_fps: config.output_fps(),
            bitrate: config.effective_bitrate(),
            quality_mode: config.quality_mode.clone(),
            bitrate_mode: config.bitrate_mode.clone(),
            adaptive_quality_ceiling: config.adaptive_quality_ceiling.clone(),
            adaptive_fps_ceiling: config.adaptive_fps_ceiling.clone(),
            max_quality_groups: config.max_quality_groups.clone(),
            latency_preference: config.latency_preference.clone(),
            audio_mode: config.audio_mode.clone(),
            excluded_audio_processes: clone_texts(&config.excluded_audio_processes),
        }
    }

    /// Whether two settings agree in everything.
    pub fn same_as(&self, other: &CaptureSettings) -> (r: bool)
        ensures
            r == (self@ == other@),
    {
        let same = self.source_index == other.source_index && self.source_native_id
            == other.source_native_id && self.draw_mouse == other.draw_mouse && self.width
            == other.width && self.height == other.height && self.fps == other.fps
            && self.output_height == other.output_height && self.output_fps == other.output_fps
            && self.bitrate == other.bitrate && text::text_eq(
            self.source_kind.as_str(),
            other.source_kind.as_str(),
        ) && text::text_eq(self.quality_mode.as_str(), other.quality_mode.as_str())
            && text::text_eq(self.bitrate_mode.as_str(), other.bitrate_mode.as_str())
            && text::text_eq(
            self.adaptive_quality_ceiling.as_str(),
            other.adaptive_quality_ceiling.as_str(),
        ) && text::text_eq(self.adaptive_fps_ceiling.as_str(), other.adaptive_fps_ceiling.as_str())
            && text::text_eq(self.max_quality_groups.as_str(), other.max_quality_groups.as_str())
            && text::text_eq(self.latency_preference.as_str(), other.latency_preference.as_str())
            && text::text_eq(self.audio_mode.as_str(), other.audio_mode.as_str()) && same_texts(
            &self.excluded_audio_processes,
            &other.excluded_audio_processes,
        );
        same
    }

    pub fn test_pattern_dimensions(&self) -> (r: (u32, u32))
        ensures
            r == pattern_dimensions(self@),
    {
        match self.output_height {
            None => (self.width, self.height),
            Some(height) => {
                let source_width: u64 = if self.width >= 2 {
                    self.width as u64
                } else {
                    2
                };
                let source_height: u64 = if self.height >= 2 {
                    self.height as u64
                } else {
                    2
                };
                assert(source_width * height <= u32::MAX * u32::MAX) by (nonlinear_arith)
                    requires
                        0 <= source_width <= u32::MAX,
                        0 <= height <= u32::MAX,
                ;
                let scaled: u64 = ((source_width * height as u64) / source_height) % 0x1_0000_0000;
                let wide: u64 = if scaled >= 2 {
                    scaled
                } else {
                    2
                };
                ((wide - wide % 2) as u32, height)
            },
        }
    }
}

/// A codec is offered under the media type that its identifier names, with a payload type of its own.
pub proof fn lemma_codecs_are_told_apart(a: VideoCodec, b: VideoCodec)
    ensures
        text::ascii_lower(a.mime()) == "video/"@ + a.identifier(),
        text::ascii_lower(a.identifier()) == a.identifier(),
        codec_of(a.identifier()) == Some(a),
        96 <= a.payload() <= 127,
        a.payload() == b.payload() <==> a == b,
        a.identifier() == b.identifier() <==> a == b,
{
    reveal_strlit("vp8");
    reveal_strlit("vp9");
    reveal_strlit("h264");
    reveal_strlit("video/");
    reveal_strlit("video/VP8");
    reveal_strlit("video/VP9");
    reveal_strlit("video/H264");
    assert("vp8"@[2] != "vp9"@[2]);
    assert("vp8"@.len() == 3 && "vp9"@.len() == 3 && "h264"@.len() == 4);
    assert(text::ascii_lower(a.identifier()) =~= a.identifier());
    assert(text::ascii_lower(a.mime()) =~= "video/"@ + a.identifier());
}

/// The test pattern has the wanted height and the shape of the source, to the nearest even width below.
pub proof fn lemma_pattern_keeps_the_shape(settings: CaptureSettingsView)
    requires
        2 <= settings.width <= 0xffff,
        2 <= settings.height <= 0xffff,
    ensures
        settings.output_height is None ==> pattern_dimensions(settings) == (
            settings.width,
            settings.height,
        ),
        settings.output_height is Some && settings.output_height->0 <= 0xffff ==> {
            let (width, height) = pattern_dimensions(settings);
            &&& height == settings.output_height->0
            &&& width % 2 == 0 && width >= 2
            &&& width > 2 ==> width * settings.height <= settings.width * height
            &&& settings.width * height < (width + 2) * settings.height
        },
{
    if settings.output_height is Some && settings.output_height->0 <= 0xffff {
        let w = settings.width as int;
        let h = settings.height as int;
        let out = settings.output_height->0 as int;
        let scaled = (w * out) / h;
        assert(0 <= w * out <= 0xffff * 0xffff) by (nonlinear_arith)
            requires
                0 <= w <= 0xffff,
                0 <= out <= 0xffff,
        ;
        assert(0 <= scaled <= w * out && scaled * h <= w * out && w * out < (scaled + 1) * h)
            by (nonlinear_arith)
            requires
                scaled == (w * out) / h,
                h >= 2,
                0 <= w * out,
        ;
        let (width, height) = pattern_dimensions(settings);
        let v = width as int;
        assert(scaled % 0x1_0000_0000 == scaled);
        assert(w * out < (v + 2) * h) by (nonlinear_arith)
            requires
                w * out < (scaled + 1) * h,
                scaled + 1 <= v + 2,
                h >= 2,
        ;
        if v > 2 {
            assert(v * h <= w * out) by (nonlinear_arith)
                requires
                    scaled * h <= w * out,
                    v <= scaled,
                    h >= 2,
            ;
        }
    }
}

} // verus!
