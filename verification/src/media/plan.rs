//! How an encoder is run: sizes, rates, limits and arguments.

use vstd::prelude::*;
use vstd::string::*;

use crate::config;
use crate::media::{
    CaptureSettings, CaptureSettingsView, H264_LEVEL_31_MAX_BITRATE_BPS,
    H264_LEVEL_31_MAX_FRAME_SIZE_MACROBLOCKS, H264_LEVEL_31_MAX_MACROBLOCKS_PER_SECOND, VideoCodec,
};
use crate::shared_capture::SourcePixelFormat;
use crate::text;

verus! {

/// Why an encoder cannot run with the given source and settings.
#[derive(Clone, Copy, Debug, PartialEq, Eq, Structural)]
pub enum MediaError {
    SourceFps,
    OutputFps { output: u32, source: u32 },
    SourceDimensions,
    OutputHeight,
    OutputWidth,
    H264Output { width: u32, height: u32, fps: u32 },
    H264Bitrate { bitrate: u32 },
    Yuv420pDimensions,
    FrameSizeOverflow,
    Yuv420pSizeOverflow,
    BgraSizeOverflow,
    FrameDimensions { width: u32, height: u32, frame_width: u32, frame_height: u32 },
    FrameFormat { declared: SourcePixelFormat, delivered: SourcePixelFormat },
    FrameBytes {
        found: usize,
        expected: usize,
        width: u32,
        height: u32,
        pixel_format: SourcePixelFormat,
    },
}

/// `{width}x{height}`.
pub open spec fn size_text(width: u32, height: u32) -> Seq<char> {
    text::decimal(width as nat) + "x"@ + text::decimal(height as nat)
}

pub fn push_size(s: &mut String, width: u32, height: u32)
    ensures
        final(s)@ == old(s)@ + size_text(width, height),
{
    text::push_decimal(s, width as u64);
    s.append("x");
    text::push_decimal(s, height as u64);
    assert(s@ =~= old(s)@ + size_text(width, height));
}

impl MediaError {
    pub open spec fn text(self) -> Seq<char> {
        match self {
            MediaError::SourceFps => "source FPS must be greater than zero"@,
            MediaError::OutputFps { output, source } => "output FPS ("@ + text::decimal(
                output as nat,
            ) + ") cannot exceed source FPS ("@ + text::decimal(source as nat)
                + "); frame duplication would invalidate capture timing"@,
            MediaError::SourceDimensions => "source dimensions must be greater than zero"@,
            MediaError::OutputHeight => "output height must be greater than zero"@,
            MediaError::OutputWidth => "scaled output width exceeds u32"@,
            MediaError::H264Output { width, height, fps } => "requested H.264 output "@ + size_text(
                width,
                height,
            ) + " at "@ + text::decimal(fps as nat)
                + " FPS exceeds constrained-baseline level 3.1"@,
            MediaError::H264Bitrate { bitrate } => "requested H.264 bitrate "@ + text::decimal(
                bitrate as nat,
            ) + " exceeds constrained-baseline level 3.1's "@ + text::decimal(
                H264_LEVEL_31_MAX_BITRATE_BPS as nat,
            ) + " bps limit"@,
            MediaError::Yuv420pDimensions =>
                "shared source dimensions must be at least 2x2 and even for yuv420p"@,
            MediaError::FrameSizeOverflow => "shared source dimensions overflow frame size"@,
            MediaError::Yuv420pSizeOverflow =>
                "shared source dimensions overflow YUV420P frame size"@,
            MediaError::BgraSizeOverflow => "shared source dimensions overflow BGRA frame size"@,
            MediaError::FrameDimensions { width, height, frame_width, frame_height } =>
                "shared source frame dimensions changed from "@ + size_text(width, height) + " to "@
                + size_text(frame_width, frame_height),
            MediaError::FrameFormat { declared, delivered } =>
                "shared source pixel format changed from "@ + declared.spec_name() + " to "@
                + delivered.spec_name(),
            MediaError::FrameBytes { found, expected, width, height, pixel_format } =>
                "shared source frame has "@ + text::decimal(found as nat) + " bytes; expected "@
                + text::decimal(expected as nat) + " for "@ + size_text(width, height) + " "@
                + pixel_format.spec_name(),
        }
    }

    pub fn message(&self) -> (r: String)
        ensures
            r@ == self.text(),
    {
        match *self {
            MediaError::SourceFps => "source FPS must be greater than zero".to_owned(),
            MediaError::OutputFps { output, source } => {
                let mut s = "output FPS (".to_owned();
                text::push_decimal(&mut s, output as u64);
                s.append(") cannot exceed source FPS (");
                text::push_decimal(&mut s, source as u64);
                s.append("); frame duplication would invalidate capture timing");
                s
            },
            MediaError::SourceDimensions => "source dimensions must be greater than zero".to_owned(),
            MediaError::OutputHeight => "output height must be greater than zero".to_owned(),
            MediaError::OutputWidth => "scaled output width exceeds u32".to_owned(),
            MediaError::H264Output { width, height, fps } => {
                let mut s = "requested H.264 output ".to_owned();
                push_size(&mut s, width, height);
                s.append(" at ");
                text::push_decimal(&mut s, fps as u64);
                s.append(" FPS exceeds constrained-baseline level 3.1");
                s
            },
            MediaError::H264Bitrate { bitrate } => {
                let mut s = "requested H.264 bitrate ".to_owned();
                text::push_decimal(&mut s, bitrate as u64);
                s.append(" exceeds constrained-baseline level 3.1's ");
                text::push_decimal(&mut s, H264_LEVEL_31_MAX_BITRATE_BPS as u64);
                s.append(" bps limit");
                s
            },
            MediaError::Yuv420pDimensions =>
                "shared source dimensions must be at least 2x2 and even for yuv420p".to_owned(),
            MediaError::FrameSizeOverflow =>
                "shared source dimensions overflow frame size".to_owned(),
            MediaError::Yuv420pSizeOverflow =>
                "shared source dimensions overflow YUV420P frame size".to_owned(),
            MediaError::BgraSizeOverflow =>
                "shared source dimensions overflow BGRA frame size".to_owned(),
            MediaError::FrameDimensions { width, height, frame_width, frame_height } => {
                let mut s = "shared source frame dimensions changed from ".to_owned();
                push_size(&mut s, width, height);
                s.append(" to ");
                push_size(&mut s, frame_width, frame_height);
                s
            },
            MediaError::FrameFormat { declared, delivered } => {
                let mut s = "shared source pixel format changed from ".to_owned();
                s.append(declared.ffmpeg_name());
                s.append(" to ");
                s.append(delivered.ffmpeg_name());
                s
            },
            MediaError::FrameBytes { found, expected, width, height, pixel_format } => {
                let mut s = "shared source frame has ".to_owned();
                text::push_decimal(&mut s, found as u64);
                s.append(" bytes; expected ");
                text::push_decimal(&mut s, expected as u64);
                s.append(" for ");
                push_size(&mut s, width, height);
                s.append(" ");
                s.append(pixel_format.ffmpeg_name());
                s
            },
        }
    }
}

/// The rate at which an encoder emits frames. Every emitted frame has to correspond to one
/// captured frame, so the rate never exceeds that of the source.
pub open spec fn output_rate(source_fps: u32, configured: Option<u32>) -> Result<u32, MediaError> {
    if source_fps == 0 {
        Err(MediaError::SourceFps)
    } else {
        let wanted = config::max_u32(config::value_or(configured, source_fps), 1);
        if wanted > source_fps {
            Err(MediaError::OutputFps { output: wanted, source: source_fps })
        } else {
            Ok(wanted)
        }
    }
}

pub fn configured_output_fps(source_fps: u32, settings: &CaptureSettings) -> (r: Result<
    u32,
    MediaError,
>)
    ensures
        r == output_rate(source_fps, settings.output_fps),
{
    if source_fps == 0 {
        return Err(MediaError::SourceFps);
    }
    let configured: u32 = match settings.output_fps {
        Some(fps) => fps,
        None => source_fps,
    };
    let wanted: u32 = if configured >= 1 {
        configured
    } else {
        1
    };
    if wanted > source_fps {
        return Err(MediaError::OutputFps { output: wanted, source: source_fps });
    }
    Ok(wanted)
}

/// The least integer that is not below `a / b`.
pub open spec fn ceil_div(a: int, b: int) -> int {
    if a % b == 0 {
        a / b
    } else {
        a / b + 1
    }
}

/// The size of a scaled picture: the aspect ratio is kept and the width rounded up to the next
/// even number.
pub open spec fn scaled_size(
    source_width: u32,
    source_height: u32,
    height: Option<u32>,
) -> Result<(u32, u32), MediaError> {
    if source_width == 0 || source_height == 0 {
        Err(MediaError::SourceDimensions)
    } else {
        match height {
            None => Ok((source_width, source_height)),
            Some(output_height) => if output_height == 0 {
                Err(MediaError::OutputHeight)
            } else {
                let scaled = ceil_div(source_width * output_height, source_height as int);
                let even = ceil_div(
                    if scaled >= 2 {
                        scaled
                    } else {
                        2
                    },
                    2,
                ) * 2;
                if even > u32::MAX {
                    Err(MediaError::OutputWidth)
                } else {
                    Ok((even as u32, output_height))
                }
            },
        }
    }
}

pub fn output_dimensions(
    source_width: u32,
    source_height: u32,
    configured_output_height: Option<u32>,
) -> (r: Result<(u32, u32), MediaError>)
    ensures
        r == scaled_size(source_width, source_height, configured_output_height),
{
    if source_width == 0 || source_height == 0 {
        return Err(MediaError::SourceDimensions);
    }
    let output_height: u32 = match configured_output_height {
        Some(height) => height,
        None => return Ok((source_width, source_height)),
    };
    if output_height == 0 {
        return Err(MediaError::OutputHeight);
    }
    assert(source_width * output_height <= u32::MAX * u32::MAX) by (nonlinear_arith)
        requires
            0 <= source_width <= u32::MAX,
            0 <= output_height <= u32::MAX,
    ;
    let area: u64 = source_width as u64 * output_height as u64;
    let whole: u64 = area / source_height as u64;
    let scaled: u64 = if area % source_height as u64 == 0 {
        whole
    } else {
        whole + 1
    };
    let wide: u64 = if scaled >= 2 {
        scaled
    } else {
        2
    };
    let halved: u64 = if wide % 2 == 0 {
        wide / 2
    } else {
        wide / 2 + 1
    };
    let even: u64 = halved * 2;
    if even > u32::MAX as u64 {
        return Err(MediaError::OutputWidth);
    }
    Ok((even as u32, output_height))
}

/// Whether a picture fits H.264 level 3.1.
pub open spec fn fits_level_31(width: u32, height: u32, fps: u32) -> bool {
    let macroblocks = ceil_div(width as int, 16) * ceil_div(height as int, 16);
    &&& width > 0
    &&& height > 0
    &&& fps > 0
    &&& macroblocks <= H264_LEVEL_31_MAX_FRAME_SIZE_MACROBLOCKS
    &&& macroblocks * fps <= H264_LEVEL_31_MAX_MACROBLOCKS_PER_SECOND
}

pub fn h264_level_31_compatible(width: u32, height: u32, fps: u32) -> (r: bool)
    ensures
        r == fits_level_31(width, height, fps),
{
    if width == 0 || height == 0 || fps == 0 {
        return false;
    }
    let columns: u64 = if width % 16 == 0 {
        width as u64 / 16
    } else {
        width as u64 / 16 + 1
    };
    let rows: u64 = if height % 16 == 0 {
        height as u64 / 16
    } else {
        height as u64 / 16 + 1
    };
    assert(columns * rows <= 0x1000_0000 * 0x1000_0000) by (nonlinear_arith)
        requires
            0 <= columns <= 0x1000_0000,
            0 <= rows <= 0x1000_0000,
    ;
    let macroblocks: u64 = columns * rows;
    if macroblocks > H264_LEVEL_31_MAX_FRAME_SIZE_MACROBLOCKS {
        return false;
    }
    assert(macroblocks * fps <= 3600 * u32::MAX) by (nonlinear_arith)
        requires
            0 <= macroblocks <= 3600,
            0 <= fps <= u32::MAX,
    ;
    macroblocks * fps as u64 <= H264_LEVEL_31_MAX_MACROBLOCKS_PER_SECOND
}

pub fn h264_level_31_bitrate_compatible(bitrate_bps: u32) -> (r: bool)
    ensures
        r == (bitrate_bps <= H264_LEVEL_31_MAX_BITRATE_BPS),
{
    bitrate_bps <= H264_LEVEL_31_MAX_BITRATE_BPS
}

/// The bytes of a YUV 4:2:0 frame: one and a half per pixel.
pub open spec fn yuv420p_bytes(width: u32, height: u32) -> Result<usize, MediaError> {
    if width < 2 || height < 2 || width % 2 != 0 || height % 2 != 0 {
        Err(MediaError::Yuv420pDimensions)
    } else if width * height > usize::MAX {
        Err(MediaError::FrameSizeOverflow)
    } else if width * height * 3 > usize::MAX {
        Err(MediaError::Yuv420pSizeOverflow)
    } else {
        Ok((width * height * 3 / 2) as usize)
    }
}

fn pixel_count(width: u32, height: u32) -> (r: Option<usize>)
    ensures
        match r {
            Some(pixels) => pixels == width * height,
            None => width * height > usize::MAX,
        },
{
    assert(width * height <= u32::MAX * u32::MAX) by (nonlinear_arith)
        requires
            0 <= width <= u32::MAX,
            0 <= height <= u32::MAX,
    ;
    let pixels: u64 = width as u64 * height as u64;
    if pixels <= usize::MAX as u64 {
        Some(pixels as usize)
    } else {
        None
    }
}

pub fn yuv420p_frame_size(width: u32, height: u32) -> (r: Result<usize, MediaError>)
    ensures
        r == yuv420p_bytes(width, height),
{
    if width < 2 || height < 2 || width % 2 != 0 || height % 2 != 0 {
        return Err(MediaError::Yuv420pDimensions);
    }
    let pixels: usize = match pixel_count(width, height) {
        Some(pixels) => pixels,
        None => return Err(MediaError::FrameSizeOverflow),
    };
    match pixels.checked_mul(3) {
        Some(value) => Ok(value / 2),
        None => Err(MediaError::Yuv420pSizeOverflow),
    }
}

/// The bytes of a frame of a pixel format.
pub open spec fn frame_bytes(format: SourcePixelFormat, width: u32, height: u32) -> Result<
    usize,
    MediaError,
> {
    match format {
        SourcePixelFormat::Yuv420p => yuv420p_bytes(width, height),
        SourcePixelFormat::Bgra => if width * height * 4 > usize::MAX {
            Err(MediaError::BgraSizeOverflow)
        } else {
            Ok((width * height * 4) as usize)
        },
    }
}

pub fn source_pixel_format_frame_size(
    pixel_format: SourcePixelFormat,
    width: u32,
    height: u32,
) -> (r: Result<usize, MediaError>)
    ensures
        r == frame_bytes(pixel_format, width, height),
{
    match pixel_format {
        SourcePixelFormat::Yuv420p => yuv420p_frame_size(width, height),
        SourcePixelFormat::Bgra => {
            let pixels: usize = match pixel_count(width, height) {
                Some(pixels) => pixels,
                None => return Err(MediaError::BgraSizeOverflow),
            };
            match pixels.checked_mul(4) {
                Some(bytes) => Ok(bytes),
                None => Err(MediaError::BgraSizeOverflow),
            }
        },
    }
}

pub open spec fn str_texts(v: Seq<&str>) -> Seq<Seq<char>> {
    v.map_values(|s: &str| s@)
}

/// Appends texts to a list of arguments.
pub fn push_strs(args: &mut Vec<String>, more: Vec<&str>)
    ensures
        config::texts(final(args)@) == config::texts(old(args)@) + str_texts(more@),
{
    let ghost before = config::texts(args@);
    let mut i: usize = 0;
    while i < more.len()
        invariant
            i <= more@.len(),
            config::texts(args@) == before + str_texts(more@).take(i as int),
        decreases more@.len() - i,
    {
        let ghost grown = args@;
        args.push(more[i].to_owned());
        i += 1;
        assert(config::texts(args@) =~= config::texts(grown).push(str_texts(more@)[i - 1]));
        assert(config::texts(args@) =~= before + str_texts(more@).take(i as int));
    }
    assert(str_texts(more@).take(i as int) =~= str_texts(more@));
}

/// Appends a string to a list of arguments.
pub fn push_string(args: &mut Vec<String>, more: String)
    ensures
        config::texts(final(args)@) == config::texts(old(args)@).push(more@),
{
    args.push(more);
    assert(config::texts(args@) =~= config::texts(old(args)@).push(more@));
}

/// The encoder arguments of a codec up to the bitrate.
pub open spec fn codec_args_before(codec: VideoCodec) -> Seq<Seq<char>> {
    match codec {
        VideoCodec::Vp8 => seq![
            "-c:v"@, "libvpx"@, "-deadline"@, "realtime"@, "-cpu-used"@, "8"@,
            "-lag-in-frames"@, "0"@, "-auto-alt-ref"@, "0"@, "-error-resilient"@, "1"@,
            "-flags"@, "low_delay"@, "-max_delay"@, "0"@, "-b:v"@,
        ],
        VideoCodec::Vp9 => seq![
            "-c:v"@, "libvpx-vp9"@, "-deadline"@, "realtime"@, "-cpu-used"@, "8"@,
            "-row-mt"@, "1"@, "-lag-in-frames"@, "0"@, "-auto-alt-ref"@, "0"@,
            "-error-resilient"@, "1"@, "-flags"@, "low_delay"@, "-max_delay"@, "0"@, "-b:v"@,
        ],
        VideoCodec::H264 => seq![
            "-c:v"@, "libx264"@, "-preset"@, "ultrafast"@, "-tune"@, "zerolatency"@,
            "-profile:v"@, "baseline"@, "-level:v"@, "3.1"@, "-pix_fmt"@, "yuv420p"@,
            "-keyint_min"@, "1"@, "-sc_threshold"@, "0"@, "-x264-params"@,
            "repeat-headers=1:sliced-threads=0"@, "-flags"@, "low_delay"@, "-max_delay"@, "0"@,
            "-b:v"@,
        ],
    }
}

/// The encoder arguments of a codec behind the bitrate.
pub open spec fn codec_args_after(codec: VideoCodec) -> Seq<Seq<char>> {
    match codec {
        VideoCodec::Vp8 => seq![
            "-pix_fmt"@, "yuv420p"@, "-f"@, "ivf"@, "-flush_packets"@, "1"@, "pipe:1"@,
        ],
        VideoCodec::Vp9 => seq!["-f"@, "ivf"@, "-flush_packets"@, "1"@, "pipe:1"@],
        VideoCodec::H264 => seq!["-f"@, "h264"@, "-flush_packets"@, "1"@, "pipe:1"@],
    }
}

/// The encoder arguments: the keyframe distance, the scaling, and those of the codec.
pub open spec fn encode_args(
    codec: VideoCodec,
    output_height: Option<u32>,
    group: Option<Seq<char>>,
    bitrate: Seq<char>,
) -> Seq<Seq<char>> {
    (match group {
        Some(group) => seq!["-g"@, group],
        None => Seq::empty(),
    }) + (match output_height {
        Some(height) => seq!["-vf"@, "scale=-2:"@ + text::decimal(height as nat)],
        None => Seq::empty(),
    }) + codec_args_before(codec).push(bitrate) + codec_args_after(codec)
}

fn push_codec_args(args: &mut Vec<String>, codec: VideoCodec, bitrate: String)
    ensures
        config::texts(final(args)@) == config::texts(old(args)@) + codec_args_before(codec).push(bitrate@)
            + codec_args_after(codec),
{
    let before = match codec {
        VideoCodec::Vp8 => vec![
            "-c:v", "libvpx", "-deadline", "realtime", "-cpu-used", "8",
            "-lag-in-frames", "0", "-auto-alt-ref", "0", "-error-resilient", "1",
            "-flags", "low_delay", "-max_delay", "0", "-b:v",
        ],
        VideoCodec::Vp9 => vec![
            "-c:v", "libvpx-vp9", "-deadline", "realtime", "-cpu-used", "8",
            "-row-mt", "1", "-lag-in-frames", "0", "-auto-alt-ref", "0",
            "-error-resilient", "1", "-flags", "low_delay", "-max_delay", "0", "-b:v",
        ],
        VideoCodec::H264 => vec![
            "-c:v", "libx264", "-preset", "ultrafast", "-tune", "zerolatency",
            "-profile:v", "baseline", "-level:v", "3.1", "-pix_fmt", "yuv420p",
            "-keyint_min", "1", "-sc_threshold", "0", "-x264-params",
            "repeat-headers=1:sliced-threads=0", "-flags", "low_delay", "-max_delay", "0",
            "-b:v",
        ],
    };
    assert(str_texts(before@) =~= codec_args_before(codec));
    let after = match codec {
        VideoCodec::Vp8 => vec![
            "-pix_fmt", "yuv420p", "-f", "ivf", "-flush_packets", "1", "pipe:1",
        ],
        VideoCodec::Vp9 => vec!["-f", "ivf", "-flush_packets", "1", "pipe:1"],
        VideoCodec::H264 => vec!["-f", "h264", "-flush_packets", "1", "pipe:1"],
    };
    assert(str_texts(after@) =~= codec_args_after(codec));
    push_strs(args, before);
    push_string(args, bitrate);
    push_strs(args, after);
    assert(config::texts(args@) =~= config::texts(old(args)@) + codec_args_before(codec).push(bitrate@)
        + codec_args_after(codec));
}

/// The arguments with which an encoder of `codec` is started.
pub fn video_encode_args(
    codec: VideoCodec,
    output_height: Option<u32>,
    group: Option<String>,
    bitrate: String,
) -> (r: Vec<String>)
    ensures
        config::texts(r@) == encode_args(
            codec,
            output_height,
            config::optional_text(group),
            bitrate@,
        ),
{
    let mut args: Vec<String> = Vec::new();
    assert(config::texts(args@) =~= Seq::<Seq<char>>::empty());
    let ghost wanted_group: Option<Seq<char>> = config::optional_text(group);
    if let Some(group) = group {
        push_strs(&mut args, vec!["-g"]);
        push_string(&mut args, group);
    }
    let ghost keyframes = config::texts(args@);
    assert(keyframes =~= match wanted_group {
        Some(group) => seq!["-g"@, group],
        None => Seq::empty(),
    });
    if let Some(height) = output_height {
        push_strs(&mut args, vec!["-vf"]);
        let mut scale = "scale=-2:".to_owned();
        text::push_decimal(&mut scale, height as u64);
        push_string(&mut args, scale);
    }
    assert(config::texts(args@) =~= keyframes + match output_height {
        Some(height) => seq!["-vf"@, "scale=-2:"@ + text::decimal(height as nat)],
        None => Seq::empty(),
    });
    push_codec_args(&mut args, codec, bitrate);
    assert(config::texts(args@) =~= encode_args(codec, output_height, wanted_group, bitrate@));
    args
}

/// How an encoder is run on a source.
#[derive(Debug)]
pub struct EncoderPlan {
    pub width: u32,
    pub height: u32,
    pub pixel_format: SourcePixelFormat,
    pub frame_size: usize,
    pub output_fps: u32,
    pub args: Vec<String>,
}

/// The arguments that describe the raw frames at the encoder's input.
///
/// The input is not marked as unbuffered: a still window may yield a single frame, which an
/// unbuffered raw demuxer would hold back until a second one arrives.
pub open spec fn raw_input_args(
    format: SourcePixelFormat,
    width: u32,
    height: u32,
    output_fps: u32,
) -> Seq<Seq<char>> {
    seq![
        "-hide_banner"@, "-loglevel"@, "error"@, "-f"@, "rawvideo"@, "-pix_fmt"@,
        format.spec_name(), "-video_size"@, size_text(width, height), "-framerate"@,
        text::decimal(output_fps as nat), "-i"@, "pipe:0"@, "-an"@,
    ]
}

/// The first reason why an encoder cannot serve the settings.
pub open spec fn encoder_refusal(
    codec: VideoCodec,
    width: u32,
    height: u32,
    format: SourcePixelFormat,
    source_fps: u32,
    settings: CaptureSettingsView,
) -> Option<MediaError> {
    if frame_bytes(format, width, height) is Err {
        Some(frame_bytes(format, width, height)->Err_0)
    } else if output_rate(source_fps, settings.output_fps) is Err {
        Some(output_rate(source_fps, settings.output_fps)->Err_0)
    } else if codec != VideoCodec::H264 {
        None
    } else {
        let fps = output_rate(source_fps, settings.output_fps)->Ok_0;
        match scaled_size(width, height, settings.output_height) {
            Err(e) => Some(e),
            Ok((output_width, output_height)) => if !fits_level_31(
                output_width,
                output_height,
                fps,
            ) {
                Some(MediaError::H264Output { width: output_width, height: output_height, fps })
            } else if settings.bitrate > H264_LEVEL_31_MAX_BITRATE_BPS {
                Some(MediaError::H264Bitrate { bitrate: settings.bitrate })
            } else {
                None
            },
        }
    }
}

/// Plans an encoder for a source, or says why there can be none.
pub fn plan_encoder(
    codec: VideoCodec,
    width: u32,
    height: u32,
    pixel_format: SourcePixelFormat,
    source_fps: u32,
    settings: &CaptureSettings,
) -> (r: Result<EncoderPlan, MediaError>)
    ensures
        match r {
            Err(e) => encoder_refusal(codec, width, height, pixel_format, source_fps, settings@)
                == Some(e),
            Ok(plan) => {
                &&& encoder_refusal(codec, width, height, pixel_format, source_fps, settings@)
                    is None
                &&& plan.width == width
                &&& plan.height == height
                &&& plan.pixel_format == pixel_format
                &&& frame_bytes(pixel_format, width, height) == Ok::<usize, MediaError>(
                    plan.frame_size,
                )
                &&& output_rate(source_fps, settings.output_fps) == Ok::<u32, MediaError>(
                    plan.output_fps,
                )
                &&& config::texts(plan.args@) == planned_args(
                    codec,
                    pixel_format,
                    width,
                    height,
                    plan.output_fps,
                    settings.output_height,
                    settings.bitrate,
                )
            },
        },
{
    let frame_size: usize = match source_pixel_format_frame_size(pixel_format, width, height) {
        Ok(size) => size,
        Err(error) => return Err(error),
    };
    let output_fps: u32 = match configured_output_fps(source_fps, settings) {
        Ok(fps) => fps,
        Err(error) => return Err(error),
    };
    if codec == VideoCodec::H264 {
        let (output_width, output_height) = match output_dimensions(
            width,
            height,
            settings.output_height,
        ) {
            Ok(size) => size,
            Err(error) => return Err(error),
        };
        if !h264_level_31_compatible(output_width, output_height, output_fps) {
            return Err(
                MediaError::H264Output {
                    width: output_width,
                    height: output_height,
                    fps: output_fps,
                },
            );
        }
        if !h264_level_31_bitrate_compatible(settings.bitrate) {
            return Err(MediaError::H264Bitrate { bitrate: settings.bitrate });
        }
    }
    let mut args: Vec<String> = Vec::new();
    assert(config::texts(args@) =~= Seq::<Seq<char>>::empty());
    push_strs(
        &mut args,
        vec![
            "-hide_banner", "-loglevel", "error", "-f", "rawvideo", "-pix_fmt",
            pixel_format.ffmpeg_name(), "-video_size",
        ],
    );
    let mut size = String::new();
    push_size(&mut size, width, height);
    assert(size@ =~= size_text(width, height));
    push_string(&mut args, size);
    push_strs(&mut args, vec!["-framerate"]);
    push_string(&mut args, text::decimal_string(output_fps as u64));
    push_strs(&mut args, vec!["-i", "pipe:0", "-an"]);
    assert(config::texts(args@) =~= raw_input_args(pixel_format, width, height, output_fps));
    let mut encode = video_encode_args(
        codec,
        settings.output_height,
        Some(text::decimal_string(output_fps as u64)),
        text::decimal_string(settings.bitrate as u64),
    );
    let ghost input = args@;
    let ghost output = encode@;
    args.append(&mut encode);
    assert(config::texts(args@) =~= config::texts(input) + config::texts(output));
    Ok(EncoderPlan { width, height, pixel_format, frame_size, output_fps, args })
}

/// Whether a filter scales a picture to a height and to the even width that keeps its shape.
pub open spec fn scales_to(filter: Seq<char>, height: u32) -> bool {
    &&& "scale="@.is_prefix_of(filter)
    &&& text::split_once_seq(filter.skip(6), ':') matches Some((across, down)) && across == "-2"@
        && text::parse_unsigned(down, u32::MAX as nat) == Some(height as nat)
}

/// Whether a text is a number in decimal notation.
pub open spec fn denotes(arg: Seq<char>, n: u32) -> bool {
    text::parse_unsigned(arg, u32::MAX as nat) == Some(n as nat)
}

/// Whether a text is a width and a height with an `x` between them.
pub open spec fn denotes_size(arg: Seq<char>, width: u32, height: u32) -> bool {
    text::split_once_seq(arg, 'x') matches Some((across, down)) && denotes(across, width)
        && denotes(down, height)
}

/// The arguments of a planned encoder.
pub open spec fn planned_args(
    codec: VideoCodec,
    format: SourcePixelFormat,
    width: u32,
    height: u32,
    fps: u32,
    output_height: Option<u32>,
    bitrate: u32,
) -> Seq<Seq<char>> {
    raw_input_args(format, width, height, fps) + encode_args(
        codec,
        output_height,
        Some(text::decimal(fps as nat)),
        text::decimal(bitrate as nat),
    )
}

/// A number in decimal notation is made of digits.
pub proof fn lemma_decimal_has_no(n: nat, c: char)
    requires
        !text::is_digit(c),
    ensures
        forall|i: int| 0 <= i < text::decimal(n).len() ==> text::decimal(n)[i] != c,
        text::decimal(n).len() > 0,
{
    text::lemma_decimal_digits(n);
    assert forall|i: int| 0 <= i < text::decimal(n).len() implies text::decimal(n)[i] != c by {
        assert(text::is_digit(text::decimal(n)[i]));
    }
}

/// The text of a size denotes it.
pub proof fn lemma_size_text(width: u32, height: u32)
    ensures
        denotes_size(size_text(width, height), width, height),
{
    reveal_strlit("x");
    let w = text::decimal(width as nat);
    let h = text::decimal(height as nat);
    lemma_decimal_has_no(width as nat, 'x');
    text::lemma_split(w, 'x', h);
    assert(w + "x"@ =~= w.push('x'));
    text::lemma_decimal_round_trip(width as nat, u32::MAX as nat);
    text::lemma_decimal_round_trip(height as nat, u32::MAX as nat);
}

proof fn lemma_scale_text(height: u32)
    ensures
        scales_to("scale=-2:"@ + text::decimal(height as nat), height),
{
    reveal_strlit("scale=");
    reveal_strlit("scale=-2:");
    reveal_strlit("-2");
    let h = text::decimal(height as nat);
    let filter = "scale=-2:"@ + h;
    assert("scale="@ =~= filter.take(6));
    assert(filter.skip(6) =~= "-2"@.push(':') + h);
    text::lemma_split("-2"@, ':', h);
    text::lemma_decimal_round_trip(height as nat, u32::MAX as nat);
}

proof fn lemma_no_scaling_option(codec: VideoCodec)
    ensures
        forall|k: int|
            0 <= k < codec_args_before(codec).len() ==> #[trigger] codec_args_before(codec)[k]
                != "-vf"@,
        forall|k: int|
            0 <= k < codec_args_after(codec).len() ==> #[trigger] codec_args_after(codec)[k]
                != "-vf"@,
{
    reveal_strlit("-vf");
    reveal_strlit("-auto-alt-ref");
    reveal_strlit("-b:v");
    reveal_strlit("-c:v");
    reveal_strlit("-cpu-used");
    reveal_strlit("-deadline");
    reveal_strlit("-error-resilient");
    reveal_strlit("-f");
    reveal_strlit("-flags");
    reveal_strlit("-flush_packets");
    reveal_strlit("-keyint_min");
    reveal_strlit("-lag-in-frames");
    reveal_strlit("-level:v");
    reveal_strlit("-max_delay");
    reveal_strlit("-pix_fmt");
    reveal_strlit("-preset");
    reveal_strlit("-profile:v");
    reveal_strlit("-row-mt");
    reveal_strlit("-sc_threshold");
    reveal_strlit("-tune");
    reveal_strlit("-x264-params");
    reveal_strlit("0");
    reveal_strlit("1");
    reveal_strlit("3.1");
    reveal_strlit("8");
    reveal_strlit("baseline");
    reveal_strlit("h264");
    reveal_strlit("ivf");
    reveal_strlit("libvpx");
    reveal_strlit("libvpx-vp9");
    reveal_strlit("libx264");
    reveal_strlit("low_delay");
    reveal_strlit("pipe:1");
    reveal_strlit("realtime");
    reveal_strlit("repeat-headers=1:sliced-threads=0");
    reveal_strlit("ultrafast");
    reveal_strlit("yuv420p");
    reveal_strlit("zerolatency");
    assert("ivf"@[0] != "-vf"@[0] && "3.1"@[0] != "-vf"@[0]);
    assert("-vf"@.len() == 3);
    assert("-auto-alt-ref"@.len() == 13);
    assert("-b:v"@.len() == 4);
    assert("-c:v"@.len() == 4);
    assert("-cpu-used"@.len() == 9);
    assert("-deadline"@.len() == 9);
    assert("-error-resilient"@.len() == 16);
    assert("-f"@.len() == 2);
    assert("-flags"@.len() == 6);
    assert("-flush_packets"@.len() == 14);
    assert("-keyint_min"@.len() == 11);
    assert("-lag-in-frames"@.len() == 14);
    assert("-level:v"@.len() == 8);
    assert("-max_delay"@.len() == 10);
    assert("-pix_fmt"@.len() == 8);
    assert("-preset"@.len() == 7);
    assert("-profile:v"@.len() == 10);
    assert("-row-mt"@.len() == 7);
    assert("-sc_threshold"@.len() == 13);
    assert("-tune"@.len() == 5);
    assert("-x264-params"@.len() == 12);
    let before = codec_args_before(codec);
    let after = codec_args_after(codec);
    match codec {
        VideoCodec::Vp8 => {
            assert(before[0] != "-vf"@);
            assert(before[1] != "-vf"@);
            assert(before[2] != "-vf"@);
            assert(before[3] != "-vf"@);
            assert(before[4] != "-vf"@);
            assert(before[5] != "-vf"@);
            assert(before[6] != "-vf"@);
            assert(before[7] != "-vf"@);
            assert(before[8] != "-vf"@);
            assert(before[9] != "-vf"@);
            assert(before[10] != "-vf"@);
            assert(before[11] != "-vf"@);
            assert(before[12] != "-vf"@);
            assert(before[13] != "-vf"@);
            assert(before[14] != "-vf"@);
            assert(before[15] != "-vf"@);
            assert(before[16] != "-vf"@);
            assert(after[0] != "-vf"@);
            assert(after[1] != "-vf"@);
            assert(after[2] != "-vf"@);
            assert(after[3] != "-vf"@);
            assert(after[4] != "-vf"@);
            assert(after[5] != "-vf"@);
            assert(after[6] != "-vf"@);
            assert(before.len() == 17 && after.len() == 7);
        },
        VideoCodec::Vp9 => {
            assert(before[0] != "-vf"@);
            assert(before[1] != "-vf"@);
            assert(before[2] != "-vf"@);
            assert(before[3] != "-vf"@);
            assert(before[4] != "-vf"@);
            assert(before[5] != "-vf"@);
            assert(before[6] != "-vf"@);
            assert(before[7] != "-vf"@);
            assert(before[8] != "-vf"@);
            assert(before[9] != "-vf"@);
            assert(before[10] != "-vf"@);
            assert(before[11] != "-vf"@);
            assert(before[12] != "-vf"@);
            assert(before[13] != "-vf"@);
            assert(before[14] != "-vf"@);
            assert(before[15] != "-vf"@);
            assert(before[16] != "-vf"@);
            assert(before[17] != "-vf"@);
            assert(before[18] != "-vf"@);
            assert(after[0] != "-vf"@);
            assert(after[1] != "-vf"@);
            assert(after[2] != "-vf"@);
            assert(after[3] != "-vf"@);
            assert(after[4] != "-vf"@);
            assert(before.len() == 19 && after.len() == 5);
        },
        VideoCodec::H264 => {
            assert(before[0] != "-vf"@);
            assert(before[1] != "-vf"@);
            assert(before[2] != "-vf"@);
            assert(before[3] != "-vf"@);
            assert(before[4] != "-vf"@);
            assert(before[5] != "-vf"@);
            assert(before[6] != "-vf"@);
            assert(before[7] != "-vf"@);
            assert(before[8] != "-vf"@);
            assert(before[9] != "-vf"@);
            assert(before[10] != "-vf"@);
            assert(before[11] != "-vf"@);
            assert(before[12] != "-vf"@);
            assert(before[13] != "-vf"@);
            assert(before[14] != "-vf"@);
            assert(before[15] != "-vf"@);
            assert(before[16] != "-vf"@);
            assert(before[17] != "-vf"@);
            assert(before[18] != "-vf"@);
            assert(before[19] != "-vf"@);
            assert(before[20] != "-vf"@);
            assert(before[21] != "-vf"@);
            assert(before[22] != "-vf"@);
            assert(after[0] != "-vf"@);
            assert(after[1] != "-vf"@);
            assert(after[2] != "-vf"@);
            assert(after[3] != "-vf"@);
            assert(after[4] != "-vf"@);
            assert(before.len() == 23 && after.len() == 5);
        },
    }
}

/// A picture is scaled to the height that the settings ask for, whatever the codec, by the only
/// scaling option there is; without such a height it is not scaled.
pub proof fn lemma_picture_is_scaled_to_the_height(
    codec: VideoCodec,
    format: SourcePixelFormat,
    width: u32,
    height: u32,
    fps: u32,
    output_height: Option<u32>,
    bitrate: u32,
)
    ensures
        ({
            let args = planned_args(codec, format, width, height, fps, output_height, bitrate);
            match output_height {
                Some(wanted) => {
                    &&& exists|k: int| 0 <= k < args.len() && #[trigger] args[k] == "-vf"@
                    &&& forall|k: int|
                        0 <= k < args.len() && #[trigger] args[k] == "-vf"@ ==> k + 1 < args.len()
                            && scales_to(args[k + 1], wanted)
                },
                None => forall|k: int| 0 <= k < args.len() ==> #[trigger] args[k] != "-vf"@,
            }
        }),
{
    reveal_strlit("-vf");
    reveal_strlit("-g");
    reveal_strlit("-hide_banner");
    reveal_strlit("-loglevel");
    reveal_strlit("error");
    reveal_strlit("-f");
    reveal_strlit("rawvideo");
    reveal_strlit("-pix_fmt");
    reveal_strlit("-video_size");
    reveal_strlit("-framerate");
    reveal_strlit("-i");
    reveal_strlit("pipe:0");
    reveal_strlit("-an");
    reveal_strlit("yuv420p");
    reveal_strlit("bgra");
    let args = planned_args(codec, format, width, height, fps, output_height, bitrate);
    let input = raw_input_args(format, width, height, fps);
    let before = codec_args_before(codec);
    let after = codec_args_after(codec);
    lemma_decimal_has_no(fps as nat, '-');
    lemma_decimal_has_no(bitrate as nat, '-');
    lemma_decimal_has_no(width as nat, '-');
    lemma_no_scaling_option(codec);
    let rate = text::decimal(fps as nat);
    let bits = text::decimal(bitrate as nat);
    assert(rate != "-vf"@) by {
        assert(rate[0] != '-');
    }
    assert(bits != "-vf"@) by {
        assert(bits[0] != '-');
    }
    assert(size_text(width, height)[0] == text::decimal(width as nat)[0]);
    assert(size_text(width, height) != "-vf"@);
    assert(input.len() == 14);
    assert("-an"@[1] != "-vf"@[1]);
    assert("-video_size"@.len() == 11 && "-vf"@.len() == 3);
    assert(input[0] != "-vf"@);
    assert(input[1] != "-vf"@);
    assert(input[2] != "-vf"@);
    assert(input[3] != "-vf"@);
    assert(input[4] != "-vf"@);
    assert(input[5] != "-vf"@);
    assert(input[6] != "-vf"@);
    assert(input[7] != "-vf"@);
    assert(input[8] != "-vf"@);
    assert(input[9] != "-vf"@);
    assert(input[10] != "-vf"@);
    assert(input[11] != "-vf"@);
    assert(input[12] != "-vf"@);
    assert(input[13] != "-vf"@);
    assert forall|k: int| 0 <= k < 14 implies #[trigger] args[k] != "-vf"@ by {
        assert(args[k] == input[k]);
    }
    assert(args[14] == "-g"@ && args[15] == rate);
    let start: int = if output_height is Some {
        18
    } else {
        16
    };
    assert forall|k: int| start <= k < args.len() implies #[trigger] args[k] != "-vf"@ by {
        let j = k - start;
        if j < before.len() {
            assert(args[k] == before[j]);
        } else if j == before.len() {
            assert(args[k] == bits);
        } else {
            assert(args[k] == after[j - before.len() - 1]);
        }
    }
    if let Some(wanted) = output_height {
        lemma_scale_text(wanted);
        assert(args[16] == "-vf"@);
        assert(args[17] == "scale=-2:"@ + text::decimal(wanted as nat));
        assert(args[17] != "-vf"@) by {
            reveal_strlit("scale=-2:");
            assert(args[17][0] == 's');
        }
    }
}

/// Whether an option with a value that satisfies a predicate stands among some arguments.
pub open spec fn has_option(
    args: Seq<Seq<char>>,
    from: int,
    name: Seq<char>,
    value: spec_fn(Seq<char>) -> bool,
) -> bool {
    exists|k: int| from <= k < args.len() - 1 && #[trigger] args[k] == name && value(args[k + 1])
}

/// What an encoder is told about its input: the format, the size and the rate of the frames. And
/// about its output: the encoder of the codec, a key frame every second, the bitrate and the
/// container. The output begins behind the fourteen arguments about the input.
pub proof fn lemma_encoder_is_told_what_it_needs(
    codec: VideoCodec,
    format: SourcePixelFormat,
    width: u32,
    height: u32,
    fps: u32,
    output_height: Option<u32>,
    bitrate: u32,
)
    ensures
        ({
            let args = planned_args(codec, format, width, height, fps, output_height, bitrate);
            let input = args.take(14);
            &&& has_option(
                input,
                0,
                "-pix_fmt"@,
                |a: Seq<char>|
                    a == match format {
                        SourcePixelFormat::Yuv420p => "yuv420p"@,
                        SourcePixelFormat::Bgra => "bgra"@,
                    },
            )
            &&& has_option(
                input,
                0,
                "-video_size"@,
                |a: Seq<char>| denotes_size(a, width, height),
            )
            &&& has_option(input, 0, "-framerate"@, |a: Seq<char>| denotes(a, fps))
            &&& has_option(input, 0, "-i"@, |a: Seq<char>| a == "pipe:0"@)
            &&& has_option(args, 14, "-g"@, |a: Seq<char>| denotes(a, fps))
            &&& has_option(args, 14, "-b:v"@, |a: Seq<char>| denotes(a, bitrate))
            &&& has_option(
                args,
                14,
                "-c:v"@,
                |a: Seq<char>|
                    a == match codec {
                        VideoCodec::Vp8 => "libvpx"@,
                        VideoCodec::Vp9 => "libvpx-vp9"@,
                        VideoCodec::H264 => "libx264"@,
                    },
            )
            &&& has_option(
                args,
                14,
                "-f"@,
                |a: Seq<char>|
                    a == match codec {
                        VideoCodec::H264 => "h264"@,
                        _ => "ivf"@,
                    },
            )
            &&& args.last() == "pipe:1"@
            &&& codec == VideoCodec::H264 ==> has_option(
                args,
                14,
                "-level:v"@,
                |a: Seq<char>| a == "3.1"@,
            ) && has_option(args, 14, "-profile:v"@, |a: Seq<char>| a == "baseline"@)
        }),
{
    let args = planned_args(codec, format, width, height, fps, output_height, bitrate);
    let input = args.take(14);
    let before = codec_args_before(codec);
    let after = codec_args_after(codec);
    lemma_size_text(width, height);
    text::lemma_decimal_round_trip(fps as nat, u32::MAX as nat);
    text::lemma_decimal_round_trip(bitrate as nat, u32::MAX as nat);
    let start: int = if output_height is Some {
        18
    } else {
        16
    };
    assert(input =~= raw_input_args(format, width, height, fps));
    assert(input[5] == "-pix_fmt"@ && input[7] == "-video_size"@ && input[9] == "-framerate"@
        && input[11] == "-i"@);
    assert(args[14] == "-g"@ && args[15] == text::decimal(fps as nat));
    assert forall|j: int| 0 <= j < before.len() implies args[start + j] == before[j] by {}
    let at = start + before.len();
    assert(args[at] == text::decimal(bitrate as nat));
    assert(args[at - 1] == "-b:v"@);
    assert(args[start] == "-c:v"@ && args[start + 1] == before[1]);
    assert forall|j: int| 0 <= j < after.len() implies args[at + 1 + j] == after[j] by {}
    let f: int = if codec == VideoCodec::Vp8 {
        2
    } else {
        0
    };
    assert(args[at + 1 + f] == "-f"@ && args[at + 2 + f] == after[f + 1]);
    assert(args.last() == after[after.len() - 1]);
    if codec == VideoCodec::H264 {
        assert(args[start + 6] == "-profile:v"@ && args[start + 7] == before[7]);
        assert(args[start + 8] == "-level:v"@ && args[start + 9] == before[9]);
    }
}

/// A scaled picture has the wanted height and the smallest even width that is not narrower than its
/// shape asks for.
pub proof fn lemma_scaled_picture_keeps_its_shape(
    source_width: u32,
    source_height: u32,
    height: u32,
)
    requires
        source_width > 0,
        source_height > 0,
        height > 0,
    ensures
        match scaled_size(source_width, source_height, Some(height)) {
            Ok((w, h)) => {
                &&& h == height
                &&& w % 2 == 0
                &&& w * source_height >= source_width * height
                &&& w > 2 ==> (w - 2) * source_height < source_width * height
            },
            Err(e) => e == MediaError::OutputWidth,
        },
        scaled_size(source_width, source_height, None) == Ok::<(u32, u32), MediaError>(
            (source_width, source_height),
        ),
        height == source_height && source_width % 2 == 0 ==> scaled_size(
            source_width,
            source_height,
            Some(height),
        ) == Ok::<(u32, u32), MediaError>((source_width, source_height)),
{
    let a = source_width * height;
    let b = source_height as int;
    let q = a / b;
    let r = a % b;
    assert(a > 0) by (nonlinear_arith)
        requires
            a == source_width * height,
            source_width > 0,
            height > 0,
    ;
    assert(a == q * b + r && 0 <= r < b && q >= 0) by (nonlinear_arith)
        requires
            q == a / b,
            r == a % b,
            b > 0,
            a >= 0,
    ;
    let scaled = ceil_div(a, b);
    assert(scaled * b >= a && (scaled - 1) * b < a) by (nonlinear_arith)
        requires
            a == q * b + r,
            0 <= r < b,
            (r == 0 && scaled == q) || (r > 0 && scaled == q + 1),
    ;
    let least = if scaled >= 2 {
        scaled
    } else {
        2
    };
    let even = ceil_div(least, 2) * 2;
    assert(even == least || even == least + 1);
    assert(even % 2 == 0);
    assert(even * b >= scaled * b) by (nonlinear_arith)
        requires
            even >= scaled,
            b > 0,
    ;
    if even > 2 {
        assert(even - 2 <= scaled - 1);
        assert((even - 2) * b <= (scaled - 1) * b) by (nonlinear_arith)
            requires
                even - 2 <= scaled - 1,
                b > 0,
        ;
    }
    if height == source_height && source_width % 2 == 0 {
        assert(scaled == source_width) by (nonlinear_arith)
            requires
                scaled * b >= a,
                (scaled - 1) * b < a,
                a == source_width * b,
                b > 0,
        ;
    }
}

/// What fits level 3.1 has at most 3600 blocks of 16 by 16 pixels, and 108000 of them a second; and
/// what is made of whole blocks and has no more fits.
pub proof fn lemma_level_31_limits(width: u32, height: u32, fps: u32)
    ensures
        fits_level_31(width, height, fps) ==> width * height <= 3600 * 256 && width * height * fps
            <= 108_000 * 256,
        width > 0 && height > 0 && fps > 0 && width % 16 == 0 && height % 16 == 0 && width * height
            <= 3600 * 256 && width * height * fps <= 108_000 * 256 ==> fits_level_31(
            width,
            height,
            fps,
        ),
{
    let c = ceil_div(width as int, 16);
    let r = ceil_div(height as int, 16);
    let m = c * r;
    let f = fps as int;
    let w = width as int;
    let h = height as int;
    assert(w * h <= 256 * m) by (nonlinear_arith)
        requires
            0 <= w <= 16 * c,
            0 <= h <= 16 * r,
            m == c * r,
    ;
    assert(w * h * f <= 256 * (m * f)) by (nonlinear_arith)
        requires
            w * h <= 256 * m,
            f >= 0,
    ;
    if width % 16 == 0 && height % 16 == 0 {
        assert(w * h == 256 * m) by (nonlinear_arith)
            requires
                w == 16 * c,
                h == 16 * r,
                m == c * r,
        ;
        assert(w * h * f == 256 * (m * f)) by (nonlinear_arith)
            requires
                w * h == 256 * m,
        ;
    }
}

/// An encoder never emits more frames than its source delivers, and as many as the settings ask for.
pub proof fn lemma_rate_follows_the_source(source_fps: u32, configured: Option<u32>)
    ensures
        match output_rate(source_fps, configured) {
            Ok(fps) => 0 < fps <= source_fps && (configured is Some && configured->0 > 0 ==> fps
                == configured->0) && (configured is None ==> fps == source_fps),
            Err(_) => source_fps == 0 || (configured is Some && configured->0 > source_fps),
        },
{
}

/// A frame of either format has a byte for everything its pixels need.
pub proof fn lemma_frame_bytes(format: SourcePixelFormat, width: u32, height: u32)
    ensures
        frame_bytes(format, width, height) matches Ok(bytes) ==> match format {
            SourcePixelFormat::Yuv420p => 2 * bytes == 3 * (width * height) && width % 2 == 0
                && height % 2 == 0,
            SourcePixelFormat::Bgra => bytes == 4 * (width * height),
        },
{
    if width % 2 == 0 {
        let half = width as int / 2;
        let h = height as int;
        assert(width * height == 2 * (half * h)) by (nonlinear_arith)
            requires
                width == 2 * half,
                h == height,
        ;
        assert(width * height * 3 == 3 * (width * height)) by (nonlinear_arith);
    }
    assert(width * height * 4 == 4 * (width * height)) by (nonlinear_arith);
}

/// An encoder is refused exactly where one of its numbers does not work out: the bytes of a frame, a
/// frame rate above the source's, and for H.264 a picture or a bitrate beyond its level.
pub proof fn lemma_refused_encoders(
    codec: VideoCodec,
    width: u32,
    height: u32,
    format: SourcePixelFormat,
    source_fps: u32,
    settings: CaptureSettingsView,
)
    ensures
        ({
            let refused = encoder_refusal(codec, width, height, format, source_fps, settings);
            let rate_fits = source_fps > 0 && (settings.output_fps is None
                || settings.output_fps->0 <= source_fps);
            &&& !rate_fits ==> refused is Some
            &&& frame_bytes(format, width, height) is Err ==> refused is Some
            &&& codec == VideoCodec::H264 && settings.bitrate > 14_000_000 ==> refused is Some
            &&& codec != VideoCodec::H264 && rate_fits && frame_bytes(format, width, height) is Ok
                ==> refused is None
            &&& refused is None && codec == VideoCodec::H264 ==> {
                let size = scaled_size(width, height, settings.output_height);
                &&& size is Ok
                &&& fits_level_31(
                    size->Ok_0.0,
                    size->Ok_0.1,
                    output_rate(source_fps, settings.output_fps)->Ok_0,
                )
            }
        }),
{
}

} // verus!
