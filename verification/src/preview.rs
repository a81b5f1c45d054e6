//! Small pictures of what a source shows.

use vstd::prelude::*;
use vstd::string::*;

use crate::config;
use crate::exact;
use crate::float;
use crate::float::{Float, Precision};
use crate::media;
use crate::media::{push_size, push_string, push_strs, CaptureSettings};
use crate::shared_capture::{SourceFrame, SourcePixelFormat};
use crate::text;

verus! {

/// A picture with four bytes for each pixel: red, green, blue and opacity.
#[derive(Debug)]
pub struct CapturePreview {
    pub width: usize,
    pub height: usize,
    pub rgba: Vec<u8>,
}

/// The latest frame of a running capture and what it was captured with.
#[derive(Debug)]
pub struct CapturePreviewSnapshot {
    pub settings: CaptureSettings,
    pub frame: SourceFrame,
}

/// The snapshot of a capture, if it has delivered a frame.
pub fn preview_snapshot(settings: &CaptureSettings, frame: Option<SourceFrame>) -> (r: Option<
    CapturePreviewSnapshot,
>)
    ensures
        match r {
            Some(snapshot) => snapshot.settings@ == settings@ && frame == Some(snapshot.frame),
            None => frame is None,
        },
{
    match frame {
        Some(frame) => Some(CapturePreviewSnapshot { settings: settings.clone(), frame }),
        None => None,
    }
}

/// Why there is no picture of a frame.
#[derive(Clone, Copy, Debug, PartialEq, Eq, Structural)]
pub enum PreviewError {
    EmptyFrame,
    EmptyPreview,
    FrameOverflow,
    RgbaOverflow,
    YuvOverflow,
    OddYuv,
    FrameBytes { found: usize, expected: usize },
    PatternBytes { found: usize, expected: usize },
}

impl PreviewError {
    pub open spec fn text(self) -> Seq<char> {
        match self {
            PreviewError::EmptyFrame => "preview frame dimensions are empty"@,
            PreviewError::EmptyPreview => "preview dimensions must be non-zero"@,
            PreviewError::FrameOverflow => "preview frame dimensions overflow"@,
            PreviewError::RgbaOverflow => "RGBA preview frame size overflows"@,
            PreviewError::YuvOverflow => "YUV preview frame size overflows"@,
            PreviewError::OddYuv => "YUV420P preview dimensions must be even"@,
            PreviewError::FrameBytes { found, expected } => "preview frame has "@ + text::decimal(
                found as nat,
            ) + " bytes; expected "@ + text::decimal(expected as nat),
            PreviewError::PatternBytes { found, expected } => "FFmpeg test preview returned "@
                + text::decimal(found as nat) + " bytes, expected "@ + text::decimal(
                expected as nat,
            ),
        }
    }

    pub fn message(self) -> (r: String)
        ensures
            r@ == self.text(),
    {
        match self {
            PreviewError::EmptyFrame => "preview frame dimensions are empty".to_owned(),
            PreviewError::EmptyPreview => "preview dimensions must be non-zero".to_owned(),
            PreviewError::FrameOverflow => "preview frame dimensions overflow".to_owned(),
            PreviewError::RgbaOverflow => "RGBA preview frame size overflows".to_owned(),
            PreviewError::YuvOverflow => "YUV preview frame size overflows".to_owned(),
            PreviewError::OddYuv => "YUV420P preview dimensions must be even".to_owned(),
            PreviewError::FrameBytes { found, expected } => {
                let mut s = text::around_number(
                    "preview frame has ",
                    found as u64,
                    " bytes; expected ",
                );
                text::push_decimal(&mut s, expected as u64);
                s
            },
            PreviewError::PatternBytes { found, expected } => {
                let mut s = text::around_number(
                    "FFmpeg test preview returned ",
                    found as u64,
                    " bytes, expected ",
                );
                text::push_decimal(&mut s, expected as u64);
                s
            },
        }
    }
}

pub open spec fn smaller(a: Float, b: Float) -> Float {
    if float::less(b, a) {
        b
    } else {
        a
    }
}

fn smaller_of(a: Float, b: Float) -> (r: Float)
    requires
        a.wf(),
        b.wf(),
        a.precision == b.precision,
    ensures
        r == smaller(a, b),
        r.wf(),
        r.precision == a.precision,
        r == a || r == b,
{
    if float::is_less(b, a) {
        b
    } else {
        a
    }
}

/// The factor by which a picture shrinks to fit, in single precision. It never grows.
pub open spec fn scale(width: nat, height: nat, max_width: nat, max_height: nat) -> Float {
    let single = |n: nat| float::of_nat(Precision::Single, n);
    smaller(
        smaller(
            float::quotient(single(max_width), single(width)),
            float::quotient(single(max_height), single(height)),
        ),
        single(1),
    )
}

/// A side of the shrunk picture, at least one pixel.
pub open spec fn scaled_side(side: nat, scale: Float) -> nat {
    let pixels = float::rounded(float::product(float::of_nat(Precision::Single, side), scale));
    if pixels == 0 {
        1
    } else if pixels > usize::MAX {
        usize::MAX as nat
    } else {
        pixels
    }
}

pub open spec fn preview_size(width: nat, height: nat, max_width: nat, max_height: nat) -> (
    nat,
    nat,
) {
    let factor = scale(width, height, max_width, max_height);
    (scaled_side(width, factor), scaled_side(height, factor))
}

fn scale_side(side: usize, factor: Float) -> (r: usize)
    requires
        factor.wf(),
        factor.precision == Precision::Single,
        factor.within(1000),
    ensures
        r == scaled_side(side as nat, factor),
        r > 0,
{
    let pixels = float::rounded_to(
        float::multiply(float::integer(Precision::Single, side as u64), factor),
        usize::MAX as u64,
    );
    if pixels == 0 {
        1
    } else {
        pixels as usize
    }
}

/// The size of a picture that fits a frame into a given room.
pub fn preview_dimensions(width: usize, height: usize, max_width: usize, max_height: usize) -> (r: (
    usize,
    usize,
))
    requires
        width > 0,
        height > 0,
    ensures
        (r.0 as nat, r.1 as nat) == preview_size(
            width as nat,
            height as nat,
            max_width as nat,
            max_height as nat,
        ),
        r.0 > 0,
        r.1 > 0,
{
    let across = float::divide(
        float::integer(Precision::Single, max_width as u64),
        float::integer(Precision::Single, width as u64),
    );
    let down = float::divide(
        float::integer(Precision::Single, max_height as u64),
        float::integer(Precision::Single, height as u64),
    );
    let factor = smaller_of(smaller_of(across, down), float::integer(Precision::Single, 1));
    (scale_side(width, factor), scale_side(height, factor))
}

/// The pixel of a frame that a pixel of the picture shows.
pub open spec fn source_place(place: int, length: int, shrunk: int) -> int {
    place * length / shrunk
}

/// The bytes of a picture whose pixels are taken from a frame.
pub open spec fn sampled(
    width: int,
    height: int,
    preview_width: int,
    preview_height: int,
    pixel: spec_fn(int, int) -> Seq<u8>,
) -> Seq<u8> {
    Seq::new(
        (preview_width * preview_height * 4) as nat,
        |k: int|
            pixel(
                source_place((k / 4) % preview_width, width, preview_width),
                source_place((k / 4) / preview_width, height, preview_height),
            )[k % 4],
    )
}

pub(crate) fn place_in_source(place: usize, length: usize, shrunk: usize) -> (r: usize)
    requires
        place < shrunk,
        length > 0,
    ensures
        r == source_place(place as int, length as int, shrunk as int),
        r < length,
{
    proof {
        let p = place as int;
        let n = length as int;
        let s = shrunk as int;
        assert(p * n <= (s - 1) * n && (s - 1) * n < s * n && 0 <= p * n) by (nonlinear_arith)
            requires
                0 <= p < s,
                n > 0,
        ;
        assert(0 <= p * n / s < n) by (nonlinear_arith)
            requires
                0 <= p * n < s * n,
                s > 0,
        ;
        assert(p * n < 0x1_0000_0000_0000_0000 * 0x1_0000_0000_0000_0000) by (nonlinear_arith)
            requires
                0 <= p < 0x1_0000_0000_0000_0000,
                0 < n < 0x1_0000_0000_0000_0000,
        ;
    }
    (place as u128 * length as u128 / shrunk as u128) as usize
}

/// The bytes of a pixel in rows of four bytes each.
pub open spec fn pixel_of(rgba: Seq<u8>, width: int) -> spec_fn(int, int) -> Seq<u8> {
    |x: int, y: int| rgba.subrange((y * width + x) * 4, (y * width + x) * 4 + 4)
}

pub proof fn lemma_pixel_bounds(x: int, y: int, width: int, height: int)
    requires
        0 <= x < width,
        0 <= y < height,
    ensures
        0 <= y * width + x < width * height,
        0 <= y * width,
{
    assert(0 <= y * width && y * width + width <= width * height) by (nonlinear_arith)
        requires
            0 <= y,
            y + 1 <= height,
            0 < width,
    ;
}

pub(crate) fn push_pixel(
    rgba: &Vec<u8>,
    width: usize,
    height: usize,
    x: usize,
    y: usize,
    out: &mut Vec<u8>,
)
    requires
        x < width,
        y < height,
        width * height * 4 <= rgba@.len(),
    ensures
        final(out)@ == old(out)@ + pixel_of(rgba@, width as int)(x as int, y as int),
        pixel_of(rgba@, width as int)(x as int, y as int).len() == 4,
{
    proof {
        lemma_pixel_bounds(x as int, y as int, width as int, height as int);
        assert(rgba@.len() == rgba.len());
    }
    let at: usize = (y * width + x) * 4;
    out.push(rgba[at]);
    out.push(rgba[at + 1]);
    out.push(rgba[at + 2]);
    out.push(rgba[at + 3]);
    assert(out@ =~= old(out)@ + rgba@.subrange(at as int, at + 4));
}

/// Shrinks a picture to fit into a given room.
pub fn downscale_preview(
    width: usize,
    height: usize,
    rgba: &Vec<u8>,
    max_width: usize,
    max_height: usize,
) -> (r: CapturePreview)
    requires
        width > 0,
        height > 0,
        width * height * 4 <= rgba@.len(),
        ({
            let (w, h) = preview_size(
                width as nat,
                height as nat,
                max_width as nat,
                max_height as nat,
            );
            w * h * 4 <= usize::MAX
        }),
    ensures
        (r.width as nat, r.height as nat) == preview_size(
            width as nat,
            height as nat,
            max_width as nat,
            max_height as nat,
        ),
        r.rgba@ == sampled(
            width as int,
            height as int,
            r.width as int,
            r.height as int,
            pixel_of(rgba@, width as int),
        ),
{
    let (pw, ph) = preview_dimensions(width, height, max_width, max_height);
    let ghost pixel = pixel_of(rgba@, width as int);
    let ghost goal = sampled(width as int, height as int, pw as int, ph as int, pixel);
    let count: usize = pixel_count(pw, ph);
    let mut out: Vec<u8> = Vec::new();
    let mut p: usize = 0;
    while p < count
        invariant
            p <= count,
            count == pw * ph,
            pw * ph * 4 <= usize::MAX,
            pw > 0,
            ph > 0,
            width > 0,
            height > 0,
            width * height * 4 <= rgba@.len(),
            pixel == pixel_of(rgba@, width as int),
            goal == sampled(width as int, height as int, pw as int, ph as int, pixel),
            out@.len() == 4 * p,
            forall|k: int| 0 <= k < 4 * p ==> #[trigger] out@[k] == goal[k],
        decreases count - p,
    {
        proof {
            lemma_row(p as int, pw as int, ph as int);
        }
        let sx = place_in_source(p % pw, width, pw);
        let sy = place_in_source(p / pw, height, ph);
        let ghost before = out@;
        push_pixel(rgba, width, height, sx, sy, &mut out);
        let ghost bytes = pixel(sx as int, sy as int);
        assert forall|k: int| 0 <= k < 4 * (p + 1) implies #[trigger] out@[k] == goal[k] by {
            if k >= 4 * p {
                assert(k / 4 == p && k % 4 == k - 4 * p);
                assert(out@[k] == bytes[k - 4 * p]);
            } else {
                assert(out@[k] == before[k]);
            }
        }
        p += 1;
    }
    assert(out@ =~= goal);
    CapturePreview { width: pw, height: ph, rgba: out }
}

fn pixel_count(width: usize, height: usize) -> (r: usize)
    requires
        width * height * 4 <= usize::MAX,
    ensures
        r == width * height,
{
    assert(0 <= width * height <= width * height * 4) by (nonlinear_arith);
    width * height
}

pub proof fn lemma_row(p: int, width: int, height: int)
    requires
        0 <= p < width * height,
        width > 0,
    ensures
        0 <= p % width < width,
        0 <= p / width < height,
{
    assert(0 <= p / width < height) by (nonlinear_arith)
        requires
            0 <= p < width * height,
            width > 0,
    ;
}

/// The color of a pixel from its luma and chroma, with video range.
pub open spec fn color_byte(value: int) -> u8 {
    let level = (value + 128) / 256;
    if level < 0 {
        0
    } else if level > 255 {
        255
    } else {
        level as u8
    }
}

pub open spec fn rgb_of(y: u8, u: u8, v: u8) -> Seq<u8> {
    let c = if y < 16 {
        0
    } else {
        y - 16
    };
    let d = u - 128;
    let e = v - 128;
    seq![
        color_byte(298 * c + 409 * e),
        color_byte(298 * c - 100 * d - 208 * e),
        color_byte(298 * c + 516 * d),
        255,
    ]
}

fn to_byte(value: i32) -> (r: u8)
    requires
        -1_000_000 <= value <= 1_000_000,
    ensures
        r == color_byte(value as int),
{
    let shifted: i32 = value + 128;
    if shifted < 0 {
        0
    } else {
        let level: i32 = shifted / 256;
        if level > 255 {
            255
        } else {
            level as u8
        }
    }
}

pub fn yuv420_pixel(y: u8, u: u8, v: u8) -> (r: [u8; 4])
    ensures
        r@ == rgb_of(y, u, v),
{
    let c: i32 = if y < 16 {
        0
    } else {
        y as i32 - 16
    };
    let d: i32 = u as i32 - 128;
    let e: i32 = v as i32 - 128;
    let pixel = [
        to_byte(298 * c + 409 * e),
        to_byte(298 * c - 100 * d - 208 * e),
        to_byte(298 * c + 516 * d),
        255,
    ];
    assert(pixel@ =~= rgb_of(y, u, v));
    pixel
}

/// The bytes of a frame of a size, where they can be counted.
pub open spec fn frame_size(format: SourcePixelFormat, pixels: int) -> Result<int, PreviewError> {
    match format {
        SourcePixelFormat::Bgra => if pixels * 4 > usize::MAX {
            Err(PreviewError::RgbaOverflow)
        } else {
            Ok(pixels * 4)
        },
        SourcePixelFormat::Yuv420p => if pixels * 3 > usize::MAX {
            Err(PreviewError::YuvOverflow)
        } else {
            Ok(pixels * 3 / 2)
        },
    }
}

/// Why there is no picture of a frame.
pub open spec fn preview_refusal(frame: SourceFrame, max_width: usize, max_height: usize) -> Option<
    PreviewError,
> {
    let pixels = frame.width as int * frame.height as int;
    let (w, h) = preview_size(
        frame.width as nat,
        frame.height as nat,
        max_width as nat,
        max_height as nat,
    );
    if frame.width == 0 || frame.height == 0 {
        Some(PreviewError::EmptyFrame)
    } else if max_width == 0 || max_height == 0 {
        Some(PreviewError::EmptyPreview)
    } else if pixels > usize::MAX {
        Some(PreviewError::FrameOverflow)
    } else {
        match frame_size(frame.pixel_format, pixels) {
            Err(e) => Some(e),
            Ok(expected) => if frame.pixel_format == SourcePixelFormat::Yuv420p && (frame.width % 2
                != 0 || frame.height % 2 != 0) {
                Some(PreviewError::OddYuv)
            } else if frame.data@.len() != expected {
                Some(
                    PreviewError::FrameBytes {
                        found: frame.data@.len() as usize,
                        expected: expected as usize,
                    },
                )
            } else if w * h * 4 > usize::MAX {
                Some(PreviewError::FrameOverflow)
            } else {
                None
            },
        }
    }
}

/// The color of a frame's pixel.
pub open spec fn frame_pixel(frame: SourceFrame) -> spec_fn(int, int) -> Seq<u8> {
    let width = frame.width as int;
    let height = frame.height as int;
    match frame.pixel_format {
        SourcePixelFormat::Bgra => |x: int, y: int|
            {
                let at = (y * width + x) * 4;
                seq![
                    frame.data@[at + 2],
                    frame.data@[at + 1],
                    frame.data@[at],
                    frame.data@[at + 3],
                ]
            },
        SourcePixelFormat::Yuv420p => |x: int, y: int|
            {
                let chroma = (y / 2) * (width / 2) + x / 2;
                rgb_of(
                    frame.data@[y * width + x],
                    frame.data@[width * height + chroma],
                    frame.data@[width * height + (width / 2) * (height / 2) + chroma],
                )
            },
    }
}

proof fn lemma_chroma_bounds(x: int, y: int, width: int, height: int)
    requires
        0 <= x < width,
        0 <= y < height,
        width % 2 == 0,
        height % 2 == 0,
    ensures
        0 <= (y / 2) * (width / 2) + x / 2 < (width / 2) * (height / 2),
        0 <= (y / 2) * (width / 2),
        width * height + 2 * ((width / 2) * (height / 2)) == width * height * 3 / 2,
        0 <= (width / 2) * (height / 2),
{
    let a = width / 2;
    let b = height / 2;
    lemma_pixel_bounds(x / 2, y / 2, a, b);
    assert(width * height == 4 * (a * b)) by (nonlinear_arith)
        requires
            width == 2 * a,
            height == 2 * b,
    ;
}

fn checked_frame(frame: &SourceFrame, max_width: usize, max_height: usize) -> (r: Result<
    (usize, usize),
    PreviewError,
>)
    ensures
        match r {
            Err(e) => preview_refusal(*frame, max_width, max_height) == Some(e),
            Ok((w, h)) => preview_refusal(*frame, max_width, max_height) is None && (
                w as nat,
                h as nat,
            ) == preview_size(
                frame.width as nat,
                frame.height as nat,
                max_width as nat,
                max_height as nat,
            ) && w > 0 && h > 0,
        },
{
    let width = frame.width as usize;
    let height = frame.height as usize;
    if width == 0 || height == 0 {
        return Err(PreviewError::EmptyFrame);
    }
    if max_width == 0 || max_height == 0 {
        return Err(PreviewError::EmptyPreview);
    }
    let pixels: usize = match width.checked_mul(height) {
        Some(pixels) => pixels,
        None => {
            return Err(PreviewError::FrameOverflow);
        },
    };
    let expected: usize = match frame.pixel_format {
        SourcePixelFormat::Bgra => match pixels.checked_mul(4) {
            Some(expected) => expected,
            None => {
                return Err(PreviewError::RgbaOverflow);
            },
        },
        SourcePixelFormat::Yuv420p => match pixels.checked_mul(3) {
            Some(bytes) => bytes / 2,
            None => {
                return Err(PreviewError::YuvOverflow);
            },
        },
    };
    if frame.pixel_format == SourcePixelFormat::Yuv420p && (width % 2 != 0 || height % 2 != 0) {
        return Err(PreviewError::OddYuv);
    }
    if frame.data.len() != expected {
        return Err(PreviewError::FrameBytes { found: frame.data.len(), expected });
    }
    let (pw, ph) = preview_dimensions(width, height, max_width, max_height);
    let fits = match pw.checked_mul(ph) {
        Some(area) => match area.checked_mul(4) {
            Some(_) => true,
            None => false,
        },
        None => false,
    };
    if !fits {
        proof {
            assert(pw * ph * 4 >= pw * ph) by (nonlinear_arith);
        }
        return Err(PreviewError::FrameOverflow);
    }
    Ok((pw, ph))
}

fn push_frame_pixel(
    frame: &SourceFrame,
    max_width: usize,
    max_height: usize,
    x: usize,
    y: usize,
    out: &mut Vec<u8>,
)
    requires
        x < frame.width,
        y < frame.height,
        preview_refusal(*frame, max_width, max_height) is None,
    ensures
        final(out)@ == old(out)@ + frame_pixel(*frame)(x as int, y as int),
        frame_pixel(*frame)(x as int, y as int).len() == 4,
{
    let width = frame.width as usize;
    let height = frame.height as usize;
    proof {
        lemma_pixel_bounds(x as int, y as int, width as int, height as int);
    }
    match frame.pixel_format {
        SourcePixelFormat::Bgra => {
            let at: usize = (y * width + x) * 4;
            out.push(frame.data[at + 2]);
            out.push(frame.data[at + 1]);
            out.push(frame.data[at]);
            out.push(frame.data[at + 3]);
        },
        SourcePixelFormat::Yuv420p => {
            proof {
                lemma_chroma_bounds(x as int, y as int, width as int, height as int);
            }
            let chroma: usize = (y / 2) * (width / 2) + x / 2;
            let luma_size: usize = width * height;
            let chroma_size: usize = (width / 2) * (height / 2);
            let pixel = yuv420_pixel(
                frame.data[y * width + x],
                frame.data[luma_size + chroma],
                frame.data[luma_size + chroma_size + chroma],
            );
            out.push(pixel[0]);
            out.push(pixel[1]);
            out.push(pixel[2]);
            out.push(pixel[3]);
        },
    }
    assert(out@ =~= old(out)@ + frame_pixel(*frame)(x as int, y as int));
}

/// What comes of a frame: its refusal, or a picture that fits the bounds and is sampled from it.
pub open spec fn is_preview(
    frame: SourceFrame,
    max_width: usize,
    max_height: usize,
    r: Result<CapturePreview, PreviewError>,
) -> bool {
    match preview_refusal(frame, max_width, max_height) {
        Some(e) => r == Err::<CapturePreview, PreviewError>(e),
        None => {
            &&& r is Ok
            &&& (r->Ok_0.width as nat, r->Ok_0.height as nat) == preview_size(
                frame.width as nat,
                frame.height as nat,
                max_width as nat,
                max_height as nat,
            )
            &&& r->Ok_0.rgba@ == sampled(
                frame.width as int,
                frame.height as int,
                r->Ok_0.width as int,
                r->Ok_0.height as int,
                frame_pixel(frame),
            )
        },
    }
}

/// A small picture of a frame.
pub fn capture_frame_preview(frame: &SourceFrame, max_width: usize, max_height: usize) -> (r: Result<
    CapturePreview,
    PreviewError,
>)
    ensures
        is_preview(*frame, max_width, max_height, r),
{
    let (pw, ph) = match checked_frame(frame, max_width, max_height) {
        Ok(size) => size,
        Err(e) => {
            return Err(e);
        },
    };
    let width = frame.width as usize;
    let height = frame.height as usize;
    let ghost pixel = frame_pixel(*frame);
    let ghost goal = sampled(width as int, height as int, pw as int, ph as int, pixel);
    let count: usize = pixel_count(pw, ph);
    let mut out: Vec<u8> = Vec::new();
    let mut p: usize = 0;
    while p < count
        invariant
            p <= count,
            count == pw * ph,
            pw > 0,
            ph > 0,
            width == frame.width,
            height == frame.height,
            width > 0,
            height > 0,
            preview_refusal(*frame, max_width, max_height) is None,
            pixel == frame_pixel(*frame),
            goal == sampled(width as int, height as int, pw as int, ph as int, pixel),
            out@.len() == 4 * p,
            forall|k: int| 0 <= k < 4 * p ==> #[trigger] out@[k] == goal[k],
            pw * ph * 4 == goal.len(),
        decreases count - p,
    {
        proof {
            lemma_row(p as int, pw as int, ph as int);
        }
        let sx = place_in_source(p % pw, width, pw);
        let sy = place_in_source(p / pw, height, ph);
        let ghost before = out@;
        push_frame_pixel(frame, max_width, max_height, sx, sy, &mut out);
        let ghost bytes = pixel(sx as int, sy as int);
        assert forall|k: int| 0 <= k < 4 * (p + 1) implies #[trigger] out@[k] == goal[k] by {
            if k >= 4 * p {
                assert(k / 4 == p && k % 4 == k - 4 * p);
                assert(out@[k] == bytes[k - 4 * p]);
            } else {
                assert(out@[k] == before[k]);
            }
        }
        p += 1;
    }
    assert(out@ =~= goal);
    Ok(CapturePreview { width: pw, height: ph, rgba: out })
}

/// The arguments by which FFmpeg draws one frame of its test pattern.
pub open spec fn pattern_args(width: u32, height: u32, fps: u32) -> Seq<Seq<char>> {
    seq![
        "-hide_banner"@,
        "-loglevel"@,
        "error"@,
        "-f"@,
        "lavfi"@,
        "-i"@,
        "testsrc2=size="@ + media::plan::size_text(width, height) + ":rate="@ + text::decimal(fps as nat),
        "-frames:v"@,
        "1"@,
        "-f"@,
        "rawvideo"@,
        "-pix_fmt"@,
        "rgba"@,
        "pipe:1"@,
    ]
}

pub fn test_pattern_args(width: u32, height: u32, fps: u32) -> (r: Vec<String>)
    ensures
        config::texts(r@) == pattern_args(width, height, fps),
{
    let mut args: Vec<String> = Vec::new();
    push_strs(&mut args, vec!["-hide_banner", "-loglevel", "error", "-f", "lavfi", "-i"]);
    let mut source = "testsrc2=size=".to_owned();
    push_size(&mut source, width, height);
    source.append(":rate=");
    text::push_decimal(&mut source, fps as u64);
    push_string(&mut args, source);
    push_strs(
        &mut args,
        vec!["-frames:v", "1", "-f", "rawvideo", "-pix_fmt", "rgba", "pipe:1"],
    );
    assert(config::texts(args@) =~= pattern_args(width, height, fps));
    args
}

/// A small picture of the test pattern that FFmpeg drew.
pub fn capture_test_pattern_preview(
    width: u32,
    height: u32,
    rgba: &Vec<u8>,
    max_width: usize,
    max_height: usize,
) -> (r: Result<CapturePreview, PreviewError>)
    requires
        width > 0,
        height > 0,
        width * height * 4 <= usize::MAX,
        ({
            let (w, h) = preview_size(
                width as nat,
                height as nat,
                max_width as nat,
                max_height as nat,
            );
            w * h * 4 <= usize::MAX
        }),
    ensures
        if rgba@.len() < width * height * 4 {
            r == Err::<CapturePreview, PreviewError>(
                PreviewError::PatternBytes {
                    found: rgba@.len() as usize,
                    expected: (width * height * 4) as usize,
                },
            )
        } else {
            &&& r is Ok
            &&& (r->Ok_0.width as nat, r->Ok_0.height as nat) == preview_size(
                width as nat,
                height as nat,
                max_width as nat,
                max_height as nat,
            )
            &&& r->Ok_0.rgba@ == sampled(
                width as int,
                height as int,
                r->Ok_0.width as int,
                r->Ok_0.height as int,
                pixel_of(rgba@, width as int),
            )
        },
{
    let expected: usize = pixel_count(width as usize, height as usize) * 4;
    if rgba.len() < expected {
        return Err(PreviewError::PatternBytes { found: rgba.len(), expected });
    }
    Ok(downscale_preview(width as usize, height as usize, rgba, max_width, max_height))
}

/// The luma and the two chroma values of a color, with video range.
pub open spec fn luma_of(red: u8, green: u8, blue: u8) -> int {
    16 + (66 * red + 129 * green + 25 * blue + 128) / 256
}

pub open spec fn blue_chroma_of(red: u8, green: u8, blue: u8) -> int {
    128 + (112 * blue - 38 * red - 74 * green + 128) / 256
}

pub open spec fn red_chroma_of(red: u8, green: u8, blue: u8) -> int {
    128 + (112 * red - 94 * green - 18 * blue + 128) / 256
}

/// Whether four bytes show a color, as nearly as it can be told from its luma and chroma.
pub open spec fn shows_color(pixel: Seq<u8>, red: u8, green: u8, blue: u8) -> bool {
    &&& pixel.len() == 4
    &&& -5 <= pixel[0] - red <= 5
    &&& -5 <= pixel[1] - green <= 5
    &&& -5 <= pixel[2] - blue <= 5
    &&& pixel[3] == 255
}

/// A color survives the way to luma and chroma and back.
pub proof fn lemma_color_round_trip(red: u8, green: u8, blue: u8)
    ensures
        16 <= luma_of(red, green, blue) <= 235,
        16 <= blue_chroma_of(red, green, blue) <= 240,
        16 <= red_chroma_of(red, green, blue) <= 240,
        shows_color(
            rgb_of(
                luma_of(red, green, blue) as u8,
                blue_chroma_of(red, green, blue) as u8,
                red_chroma_of(red, green, blue) as u8,
            ),
            red,
            green,
            blue,
        ),
{
}

/// A YUV frame holds the luma of every pixel, behind it the blue chroma of every block of four
/// pixels, and behind that their red chroma: a pixel whose values in the three planes are those of a
/// color is shown in that color.
pub proof fn lemma_planes_follow_each_other(
    frame: SourceFrame,
    luma: Seq<u8>,
    blue_plane: Seq<u8>,
    red_plane: Seq<u8>,
    x: int,
    y: int,
    red: u8,
    green: u8,
    blue: u8,
)
    requires
        frame.pixel_format == SourcePixelFormat::Yuv420p,
        frame.width % 2 == 0,
        frame.height % 2 == 0,
        0 <= x < frame.width,
        0 <= y < frame.height,
        luma.len() == frame.width * frame.height,
        4 * blue_plane.len() == frame.width * frame.height,
        4 * red_plane.len() == frame.width * frame.height,
        frame.data@ == luma + blue_plane + red_plane,
        luma[y * frame.width + x] == luma_of(red, green, blue),
        blue_plane[(y / 2) * (frame.width / 2) + x / 2] == blue_chroma_of(red, green, blue),
        red_plane[(y / 2) * (frame.width / 2) + x / 2] == red_chroma_of(red, green, blue),
    ensures
        shows_color(frame_pixel(frame)(x, y), red, green, blue),
{
    let w = frame.width as int;
    let h = frame.height as int;
    lemma_pixel_bounds(x, y, w, h);
    lemma_chroma_bounds(x, y, w, h);
    lemma_color_round_trip(red, green, blue);
    let c = (y / 2) * (w / 2) + x / 2;
    assert(w * h == 4 * ((w / 2) * (h / 2))) by (nonlinear_arith)
        requires
            w == 2 * (w / 2),
            h == 2 * (h / 2),
    ;
    assert(frame.data@[y * w + x] == luma[y * w + x]);
    assert(frame.data@[w * h + c] == blue_plane[c]);
    assert(frame.data@[w * h + (w / 2) * (h / 2) + c] == red_plane[c]);
}

/// A picture of a frame in one color is in that color.
pub proof fn lemma_plain_frame_gives_a_plain_picture(
    frame: SourceFrame,
    max_width: usize,
    max_height: usize,
    picture: CapturePreview,
    k: int,
    red: u8,
    green: u8,
    blue: u8,
)
    requires
        is_preview(frame, max_width, max_height, Ok(picture)),
        frame.pixel_format == SourcePixelFormat::Yuv420p,
        forall|i: int|
            0 <= i < frame.data@.len() ==> #[trigger] frame.data@[i] == if i < frame.width
                * frame.height {
                luma_of(red, green, blue)
            } else if 4 * i < 5 * (frame.width * frame.height) {
                blue_chroma_of(red, green, blue)
            } else {
                red_chroma_of(red, green, blue)
            },
        picture.width > 0,
        0 <= k < picture.width * picture.height,
    ensures
        4 * k + 4 <= picture.rgba@.len(),
        shows_color(picture.rgba@.subrange(4 * k, 4 * k + 4), red, green, blue),
{
    let w = frame.width as int;
    let h = frame.height as int;
    let pw = picture.width as int;
    let ph = picture.height as int;
    lemma_row(k, pw, ph);
    let x = source_place(k % pw, w, pw);
    let y = source_place(k / pw, h, ph);
    lemma_place_in_range(k % pw, w, pw);
    lemma_place_in_range(k / pw, h, ph);
    let c = w * h / 4;
    lemma_pixel_bounds(x, y, w, h);
    lemma_chroma_bounds(x, y, w, h);
    lemma_color_round_trip(red, green, blue);
    let at = (y / 2) * (w / 2) + x / 2;
    let quarter = (w / 2) * (h / 2);
    assert(w * h == 4 * quarter) by (nonlinear_arith)
        requires
            w == 2 * (w / 2),
            h == 2 * (h / 2),
            quarter == (w / 2) * (h / 2),
    ;
    assert(frame.data@.len() == 6 * quarter);
    assert(frame.data@[y * w + x] == luma_of(red, green, blue));
    assert(frame.data@[w * h + at] == blue_chroma_of(red, green, blue));
    assert(frame.data@[w * h + quarter + at] == red_chroma_of(red, green, blue));
    let pixel = frame_pixel(frame)(x, y);
    assert(shows_color(pixel, red, green, blue));
    let bytes = picture.rgba@.subrange(4 * k, 4 * k + 4);
    assert forall|j: int| 0 <= j < 4 implies bytes[j] == pixel[j] by {
        assert((4 * k + j) / 4 == k && (4 * k + j) % 4 == j);
        assert(picture.rgba@[4 * k + j] == pixel[j]);
    }
}

proof fn lemma_place_in_range(place: int, length: int, shrunk: int)
    requires
        0 <= place < shrunk,
        length > 0,
    ensures
        0 <= source_place(place, length, shrunk) < length,
{
    assert(0 <= place * length / shrunk < length) by (nonlinear_arith)
        requires
            0 <= place < shrunk,
            length > 0,
    ;
}

/// Every pixel of the picture shows the pixel of the frame that stands in proportion: as far from the
/// left and from the top as the pixel is in the picture.
pub proof fn lemma_pixels_keep_their_place(place: int, length: int, shrunk: int)
    requires
        0 <= place < shrunk,
        length > 0,
    ensures
        ({
            let source = source_place(place, length, shrunk);
            &&& 0 <= source < length
            &&& source * shrunk <= place * length < (source + 1) * shrunk
            &&& shrunk == length ==> source == place
        }),
{
    let source = source_place(place, length, shrunk);
    lemma_place_in_range(place, length, shrunk);
    assert(source * shrunk <= place * length < (source + 1) * shrunk) by (nonlinear_arith)
        requires
            source == place * length / shrunk,
            shrunk > 0,
    ;
    if shrunk == length {
        assert(source == place) by (nonlinear_arith)
            requires
                source * shrunk <= place * shrunk < (source + 1) * shrunk,
                shrunk > 0,
        ;
    }
}

/// The picture of a frame that is not shrunk shows every pixel in its place; the bytes of a BGRA
/// frame come in the order blue, green, red.
pub proof fn lemma_unshrunk_picture_is_the_frame(
    frame: SourceFrame,
    max_width: usize,
    max_height: usize,
    picture: CapturePreview,
    x: int,
    y: int,
)
    requires
        is_preview(frame, max_width, max_height, Ok(picture)),
        picture.width == frame.width,
        picture.height == frame.height,
        frame.pixel_format == SourcePixelFormat::Bgra,
        0 <= x < frame.width,
        0 <= y < frame.height,
    ensures
        ({
            let at = 4 * (y * frame.width + x);
            &&& picture.rgba@.len() == frame.data@.len()
            &&& 0 <= at && at + 4 <= frame.data@.len()
            &&& picture.rgba@[at] == frame.data@[at + 2]
            &&& picture.rgba@[at + 1] == frame.data@[at + 1]
            &&& picture.rgba@[at + 2] == frame.data@[at]
            &&& picture.rgba@[at + 3] == frame.data@[at + 3]
        }),
{
    let w = frame.width as int;
    let h = frame.height as int;
    let k = y * w + x;
    lemma_pixel_bounds(x, y, w, h);
    assert(k / w == y && k % w == x) by (nonlinear_arith)
        requires
            k == y * w + x,
            0 <= x < w,
    ;
    lemma_pixels_keep_their_place(x, w, w);
    lemma_pixels_keep_their_place(y, h, h);
    assert(w * h * 4 == 4 * (w * h)) by (nonlinear_arith);
    let pixel = frame_pixel(frame)(x, y);
    assert forall|j: int| 0 <= j < 4 implies picture.rgba@[4 * k + j] == #[trigger] pixel[j] by {
        assert((4 * k + j) / 4 == k && (4 * k + j) % 4 == j);
    }
    assert(pixel[0] == frame.data@[4 * k + 2]);
    assert(pixel[1] == frame.data@[4 * k + 1]);
    assert(pixel[2] == frame.data@[4 * k]);
    assert(pixel[3] == frame.data@[4 * k + 3]);
}

proof fn lemma_single_quotient(max: nat, side: nat)
    requires
        0 < max < 0x10_0000,
        0 < side < 0x10_0000,
    ensures
        ({
            let q = float::quotient(
                float::of_nat(Precision::Single, max),
                float::of_nat(Precision::Single, side),
            );
            &&& q.wf()
            &&& q.precision == Precision::Single
            &&& q.within(1000)
            &&& q.significand > 0
            &&& exact::keeps_within(q, max * 0x80_0001, side * 0x80_0000)
            &&& exact::reaches(q, max * 0x7f_ffff, side * 0x80_0000)
            &&& max >= side ==> float::at_most(float::of_nat(Precision::Single, 1), q)
        }),
{
    let a = float::of_nat(Precision::Single, max);
    let b = float::of_nat(Precision::Single, side);
    exact::lemma_single_is_exact(max);
    exact::lemma_single_is_exact(side);
    float::lemma_single_is_normal(max);
    float::lemma_single_is_normal(side);
    exact::lemma_quotient_of_integers(a, max, b, side);
    let s = a.significand as nat;
    let d = b.significand as nat;
    let e = a.exponent - b.exponent;
    float::lemma_single_quotient_is_normal(a, b);
    let q = float::quotient(a, b);
    float::lemma_single_rounding_error(s, d, e);
    exact::lemma_scaled(s, d, e, max, side, 0, 0x80_0001, 0x80_0000);
    exact::lemma_scaled(max, side, 0, s, d, e, 0x7f_ffff, 0x80_0000);
    exact::lemma_transitive(
        q.significand as nat,
        1,
        q.exponent as int,
        s * 0x80_0001,
        d * 0x80_0000,
        e,
        max * 0x80_0001,
        side * 0x80_0000,
        0,
    );
    exact::lemma_transitive(
        max * 0x7f_ffff,
        side * 0x80_0000,
        0,
        s * 0x7f_ffff,
        d * 0x80_0000,
        e,
        q.significand as nat,
        1,
        q.exponent as int,
    );
    if max >= side {
        vstd::arithmetic::power2::lemma2_to64();
        exact::lemma_common_base(1, 1, 0, max, side, 0, 0);
        assert(1 * 1 * side <= max * 1 * 1) by (nonlinear_arith)
            requires
                side <= max,
        ;
        exact::lemma_transitive(1, 1, 0, max, side, 0, s, d, e);
        float::lemma_rounding_keeps_order(Precision::Single, 1, 1, 0, s, d, e);
    }
}

/// A side that is scaled by the quotient of the room and itself fills the room.
proof fn lemma_scaled_side_fills(side: nat, max: nat)
    requires
        0 < max < 0x10_0000,
        0 < side < 0x10_0000,
    ensures
        ({
            let q = float::quotient(
                float::of_nat(Precision::Single, max),
                float::of_nat(Precision::Single, side),
            );
            &&& scaled_side(side, q) == max
            &&& float::rounded(float::product(float::of_nat(Precision::Single, side), q)) == max
        }),
{
    vstd::arithmetic::power2::lemma2_to64();
    let n = float::of_nat(Precision::Single, side);
    let q = float::quotient(float::of_nat(Precision::Single, max), n);
    exact::lemma_single_is_exact(side);
    float::lemma_single_is_normal(side);
    lemma_single_quotient(max, side);
    float::lemma_significands(n, q);
    let p = float::product(n, q);
    let k = q.significand as nat;
    let f = q.exponent as int;
    let s = (n.significand * k) as nat;
    let e = n.exponent + f;
    exact::lemma_multiplied(n, side, k, f, max * 0x80_0001, side * 0x80_0000);
    exact::lemma_multiplied(n, side, k, f, max * 0x7f_ffff, side * 0x80_0000);
    float::lemma_single_rounding_error(s, 1, e);
    let v = p.significand as nat;
    let g = p.exponent as int;
    let up = side * (max * 0x80_0001);
    let down = side * (max * 0x7f_ffff);
    let wide = side * 0x80_0000;
    exact::lemma_scaled(s, 1, e, up, wide, 0, 0x80_0001, 0x80_0000);
    exact::lemma_scaled(down, wide, 0, s, 1, e, 0x7f_ffff, 0x80_0000);
    exact::lemma_transitive(
        v,
        1,
        g,
        s * 0x80_0001,
        1 * 0x80_0000,
        e,
        up * 0x80_0001,
        wide * 0x80_0000,
        0,
    );
    exact::lemma_transitive(
        down * 0x7f_ffff,
        wide * 0x80_0000,
        0,
        s * 0x7f_ffff,
        1 * 0x80_0000,
        e,
        v,
        1,
        g,
    );
    // Twice the product lies strictly between two odd numbers around twice the room.
    let m = max as int;
    let w = side as int;
    let wm = w * m;
    assert(up == wm * 0x80_0001 && down == wm * 0x7f_ffff) by (nonlinear_arith)
        requires
            up == w * (m * 0x80_0001),
            down == w * (m * 0x7f_ffff),
            wm == w * m,
    ;
    assert(wm < w * 0x10_0000) by (nonlinear_arith)
        requires
            wm == w * m,
            m < 0x10_0000,
            w > 0,
    ;
    exact::lemma_rounds_to_at_least(p, max);
    exact::lemma_rounds_to_at_least(p, max + 1);
    let odd = (2 * max - 1) as nat;
    let next = (2 * max + 1) as nat;
    assert(odd * (wide * 0x80_0000) <= (down * 0x7f_ffff) * 2) by (nonlinear_arith)
        requires
            odd == 2 * m - 1,
            wide == w * 0x80_0000,
            down == wm * 0x7f_ffff,
            wm == w * m,
            wm < w * 0x10_0000,
            w > 0,
    ;
    assert((up * 0x80_0001) * 2 < next * (wide * 0x80_0000)) by (nonlinear_arith)
        requires
            next == 2 * m + 1,
            wide == w * 0x80_0000,
            up == wm * 0x80_0001,
            wm == w * m,
            wm < w * 0x10_0000,
            w > 0,
    ;
    exact::lemma_fractions(p, odd, 2, down * 0x7f_ffff, wide * 0x80_0000);
    exact::lemma_fractions(p, up * 0x80_0001, wide * 0x80_0000, next, 2);
}

/// A picture fits into its room and is never larger than the frame. It is as large as that allows: it
/// keeps the size of the frame, or fills the room in one direction.
pub proof fn lemma_picture_fits(width: nat, height: nat, max_width: nat, max_height: nat)
    requires
        0 < width < 0x10_0000,
        0 < height < 0x10_0000,
        0 < max_width < 0x10_0000,
        0 < max_height < 0x10_0000,
    ensures
        ({
            let (w, h) = preview_size(width, height, max_width, max_height);
            &&& 0 < w <= width && w <= max_width
            &&& 0 < h <= height && h <= max_height
            &&& (w, h) == (width, height) || w == max_width || h == max_height
            &&& width <= max_width && height <= max_height ==> (w, h) == (width, height)
        }),
{
    let one = float::of_nat(Precision::Single, 1);
    let nw = float::of_nat(Precision::Single, width);
    let nh = float::of_nat(Precision::Single, height);
    let across = float::quotient(float::of_nat(Precision::Single, max_width), nw);
    let down = float::quotient(float::of_nat(Precision::Single, max_height), nh);
    let f = scale(width, height, max_width, max_height);
    lemma_single_quotient(max_width, width);
    lemma_single_quotient(max_height, height);
    exact::lemma_single_is_exact(1);
    float::lemma_single_is_normal(1);
    float::lemma_single_is_normal(width);
    float::lemma_single_is_normal(height);
    lemma_scaled_side_fills(width, max_width);
    lemma_scaled_side_fills(height, max_height);
    lemma_side_by_one(width, one);
    lemma_side_by_one(height, one);
    exact::lemma_at_most_is_not_less(across, down);
    exact::lemma_at_most_is_not_less(down, across);
    let inner = smaller(across, down);
    exact::lemma_at_most_is_not_less(inner, one);
    exact::lemma_at_most_is_not_less(one, inner);
    assert(float::at_most(f, one) && float::at_most(f, inner)) by {
        exact::lemma_reflexive(f);
        exact::lemma_total(
            inner.significand as nat,
            1,
            inner.exponent as int,
            one.significand as nat,
            1,
            one.exponent as int,
        );
    }
    assert(float::at_most(inner, across) && float::at_most(inner, down)) by {
        exact::lemma_reflexive(inner);
        exact::lemma_total(
            across.significand as nat,
            1,
            across.exponent as int,
            down.significand as nat,
            1,
            down.exponent as int,
        );
    }
    exact::lemma_at_most_is_transitive(f, inner, across);
    exact::lemma_at_most_is_transitive(f, inner, down);
    lemma_smaller_factor(width, f, across);
    lemma_smaller_factor(width, f, one);
    lemma_smaller_factor(height, f, down);
    lemma_smaller_factor(height, f, one);
    if f == inner {
        // The factor is one of the quotients, or as large as one.
        if width <= max_width && height <= max_height {
            assert(float::at_most(one, inner));
            lemma_smaller_factor(width, one, f);
            lemma_smaller_factor(height, one, f);
        }
    }
}

proof fn lemma_side_by_one(side: nat, one: Float)
    requires
        0 < side < 0x10_0000,
        one == float::of_nat(Precision::Single, 1),
    ensures
        scaled_side(side, one) == side,
        float::rounded(float::product(float::of_nat(Precision::Single, side), one)) == side,
{
    let n = float::of_nat(Precision::Single, side);
    exact::lemma_single_is_exact(1);
    exact::lemma_single_is_exact(side);
    float::lemma_single_is_normal(1);
    float::lemma_single_is_normal(side);
    float::lemma_significands(n, one);
    let k = one.significand as nat;
    let f = one.exponent as int;
    let s = (n.significand * k) as nat;
    let e = n.exponent + f;
    exact::lemma_multiplied(n, side, k, f, 1, 1);
    assert(side * 1 == side);
    float::lemma_rounding_is_exact(Precision::Single, s, 1, e, side, 0);
    exact::lemma_integer_rounds_to_itself(float::product(n, one), side);
}

proof fn lemma_smaller_factor(side: nat, a: Float, b: Float)
    requires
        0 < side < 0x10_0000,
        a.wf(),
        b.wf(),
        a.precision == Precision::Single,
        b.precision == Precision::Single,
        a.within(1000),
        b.within(1000),
        float::at_most(a, b),
    ensures
        scaled_side(side, a) <= scaled_side(side, b),
{
    let n = float::of_nat(Precision::Single, side);
    float::lemma_single_is_normal(side);
    float::lemma_products_keep_order(a, b, n);
    float::lemma_product_commutes(a, n);
    float::lemma_product_commutes(b, n);
    exact::lemma_rounded_keeps_order(float::product(n, a), float::product(n, b));
}

} // verus!
