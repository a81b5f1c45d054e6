//! The picture that stands for the test pattern until one was drawn.

use vstd::prelude::*;

verus! {

/// The most pixels whose samples, of eight bytes a pixel at most, the address space of every machine
/// holds.
pub const MAX_PIXELS: u64 = 0xfff_ffff;

pub open spec fn be32(bytes: Seq<u8>, at: int) -> nat {
    bytes[at] as nat * 0x100_0000 + bytes[at + 1] as nat * 0x1_0000 + bytes[at + 2] as nat * 0x100
        + bytes[at + 3] as nat
}

/// Whether the samples of a PNG file fit in memory. The file states its width and height behind its
/// signature and the head of its first chunk.
pub open spec fn fits(png: Seq<u8>) -> bool {
    png.len() >= 24 ==> be32(png, 16) * be32(png, 20) <= MAX_PIXELS
}

/// The first picture of a PNG file: its width and height, whether its samples are red, green and
/// blue, and its samples.
pub uninterp spec fn png_image(png: Seq<u8>) -> Option<(u32, u32, bool, Seq<u8>)>;

/// A decoded picture.
#[derive(Debug)]
pub struct DecodedImage {
    pub width: u32,
    pub height: u32,
    pub is_rgb: bool,
    pub samples: Vec<u8>,
}

pub open spec fn image_view(image: Option<DecodedImage>) -> Option<(u32, u32, bool, Seq<u8>)> {
    match image {
        Some(image) => Some((image.width, image.height, image.is_rgb, image.samples@)),
        None => None,
    }
}

/// Decodes with `png::Decoder` and its `Reader`: reads the header with `read_info` and the first
/// frame with `next_frame` into a buffer of `output_buffer_size` bytes. What comes out depends on
/// the file alone; a file that does not decode gives none. A picture whose buffer a machine could not
/// hold is left out.
#[verifier::external_body]
fn decode_png(png: &[u8]) -> (r: Option<DecodedImage>)
    requires
        fits(png@),
    ensures
        image_view(r) == png_image(png@),
{
    let mut reader = png::Decoder::new(std::io::Cursor::new(png)).read_info().ok()?;
    let mut samples = vec![0_u8; reader.output_buffer_size()?];
    let info = reader.next_frame(&mut samples).ok()?;
    samples.truncate(info.buffer_size());
    Some(DecodedImage {
        width: info.width,
        height: info.height,
        is_rgb: matches!(info.color_type, png::ColorType::Rgb),
        samples,
    })
}

fn read_be32(bytes: &[u8], at: usize) -> (r: u64)
    requires
        at + 4 <= bytes@.len(),
    ensures
        r == be32(bytes@, at as int),
        r <= u32::MAX,
{
    bytes[at] as u64 * 0x100_0000 + bytes[at + 1] as u64 * 0x1_0000 + bytes[at + 2] as u64 * 0x100
        + bytes[at + 3] as u64
}

/// Whether the samples of a PNG file fit in memory.
pub fn fits_in_memory(png: &[u8]) -> (r: bool)
    ensures
        r == fits(png@),
{
    if png.len() < 24 {
        return true;
    }
    let width = read_be32(png, 16);
    let height = read_be32(png, 20);
    assert(width * height <= 0xffff_ffff * 0xffff_ffff) by (nonlinear_arith)
        requires
            width <= 0xffff_ffff,
            height <= 0xffff_ffff,
    ;
    width * height <= MAX_PIXELS
}

/// A picture with four bytes for each pixel.
#[derive(Debug)]
pub struct Thumbnail {
    pub width: u32,
    pub height: u32,
    pub rgba: Vec<u8>,
}

/// A picture of three bytes a pixel as one of four, all of it opaque.
pub open spec fn opaque(rgb: Seq<u8>) -> Seq<u8> {
    Seq::new(
        rgb.len() / 3 * 4,
        |k: int|
            if k % 4 == 3 {
                255u8
            } else {
                rgb[k / 4 * 3 + k % 4]
            },
    )
}

pub fn rgb_to_rgba(rgb: &Vec<u8>) -> (r: Vec<u8>)
    ensures
        r@ == opaque(rgb@),
{
    let count: usize = rgb.len() / 3;
    let mut rgba: Vec<u8> = Vec::new();
    let mut p: usize = 0;
    while p < count
        invariant
            p <= count,
            rgb@.len() <= usize::MAX,
            count == rgb@.len() / 3,
            rgba@.len() == 4 * p,
            forall|k: int| 0 <= k < 4 * p ==> #[trigger] rgba@[k] == opaque(rgb@)[k],
        decreases count - p,
    {
        let ghost before = rgba@;
        rgba.push(rgb[3 * p]);
        rgba.push(rgb[3 * p + 1]);
        rgba.push(rgb[3 * p + 2]);
        rgba.push(255);
        assert forall|k: int| 0 <= k < 4 * (p + 1) implies #[trigger] rgba@[k] == opaque(rgb@)[k] by {
            if k < 4 * p {
                assert(rgba@[k] == before[k]);
            } else {
                assert(k / 4 == p && k % 4 == k - 4 * p);
            }
        }
        p += 1;
    }
    assert(rgba@ =~= opaque(rgb@));
    rgba
}

/// A decoded picture in the form that is drawn, if it has red, green and blue samples.
pub fn thumbnail_of(image: &DecodedImage) -> (r: Option<Thumbnail>)
    ensures
        match r {
            Some(thumbnail) => image.is_rgb && thumbnail.width == image.width && thumbnail.height
                == image.height && thumbnail.rgba@ == opaque(image.samples@),
            None => !image.is_rgb,
        },
{
    if !image.is_rgb {
        return None;
    }
    Some(
        Thumbnail {
            width: image.width,
            height: image.height,
            rgba: rgb_to_rgba(&image.samples),
        },
    )
}

/// The picture of the test pattern in a PNG file. There is none if the file does not decode or has
/// other samples than red, green and blue.
pub fn baked_test_pattern_thumbnail(png: &[u8]) -> (r: Option<Thumbnail>)
    requires
        fits(png@),
    ensures
        match png_image(png@) {
            Some((width, height, is_rgb, samples)) => {
                if is_rgb {
                    &&& r is Some
                    &&& r->0.width == width
                    &&& r->0.height == height
                    &&& r->0.rgba@ == opaque(samples)
                } else {
                    r is None
                }
            },
            None => r is None,
        },
{
    match decode_png(png) {
        Some(image) => thumbnail_of(&image),
        None => None,
    }
}

/// A picture without transparency keeps its red, green and blue in every pixel and becomes opaque.
pub proof fn lemma_pixels_become_opaque(rgb: Seq<u8>, i: int)
    requires
        0 <= i < rgb.len() / 3,
    ensures
        opaque(rgb).len() == 4 * (rgb.len() / 3),
        opaque(rgb)[4 * i] == rgb[3 * i],
        opaque(rgb)[4 * i + 1] == rgb[3 * i + 1],
        opaque(rgb)[4 * i + 2] == rgb[3 * i + 2],
        opaque(rgb)[4 * i + 3] == 255,
{
    assert forall|j: int| 0 <= j < 4 implies (#[trigger] (4 * i + j)) / 4 == i && (4 * i + j) % 4
        == j by {}
    assert((4 * i + 0) / 4 == i && (4 * i + 0) % 4 == 0);
    assert((4 * i + 1) / 4 == i && (4 * i + 1) % 4 == 1);
    assert((4 * i + 2) / 4 == i && (4 * i + 2) % 4 == 2);
    assert((4 * i + 3) / 4 == i && (4 * i + 3) % 4 == 3);
}

/// A file is decoded only where its header, read from the most significant byte on, names no more
/// pixels than the limit: every part of a side counts 256 times the next one.
pub proof fn lemma_header_names_the_size(png: Seq<u8>, width: u32, height: u32)
    requires
        png.len() >= 24,
        png[16] == width / 0x100_0000 && png[17] == width / 0x1_0000 % 256 && png[18] == width
            / 0x100 % 256 && png[19] == width % 256,
        png[20] == height / 0x100_0000 && png[21] == height / 0x1_0000 % 256 && png[22] == height
            / 0x100 % 256 && png[23] == height % 256,
    ensures
        fits(png) <==> width * height <= MAX_PIXELS,
{
    lemma_parts_of_a_side(width as int);
    lemma_parts_of_a_side(height as int);
    assert(be32(png, 16) == width);
    assert(be32(png, 20) == height);
}

proof fn lemma_parts_of_a_side(n: int)
    requires
        0 <= n < 0x1_0000_0000,
    ensures
        n == (n / 0x100_0000) * 0x100_0000 + (n / 0x1_0000 % 256) * 0x1_0000 + (n / 0x100 % 256)
            * 0x100 + n % 256,
{
    let a = n / 0x100;
    let b = a / 0x100;
    assert(n == a * 0x100 + n % 256);
    assert(a == b * 0x100 + a % 256);
    assert(b == (b / 0x100) * 0x100 + b % 256);
    assert(n / 0x1_0000 == b);
    assert(n / 0x100_0000 == b / 0x100);
}

} // verus!
