//! Images: what is known of a PNG image, and how it is scaled down.

use crate::screenshot::MAX_SCREENSHOT_SOURCE_DIMENSION;
use vstd::prelude::*;

verus! {

// ---------------------------------------------------------------------------
// Reading and writing
// ---------------------------------------------------------------------------

/// Whether `image::guess_format` takes the bytes for an image in another format than PNG.
pub uninterp spec fn is_other_format(bytes: Seq<u8>) -> bool;

/// The PNG image in `bytes`, where `image` decodes it within the given largest side and amount of
/// memory: its width and height, and how many bytes and channels a pixel has.
pub uninterp spec fn png_shape(bytes: Seq<u8>, max_side: u32, max_alloc: u64) -> Option<
    (u32, u32, u8, u8),
>;

/// The width and height of an image that is decoded.
pub open spec fn png_size(bytes: Seq<u8>, max_side: u32, max_alloc: u64) -> Option<(u32, u32)> {
    size_in(png_shape(bytes, max_side, max_alloc))
}

/// The width and height among what is known of an image.
pub open spec fn size_in(shape: Option<(u32, u32, u8, u8)>) -> Option<(u32, u32)> {
    match shape {
        Some((width, height, _, _)) => Some((width, height)),
        None => None,
    }
}

/// What `DynamicImage::write_to` makes of the PNG image in `bytes`, where `image` decodes it
/// within the given bounds and writes it.
pub uninterp spec fn png_rewritten(bytes: Seq<u8>, max_side: u32, max_alloc: u64) -> Option<
    Seq<u8>,
>;

/// What `DynamicImage::thumbnail` to a square of the given side makes of the PNG image in
/// `bytes`, where `image` decodes it within the given bounds and writes it.
pub uninterp spec fn png_thumbnail(
    bytes: Seq<u8>,
    max_side: u32,
    max_alloc: u64,
    side: u32,
) -> Option<Seq<u8>>;

/// The first bytes of every PNG file.
pub open spec fn png_signature() -> Seq<u8> {
    seq![0x89u8, 0x50, 0x4E, 0x47, 0x0D, 0x0A, 0x1A, 0x0A]
}

/// `image::guess_format`: whether the first bytes are those of an image in another format
/// than PNG. It depends on the bytes alone, and says no where they are the PNG signature.
#[verifier::external_body]
pub(crate) fn guess_other_format(bytes: &[u8]) -> (r: bool)
    ensures
        r == is_other_format(bytes@),
        bytes@.len() >= 8 && bytes@.take(8) == png_signature() ==> !r,
{
    match image::guess_format(bytes) {
        Ok(format) => format != image::ImageFormat::Png,
        Err(_) => false,
    }
}

/// `image::ImageReader::decode` of PNG bytes within limits, and the image's size and
/// `DynamicImage::color`. It depends on the arguments alone. An image that is decoded has at least
/// one pixel and no side above the limit, and one to four channels of one byte or of two.
#[verifier::external_body]
pub(crate) fn read_png_shape(bytes: &[u8], max_side: u32, max_alloc: u64) -> (r: Option<(u32, u32, u8, u8)>)
    ensures
        r == png_shape(bytes@, max_side, max_alloc),
        r matches Some((width, height, pixel_bytes, channels)) ==> 0 < width <= max_side && 0 < height
            <= max_side && 1 <= channels <= 4 && (pixel_bytes == channels || pixel_bytes == 2
            * channels),
{
    let source = std::io::Cursor::new(bytes);
    let mut reader = image::ImageReader::with_format(source, image::ImageFormat::Png);
    let mut limits = image::Limits::default();
    limits.max_image_width = Some(max_side);
    limits.max_image_height = Some(max_side);
    limits.max_alloc = Some(max_alloc);
    reader.limits(limits);
    let image = reader.decode().ok()?;
    let color = image.color();
    Some((image.width(), image.height(), color.bytes_per_pixel(), color.channel_count()))
}

/// `image::ImageReader::decode` of PNG bytes within limits, and `DynamicImage::write_to` as
/// PNG. It depends on the arguments alone; it gives something only for an image that is
/// decoded, and what it gives is an image of the same size.
#[verifier::external_body]
pub(crate) fn rewrite_png(bytes: &[u8], max_side: u32, max_alloc: u64) -> (r: Option<Vec<u8>>)
    ensures
        match r {
            Some(png) => png_rewritten(bytes@, max_side, max_alloc) == Some(png@),
            None => png_rewritten(bytes@, max_side, max_alloc) is None,
        },
        r is Some ==> png_size(bytes@, max_side, max_alloc) is Some,
        r is Some && png_size(r->0@, max_side, max_alloc) is Some ==> png_size(
            r->0@,
            max_side,
            max_alloc,
        ) == png_size(bytes@, max_side, max_alloc),
{
    let source = std::io::Cursor::new(bytes);
    let mut reader = image::ImageReader::with_format(source, image::ImageFormat::Png);
    let mut limits = image::Limits::default();
    limits.max_image_width = Some(max_side);
    limits.max_image_height = Some(max_side);
    limits.max_alloc = Some(max_alloc);
    reader.limits(limits);
    let mut target = std::io::Cursor::new(Vec::new());
    reader.decode().ok()?.write_to(&mut target, image::ImageFormat::Png).ok()?;
    Some(target.into_inner())
}

// ---------------------------------------------------------------------------
// Thumbnails
// ---------------------------------------------------------------------------

/// How many pixels of an image with two bytes for each channel one pixel of its thumbnail may
/// stand for. `image` adds up four channels of each in 32 bits, with half the number of pixels for
/// rounding, and a channel that the image does not have counts as full.
pub const MAX_DEEP_BLOCK_PIXELS: u64 = 65_536;

/// The same for an image with one byte for each channel.
pub const MAX_BLOCK_PIXELS: u64 = 16_810_048;

/// How long a side of `length` pixels is in the thumbnail of an image whose longest side is
/// `longest`, when that becomes `side`: in proportion, to the nearest pixel, and at least one.
/// Where two are equally near it may be the larger; this is the smaller.
pub open spec fn scaled_length(length: nat, side: nat, longest: nat) -> nat
    recommends
        longest > 0,
{
    let nearest = (2 * length * side + longest - 1) / (2 * longest) as int;
    if nearest < 1 {
        1
    } else {
        nearest as nat
    }
}

/// `a` divided by `b`, rounded up.
pub open spec fn divided_up(a: nat, b: nat) -> nat
    recommends
        b > 0,
{
    ((a + b - 1) / b as int) as nat
}

/// How many pixels of an image one pixel of its thumbnail stands for at most.
pub open spec fn block_pixels(width: nat, height: nat, side: nat) -> nat {
    let longest = if width < height {
        height
    } else {
        width
    };
    divided_up(width, scaled_length(width, side, longest)) * divided_up(
        height,
        scaled_length(height, side, longest),
    )
}

/// Whether an image is larger than the square of the given side, and can be scaled down to it
/// without the sums of its channels growing too large.
pub open spec fn scales_down(shape: (u32, u32, u8, u8), side: u32) -> bool {
    let (width, height, pixel_bytes, channels) = shape;
    &&& width > side || height > side
    &&& block_pixels(width as nat, height as nat, side as nat) <= if pixel_bytes > channels {
        MAX_DEEP_BLOCK_PIXELS
    } else {
        MAX_BLOCK_PIXELS
    }
}

/// `image::ImageReader::decode` of PNG bytes within limits, `DynamicImage::thumbnail` to a
/// square, and `DynamicImage::write_to` as PNG. It depends on the arguments alone; it gives
/// something only for an image that is decoded, and what it gives fits in the square, unless the
/// square has no side. The image is only scaled down, since a larger one may not fit in memory,
/// and only where no sum of channels overflows, which would panic or give a wrong image.
#[verifier::external_body]
pub(crate) fn thumbnail_png(bytes: &[u8], max_side: u32, max_alloc: u64, side: u32) -> (r: Option<Vec<u8>>)
    requires
        max_side <= MAX_SCREENSHOT_SOURCE_DIMENSION,
        png_shape(bytes@, max_side, max_alloc) matches Some(shape) ==> scales_down(shape, side),
    ensures
        match r {
            Some(png) => png_thumbnail(bytes@, max_side, max_alloc, side) == Some(png@),
            None => png_thumbnail(bytes@, max_side, max_alloc, side) is None,
        },
        r is Some ==> png_size(bytes@, max_side, max_alloc) is Some,
        r is Some && side > 0 ==> (png_size(r->0@, max_side, max_alloc) matches Some(
            (width, height),
        ) ==> width <= side && height <= side),
{
    let source = std::io::Cursor::new(bytes);
    let mut reader = image::ImageReader::with_format(source, image::ImageFormat::Png);
    let mut limits = image::Limits::default();
    limits.max_image_width = Some(max_side);
    limits.max_image_height = Some(max_side);
    limits.max_alloc = Some(max_alloc);
    reader.limits(limits);
    let mut target = std::io::Cursor::new(Vec::new());
    let image = reader.decode().ok()?.thumbnail(side, side);
    image.write_to(&mut target, image::ImageFormat::Png).ok()?;
    Some(target.into_inner())
}

/// What is done with an image for an answer.
#[derive(Debug, Clone, Copy, PartialEq, Eq, Structural)]
pub enum Embedding {
    /// It is put in as it is.
    Whole,
    /// It is scaled down.
    Thumbnail,
    /// It is scaled down so far that its channels have to be added up in more bits.
    Planes,
}

/// What is done with an image so that no side of it is longer than `max_dim`.
pub open spec fn embedding_of(shape: (u32, u32, u8, u8), max_dim: u32) -> Embedding {
    if shape.0 <= max_dim && shape.1 <= max_dim {
        Embedding::Whole
    } else if scales_down(shape, max_dim) {
        Embedding::Thumbnail
    } else {
        Embedding::Planes
    }
}

fn scale_length(length: u32, side: u32, longest: u32) -> (r: u64)
    requires
        longest > 0,
    ensures
        r == scaled_length(length as nat, side as nat, longest as nat),
        r > 0,
{
    proof {
        let (a, b) = (length as int, side as int);
        assert(0 <= a * b <= 0xFFFF_FFFF * 0xFFFF_FFFF) by (nonlinear_arith)
            requires
                0 <= a <= 0xFFFF_FFFF,
                0 <= b <= 0xFFFF_FFFF,
        ;
        assert(2 * length * side == 2 * (a * b)) by (nonlinear_arith)
            requires
                a == length,
                b == side,
        ;
    }
    let product: u128 = length as u128 * side as u128;
    let nearest: u128 = (2 * product + longest as u128 - 1) / (2 * longest as u128);
    if nearest < 1 {
        1
    } else {
        proof {
            let (p, l) = (2 * product + longest as int - 1, 2 * longest as int);
            assert(p / l <= 0xFFFF_FFFF * 0xFFFF_FFFF + 1) by (nonlinear_arith)
                requires
                    l >= 2,
                    0 <= p <= 2 * (0xFFFF_FFFF * 0xFFFF_FFFF) + l,
            ;
        }
        nearest as u64
    }
}

fn divide_up(a: u32, b: u64) -> (r: u64)
    requires
        b > 0,
    ensures
        r == divided_up(a as nat, b as nat),
        r <= a,
{
    let quotient: u128 = (a as u128 + b as u128 - 1) / b as u128;
    proof {
        let (x, y) = (a as int, b as int);
        assert((x + y - 1) / y <= x) by (nonlinear_arith)
            requires
                x >= 0,
                y >= 1,
        ;
    }
    quotient as u64
}

/// Decides what is done with an image, given its width and height and how many bytes and channels
/// a pixel has, so that no side of it is longer than `max_dim`.
pub fn choose_embedding(width: u32, height: u32, pixel_bytes: u8, channels: u8, max_dim: u32) -> (r:
    Embedding)
    ensures
        r == embedding_of((width, height, pixel_bytes, channels), max_dim),
{
    if width <= max_dim && height <= max_dim {
        return Embedding::Whole;
    }
    let longest: u32 = if width < height {
        height
    } else {
        width
    };
    let across: u64 = divide_up(width, scale_length(width, max_dim, longest));
    let down: u64 = divide_up(height, scale_length(height, max_dim, longest));
    proof {
        let (a, b) = (across as int, down as int);
        assert(0 <= a * b <= 0xFFFF_FFFF * 0xFFFF_FFFF) by (nonlinear_arith)
            requires
                0 <= a <= 0xFFFF_FFFF,
                0 <= b <= 0xFFFF_FFFF,
        ;
    }
    let limit: u64 = if pixel_bytes > channels {
        MAX_DEEP_BLOCK_PIXELS
    } else {
        MAX_BLOCK_PIXELS
    };
    if across * down <= limit {
        Embedding::Thumbnail
    } else {
        Embedding::Planes
    }
}

// ---------------------------------------------------------------------------
// Channel by channel
// ---------------------------------------------------------------------------

/// The channels of the PNG image in `bytes`, pixel by pixel, where `image` decodes it within the
/// given bounds.
pub uninterp spec fn png_samples(bytes: Seq<u8>, max_side: u32, max_alloc: u64) -> Option<
    Seq<u16>,
>;

/// The size that `DynamicImage::resize` gives an image to fit it in the square of the given side.
pub uninterp spec fn thumbnail_size(width: u32, height: u32, side: u32) -> (u32, u32);

/// What `image::imageops::thumbnail` makes of one channel of an image.
pub uninterp spec fn plane_thumbnail(
    samples: Seq<u32>,
    width: u32,
    height: u32,
    new_width: u32,
    new_height: u32,
) -> Seq<u32>;

/// What `DynamicImage::write_to` makes of an image with one byte for each channel, as PNG.
pub uninterp spec fn written_png(samples: Seq<u8>, width: u32, height: u32, channels: nat) -> Option<
    Seq<u8>,
>;

/// What `DynamicImage::write_to` makes of an image with two bytes for each channel, as PNG.
pub uninterp spec fn written_deep_png(
    samples: Seq<u16>,
    width: u32,
    height: u32,
    channels: nat,
) -> Option<Seq<u8>>;

/// Whether no sample is above `top`.
pub open spec fn all_at_most(samples: Seq<u32>, top: int) -> bool {
    forall|i: int| 0 <= i < samples.len() ==> #[trigger] samples[i] <= top
}

/// The channels of a pixel.
#[derive(Debug, Clone, Copy, PartialEq, Eq, Structural)]
pub enum Channels {
    Luma,
    LumaAlpha,
    Rgb,
    Rgba,
}

impl Channels {
    /// How many channels there are.
    pub open spec fn count(self) -> nat {
        match self {
            Channels::Luma => 1,
            Channels::LumaAlpha => 2,
            Channels::Rgb => 3,
            Channels::Rgba => 4,
        }
    }
}

/// `image::ImageReader::decode` of PNG bytes within limits, and the samples behind
/// `DynamicImage::as_flat_samples_u8` or `as_flat_samples_u16`. They depend on the arguments
/// alone; there is one for each channel of each pixel, and one of a single byte is below 256.
#[verifier::external_body]
fn read_png_samples(bytes: &[u8], max_side: u32, max_alloc: u64) -> (r: Option<Vec<u16>>)
    ensures
        match r {
            Some(samples) => png_samples(bytes@, max_side, max_alloc) == Some(samples@),
            None => png_samples(bytes@, max_side, max_alloc) is None,
        },
        r is Some == png_shape(bytes@, max_side, max_alloc) is Some,
        r matches Some(samples) ==> {
            let (width, height, pixel_bytes, channels) = png_shape(bytes@, max_side, max_alloc)->0;
            &&& samples.len() == width * height * channels
            &&& pixel_bytes == channels ==> forall|i: int|
                0 <= i < samples.len() ==> #[trigger] samples[i] <= 255
        },
{
    let source = std::io::Cursor::new(bytes);
    let mut reader = image::ImageReader::with_format(source, image::ImageFormat::Png);
    let mut limits = image::Limits::default();
    limits.max_image_width = Some(max_side);
    limits.max_image_height = Some(max_side);
    limits.max_alloc = Some(max_alloc);
    reader.limits(limits);
    let image = reader.decode().ok()?;
    match image.as_flat_samples_u8() {
        Some(flat) => Some(flat.samples.iter().map(|sample| u16::from(*sample)).collect()),
        None => Some(image.as_flat_samples_u16()?.samples.to_vec()),
    }
}

/// `DynamicImage::resize` of a blank image to a square, and the size of what it gives, which is
/// also the size of a thumbnail. It depends on the arguments alone; it has at least one pixel, is
/// not larger than the image, and fits in the square, unless the square has no side.
#[verifier::external_body]
fn find_thumbnail_size(width: u32, height: u32, side: u32) -> (r: (u32, u32))
    requires
        0 < width <= MAX_SCREENSHOT_SOURCE_DIMENSION,
        0 < height <= MAX_SCREENSHOT_SOURCE_DIMENSION,
        width > side || height > side,
    ensures
        r == thumbnail_size(width, height, side),
        0 < r.0 <= width,
        0 < r.1 <= height,
        side > 0 ==> r.0 <= side && r.1 <= side,
{
    let blank = image::DynamicImage::new_luma8(width, height);
    let small = blank.resize(side, side, image::imageops::FilterType::Nearest);
    (small.width(), small.height())
}

/// `image::imageops::thumbnail` of an image with one channel of 32 bits, which is added up in 64
/// bits. It depends on the arguments alone; there is a sample for each pixel, and none is above
/// the largest of the image. An image with a sample for each pixel is one, so that the result is
/// never nothing.
#[verifier::external_body]
fn thumbnail_plane(
    samples: Vec<u32>,
    width: u32,
    height: u32,
    new_width: u32,
    new_height: u32,
) -> (r: Option<Vec<u32>>)
    requires
        samples.len() == width * height,
        all_at_most(samples@, 0xFFFF),
        0 < new_width <= width <= MAX_SCREENSHOT_SOURCE_DIMENSION,
        0 < new_height <= height <= MAX_SCREENSHOT_SOURCE_DIMENSION,
    ensures
        r is Some,
        r->0@ == plane_thumbnail(samples@, width, height, new_width, new_height),
        r->0@.len() == new_width * new_height,
        forall|top: int| #[trigger] all_at_most(samples@, top) ==> all_at_most(r->0@, top),
{
    let plane = image::ImageBuffer::<image::Luma<u32>, Vec<u32>>::from_raw(width, height, samples)?;
    Some(image::imageops::thumbnail(&plane, new_width, new_height).into_raw())
}

/// `DynamicImage::write_to` as PNG of an image with one byte for each channel. It depends on the
/// arguments alone, and what it gives is an image of the same size.
#[verifier::external_body]
fn write_png(samples: Vec<u8>, width: u32, height: u32, channels: Channels) -> (r: Option<Vec<u8>>)
    requires
        samples.len() == width * height * channels.count(),
    ensures
        match r {
            Some(png) => written_png(samples@, width, height, channels.count()) == Some(png@),
            None => written_png(samples@, width, height, channels.count()) is None,
        },
        r matches Some(png) ==> forall|max_side: u32, max_alloc: u64|
            (#[trigger] png_size(png@, max_side, max_alloc)) is Some ==> png_size(
                png@,
                max_side,
                max_alloc,
            ) == Some((width, height)),
{
    let image = match channels {
        Channels::Luma => image::ImageBuffer::from_raw(width, height, samples)
            .map(image::DynamicImage::ImageLuma8)?,
        Channels::LumaAlpha => image::ImageBuffer::from_raw(width, height, samples)
            .map(image::DynamicImage::ImageLumaA8)?,
        Channels::Rgb => image::ImageBuffer::from_raw(width, height, samples)
            .map(image::DynamicImage::ImageRgb8)?,
        Channels::Rgba => image::ImageBuffer::from_raw(width, height, samples)
            .map(image::DynamicImage::ImageRgba8)?,
    };
    let mut target = std::io::Cursor::new(Vec::new());
    image.write_to(&mut target, image::ImageFormat::Png).ok()?;
    Some(target.into_inner())
}

/// The same for an image with two bytes for each channel.
#[verifier::external_body]
fn write_deep_png(samples: Vec<u16>, width: u32, height: u32, channels: Channels) -> (r: Option<
    Vec<u8>,
>)
    requires
        samples.len() == width * height * channels.count(),
    ensures
        match r {
            Some(png) => written_deep_png(samples@, width, height, channels.count()) == Some(png@),
            None => written_deep_png(samples@, width, height, channels.count()) is None,
        },
        r matches Some(png) ==> forall|max_side: u32, max_alloc: u64|
            (#[trigger] png_size(png@, max_side, max_alloc)) is Some ==> png_size(
                png@,
                max_side,
                max_alloc,
            ) == Some((width, height)),
{
    let image = match channels {
        Channels::Luma => image::ImageBuffer::from_raw(width, height, samples)
            .map(image::DynamicImage::ImageLuma16)?,
        Channels::LumaAlpha => image::ImageBuffer::from_raw(width, height, samples)
            .map(image::DynamicImage::ImageLumaA16)?,
        Channels::Rgb => image::ImageBuffer::from_raw(width, height, samples)
            .map(image::DynamicImage::ImageRgb16)?,
        Channels::Rgba => image::ImageBuffer::from_raw(width, height, samples)
            .map(image::DynamicImage::ImageRgba16)?,
    };
    let mut target = std::io::Cursor::new(Vec::new());
    image.write_to(&mut target, image::ImageFormat::Png).ok()?;
    Some(target.into_inner())
}

/// One channel of an image.
pub open spec fn plane(samples: Seq<u16>, channels: nat, channel: nat) -> Seq<u32>
    recommends
        channel < channels,
{
    Seq::new(
        samples.len() / channels,
        |i: int| samples[i * channels + channel] as u32,
    )
}

/// The channels of an image of so many pixels, pixel by pixel.
pub open spec fn interleaved(planes: Seq<Seq<u32>>, pixels: nat) -> Seq<u32>
    recommends
        planes.len() > 0,
{
    Seq::new(
        pixels * planes.len(),
        |i: int| planes[i % planes.len() as int][i / planes.len() as int],
    )
}

/// The samples of every channel.
pub open spec fn views(planes: Seq<Vec<u32>>) -> Seq<Seq<u32>> {
    planes.map_values(|samples: Vec<u32>| samples@)
}

/// Every sample in eight bits.
pub open spec fn as_bytes(samples: Seq<u32>) -> Seq<u8> {
    samples.map_values(|sample: u32| sample as u8)
}

/// Every sample in sixteen bits.
pub open spec fn as_words(samples: Seq<u32>) -> Seq<u16> {
    samples.map_values(|sample: u32| sample as u16)
}

/// The thumbnail of every channel of an image.
pub open spec fn plane_thumbnails(
    samples: Seq<u16>,
    width: u32,
    height: u32,
    channels: nat,
    size: (u32, u32),
) -> Seq<Seq<u32>> {
    Seq::new(
        channels,
        |c: int|
            plane_thumbnail(plane(samples, channels, c as nat), width, height, size.0, size.1),
    )
}

/// The PNG image in `bytes`, scaled down to fit in the square of the given side, where `image`
/// decodes it within the given bounds and writes the result: the channels are scaled down one by
/// one and put together again.
pub open spec fn png_of_planes(bytes: Seq<u8>, max_side: u32, max_alloc: u64, side: u32) -> Option<
    Seq<u8>,
> {
    match (png_shape(bytes, max_side, max_alloc), png_samples(bytes, max_side, max_alloc)) {
        (Some((width, height, pixel_bytes, channels)), Some(samples)) => {
            let size = thumbnail_size(width, height, side);
            let all = interleaved(
                plane_thumbnails(samples, width, height, channels as nat, size),
                (size.0 * size.1) as nat,
            );
            if pixel_bytes > channels {
                written_deep_png(as_words(all), size.0, size.1, channels as nat)
            } else {
                written_png(as_bytes(all), size.0, size.1, channels as nat)
            }
        },
        _ => None,
    }
}

/// Takes one channel out of an image.
pub fn plane_of(samples: &Vec<u16>, channels: usize, channel: usize) -> (r: Vec<u32>)
    requires
        channel < channels,
    ensures
        r@ == plane(samples@, channels as nat, channel as nat),
{
    let pixels: usize = samples.len() / channels;
    let mut r: Vec<u32> = Vec::new();
    let mut i: usize = 0;
    while i < pixels
        invariant
            channel < channels,
            pixels == samples.len() / channels,
            i <= pixels,
            r@ == plane(samples@, channels as nat, channel as nat).take(i as int),
        decreases pixels - i,
    {
        proof {
            lemma_sample_index(samples.len() as int, channels as int, i as int, channel as int);
        }
        r.push(samples[i * channels + channel] as u32);
        i += 1;
        assert(r@ =~= plane(samples@, channels as nat, channel as nat).take(i as int));
    }
    assert(r@ =~= plane(samples@, channels as nat, channel as nat));
    r
}

/// The sample of a channel of a pixel is among the samples.
proof fn lemma_sample_index(len: int, channels: int, pixel: int, channel: int)
    requires
        0 <= pixel < len / channels,
        0 <= channel < channels,
    ensures
        0 <= pixel * channels <= pixel * channels + channel < len,
{
    assert(channels * (len / channels) <= len) by (nonlinear_arith)
        requires
            channels > 0,
    ;
    assert(0 <= pixel * channels && pixel * channels + channels <= channels * (len / channels))
        by (nonlinear_arith)
        requires
            0 <= pixel,
            pixel + 1 <= len / channels,
            channels > 0,
    ;
}

/// Puts channels together pixel by pixel.
pub fn interleave(planes: &Vec<Vec<u32>>, pixels: usize) -> (r: Vec<u32>)
    requires
        planes.len() > 0,
        pixels * planes.len() <= usize::MAX,
        forall|c: int| 0 <= c < planes.len() ==> (#[trigger] planes[c]).len() == pixels,
    ensures
        r@ == interleaved(views(planes@), pixels as nat),
{
    let ghost all = interleaved(views(planes@), pixels as nat);
    let total: usize = pixels * planes.len();
    let mut r: Vec<u32> = Vec::new();
    let mut i: usize = 0;
    while i < total
        invariant
            planes.len() > 0,
            total == pixels * planes.len(),
            forall|c: int| 0 <= c < planes.len() ==> (#[trigger] planes[c]).len() == pixels,
            all == interleaved(views(planes@), pixels as nat),
            i <= total,
            r@ == all.take(i as int),
        decreases total - i,
    {
        let n: usize = planes.len();
        assert(0 <= i as int / n as int && (i as int) / (n as int) < pixels) by (nonlinear_arith)
            requires
                0 <= i < pixels * n,
                n > 0,
        ;
        let channel: usize = i % n;
        assert(planes[channel as int].len() == pixels);
        r.push(planes[channel][i / n]);
        i += 1;
        assert(r@ =~= all.take(i as int));
    }
    assert(r@ =~= all);
    r
}

/// Every sample in eight bits.
pub fn to_bytes(samples: &Vec<u32>) -> (r: Vec<u8>)
    requires
        all_at_most(samples@, 0xFF),
    ensures
        r@ == as_bytes(samples@),
{
    let mut r: Vec<u8> = Vec::new();
    let mut i: usize = 0;
    while i < samples.len()
        invariant
            all_at_most(samples@, 0xFF),
            i <= samples.len(),
            r@ == as_bytes(samples@).take(i as int),
        decreases samples.len() - i,
    {
        r.push(samples[i] as u8);
        i += 1;
        assert(r@ =~= as_bytes(samples@).take(i as int));
    }
    assert(r@ =~= as_bytes(samples@));
    r
}

/// Every sample in sixteen bits.
pub fn to_words(samples: &Vec<u32>) -> (r: Vec<u16>)
    requires
        all_at_most(samples@, 0xFFFF),
    ensures
        r@ == as_words(samples@),
{
    let mut r: Vec<u16> = Vec::new();
    let mut i: usize = 0;
    while i < samples.len()
        invariant
            all_at_most(samples@, 0xFFFF),
            i <= samples.len(),
            r@ == as_words(samples@).take(i as int),
        decreases samples.len() - i,
    {
        r.push(samples[i] as u16);
        i += 1;
        assert(r@ =~= as_words(samples@).take(i as int));
    }
    assert(r@ =~= as_words(samples@));
    r
}

/// Which channels a pixel has that has so many.
fn channels_of(count: u8) -> (r: Channels)
    requires
        1 <= count <= 4,
    ensures
        r.count() == count,
{
    match count {
        1 => Channels::Luma,
        2 => Channels::LumaAlpha,
        3 => Channels::Rgb,
        _ => Channels::Rgba,
    }
}

/// Scales every channel of an image down.
fn scale_samples(samples: &Vec<u16>, width: u32, height: u32, channels: usize, size: (u32, u32)) -> (r:
    Option<Vec<Vec<u32>>>)
    requires
        channels > 0,
        samples.len() == width * height * channels,
        0 < size.0 <= width <= MAX_SCREENSHOT_SOURCE_DIMENSION,
        0 < size.1 <= height <= MAX_SCREENSHOT_SOURCE_DIMENSION,
    ensures
        r is Some,
        views(r->0@) == plane_thumbnails(samples@, width, height, channels as nat, size),
        forall|c: int| 0 <= c < channels ==> (#[trigger] r->0@[c]).len() == size.0 * size.1,
        forall|c: int, top: int|
            0 <= c < channels && 0 <= top <= 0xFFFF && (forall|i: int|
                0 <= i < samples.len() ==> samples[i] <= top) ==> #[trigger] all_at_most(
                r->0@[c]@,
                top,
            ),
{
    let ghost expected = plane_thumbnails(samples@, width, height, channels as nat, size);
    let mut planes: Vec<Vec<u32>> = Vec::new();
    let mut c: usize = 0;
    while c < channels
        invariant
            c <= channels,
            samples.len() == width * height * channels,
            0 < size.0 <= width <= MAX_SCREENSHOT_SOURCE_DIMENSION,
            0 < size.1 <= height <= MAX_SCREENSHOT_SOURCE_DIMENSION,
            expected == plane_thumbnails(samples@, width, height, channels as nat, size),
            views(planes@) == expected.take(c as int),
            planes.len() == c,
            forall|k: int| 0 <= k < c ==> (#[trigger] planes[k]).len() == size.0 * size.1,
            forall|k: int, top: int|
                0 <= k < c && 0 <= top <= 0xFFFF && (forall|i: int|
                    0 <= i < samples.len() ==> samples[i] <= top) ==> #[trigger] all_at_most(
                    planes[k]@,
                    top,
                ),
        decreases channels - c,
    {
        let channel = plane_of(samples, channels, c);
        proof {
            let (w, h, n) = (width as int, height as int, channels as int);
            assert((w * h * n) / n == w * h) by (nonlinear_arith)
                requires
                    n > 0,
            ;
            assert forall|top: int|
                (forall|i: int| 0 <= i < samples.len() ==> samples[i] <= top) implies all_at_most(
                channel@,
                top,
            ) by {
                assert forall|i: int| 0 <= i < channel@.len() implies #[trigger] channel@[i]
                    <= top by {
                    lemma_sample_index(samples.len() as int, n, i, c as int);
                    assert(samples@[i * n + c] <= top);
                }
            }
            assert(all_at_most(channel@, 0xFFFF));
        }
        let scaled = match thumbnail_plane(channel, width, height, size.0, size.1) {
            Some(scaled) => scaled,
            None => {
                return None;
            },
        };
        let ghost before = planes@;
        planes.push(scaled);
        c += 1;
        assert(planes@ =~= before.push(scaled));
        assert(views(planes@) =~= expected.take(c as int));
        assert forall|k: int, top: int|
            0 <= k < c && 0 <= top <= 0xFFFF && (forall|i: int|
                0 <= i < samples.len() ==> samples[i] <= top) implies #[trigger] all_at_most(
            planes[k]@,
            top,
        ) by {
            if k < c - 1 {
                assert(all_at_most(before[k]@, top));
            } else {
                assert(all_at_most(channel@, top));
            }
        }
    }
    assert(views(planes@) =~= expected);
    Some(planes)
}

/// Scales the PNG image in `bytes` down channel by channel, to fit in the square of the given
/// side. The image is `width` times `height` pixels of so many bytes and channels.
pub(crate) fn scale_planes(
    bytes: &[u8],
    max_side: u32,
    max_alloc: u64,
    width: u32,
    height: u32,
    pixel_bytes: u8,
    channels: u8,
    side: u32,
) -> (r: Option<Vec<u8>>)
    requires
        png_shape(bytes@, max_side, max_alloc) == Some((width, height, pixel_bytes, channels)),
        0 < width <= MAX_SCREENSHOT_SOURCE_DIMENSION,
        0 < height <= MAX_SCREENSHOT_SOURCE_DIMENSION,
        1 <= channels <= 4,
        pixel_bytes == channels || pixel_bytes == 2 * channels,
        width > side || height > side,
    ensures
        match r {
            Some(png) => png_of_planes(bytes@, max_side, max_alloc, side) == Some(png@),
            None => png_of_planes(bytes@, max_side, max_alloc, side) is None,
        },
        r matches Some(png) ==> (side > 0 ==> (png_size(png@, max_side, max_alloc) matches Some(
            (new_width, new_height),
        ) ==> new_width <= side && new_height <= side)),
{
    let samples = match read_png_samples(bytes, max_side, max_alloc) {
        Some(samples) => samples,
        None => {
            return None;
        },
    };
    let size: (u32, u32) = find_thumbnail_size(width, height, side);
    let count: usize = channels as usize;
    let planes = match scale_samples(&samples, width, height, count, size) {
        Some(planes) => planes,
        None => {
            return None;
        },
    };
    proof {
        let (a, b, n) = (size.0 as int, size.1 as int, count as int);
        assert(0 <= a * b <= 0x1000_0000) by (nonlinear_arith)
            requires
                0 <= a <= 16_384,
                0 <= b <= 16_384,
        ;
        assert(0 <= (a * b) * n <= 0x4000_0000) by (nonlinear_arith)
            requires
                0 <= a * b <= 0x1000_0000,
                1 <= n <= 4,
        ;
    }
    let pixels: usize = size.0 as usize * size.1 as usize;
    let all = interleave(&planes, pixels);
    proof {
        let top: int = if pixel_bytes > channels {
            0xFFFF
        } else {
            0xFF
        };
        assert(forall|i: int| 0 <= i < samples.len() ==> samples[i] <= top);
        assert forall|i: int| 0 <= i < all@.len() implies #[trigger] all@[i] <= top by {
            let n = planes.len() as int;
            let c = i % n;
            assert(0 <= i / n < pixels) by (nonlinear_arith)
                requires
                    0 <= i < pixels * n,
                    n > 0,
            ;
            assert(all_at_most(planes[c]@, top));
            assert(views(planes@)[c] == planes[c]@);
        }
        assert(all_at_most(all@, top));
    }
    if pixel_bytes > channels {
        write_deep_png(to_words(&all), size.0, size.1, channels_of(channels))
    } else {
        write_png(to_bytes(&all), size.0, size.1, channels_of(channels))
    }
}

} // verus!
