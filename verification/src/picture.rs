//! Decoded images, and what the `image` crate does to them.
//!
//! A picture holds one byte each for the red, green and blue of every pixel,
//! row by row from the top, which is what a JPEG derivative is made of.

use vstd::prelude::*;

verus! {

/// The longest side that a JPEG file records.
pub const MAX_SIDE: u32 = 65535;

/// A decoded image.
#[derive(Debug)]
pub struct Picture {
    pub width: u32,
    pub height: u32,
    pub pixels: Vec<u8>,
}

/// A decoded image as contracts speak of it.
pub struct Image {
    pub width: nat,
    pub height: nat,
    pub pixels: Seq<u8>,
}

impl View for Picture {
    type V = Image;

    open spec fn view(&self) -> Image {
        Image { width: self.width as nat, height: self.height as nat, pixels: self.pixels@ }
    }
}

impl Picture {
    /// The picture of the given size and pixels, where there are three bytes
    /// for each pixel and no others.
    pub fn new(width: u32, height: u32, pixels: Vec<u8>) -> (r: Option<Picture>)
        ensures
            match r {
                Some(picture) => {
                    &&& picture.width == width
                    &&& picture.height == height
                    &&& picture.pixels == pixels
                    &&& picture@.wf()
                },
                None => pixels@.len() != 3 * width * height,
            },
    {
        let wide: u128 = width as u128;
        let high: u128 = height as u128;
        assert(wide * high <= 0xffff_ffff * 0xffff_ffff) by (nonlinear_arith)
            requires
                wide <= 0xffff_ffff,
                high <= 0xffff_ffff,
        ;
        assert(3 * (width * height) == 3 * width * height) by (nonlinear_arith);
        if pixels.len() as u128 == 3 * (wide * high) {
            Some(Picture { width, height, pixels })
        } else {
            None
        }
    }
}

impl Image {
    /// There are three bytes for each pixel, and no others.
    pub open spec fn wf(self) -> bool {
        self.pixels.len() == 3 * self.width * self.height
    }

    /// Channel `c` of the pixel in column `x` of row `y`.
    pub open spec fn at(self, x: int, y: int, c: int) -> u8 {
        self.pixels[3 * (y * self.width + x) + c]
    }

    /// The image of the given size whose pixels are given by `f`.
    pub open spec fn plot(width: nat, height: nat, f: spec_fn(int, int, int) -> u8) -> Image {
        Image {
            width,
            height,
            pixels: Seq::new(
                3 * width * height,
                |k: int| f((k / 3) % (width as int), (k / 3) / (width as int), k % 3),
            ),
        }
    }

    /// The part of the image that is `width` wide and `height` high and has
    /// its top left corner at column `x` of row `y`.
    pub open spec fn region(self, x: nat, y: nat, width: nat, height: nat) -> Image {
        Image::plot(width, height, |i: int, j: int, c: int| self.at(x + i, y + j, c))
    }

    /// The image turned clockwise by a quarter of a circle.
    pub open spec fn quarter_turn(self) -> Image {
        Image::plot(
            self.height,
            self.width,
            |i: int, j: int, c: int| self.at(j, self.height - 1 - i, c),
        )
    }

    /// The image turned by half a circle.
    pub open spec fn half_turn(self) -> Image {
        Image::plot(
            self.width,
            self.height,
            |i: int, j: int, c: int| self.at(self.width - 1 - i, self.height - 1 - j, c),
        )
    }

    /// The image turned clockwise by three quarters of a circle.
    pub open spec fn three_quarter_turn(self) -> Image {
        Image::plot(
            self.height,
            self.width,
            |i: int, j: int, c: int| self.at(self.width - 1 - j, i, c),
        )
    }

    /// Whether neither side is longer than `MAX_SIDE`.
    pub open spec fn within_max_side(self) -> bool {
        self.width <= MAX_SIDE && self.height <= MAX_SIDE
    }
}

/// For every so many pixels of a side, the place of a block that the `image`
/// crate works out in `f32` may be off by one pixel more.
pub const F32_GRAIN: u32 = 2097152;

/// The most pixels that a block can be wide or high, of an image with a side
/// of `side` pixels that is scaled to `new_side` pixels: as many as the image
/// is larger than the thumbnail, and up to two more and one for every
/// `F32_GRAIN` pixels of the side by which its ends are rounded.
pub open spec fn block_side(side: nat, new_side: nat) -> nat {
    side / new_side + side / (F32_GRAIN as nat) + 2
}

/// Whether the sums over a block stay within 32 bits, for an image of `w` by
/// `h` pixels that is scaled to `new_width` by `new_height`: every pixel of
/// the block adds up to 255 to a sum, and the rounding half the number of
/// pixels.
pub open spec fn blocks_fit(w: nat, h: nat, new_width: nat, new_height: nat) -> bool {
    &&& new_width >= 1
    &&& new_height >= 1
    &&& block_side(w, new_width) * block_side(h, new_height) * 256 <= u32::MAX
}

/// Whether `side` is `from * bound / along` rounded to the nearest whole
/// number, or 1 where that is 0: the side of an image scaled by
/// `bound / along`, of which the side `from` long becomes this one.
pub open spec fn is_scaled_side(side: nat, from: nat, bound: nat, along: nat) -> bool {
    if 2 * from * bound < along {
        side == 1
    } else {
        -(along as int) <= 2 * (side * along - from * bound) <= along
    }
}

/// Whether `width` by `height` is the size of an image of `w` by `h` pixels
/// that is scaled, its shape kept, to the largest size within `max_width` by
/// `max_height`: the side that reaches its bound first is as long as the
/// bound, and the other is scaled as that one is.
pub open spec fn is_fitted(
    width: nat,
    height: nat,
    w: nat,
    h: nat,
    max_width: nat,
    max_height: nat,
) -> bool {
    &&& w * max_height >= h * max_width ==> width == max_width && is_scaled_side(
        height,
        h,
        max_width,
        w,
    )
    &&& w * max_height <= h * max_width ==> height == max_height && is_scaled_side(
        width,
        w,
        max_height,
        h,
    )
}

/// The pixels of the thumbnail of the given size that `image::imageops::thumbnail`
/// makes of an image.
pub uninterp spec fn thumbnail_pixels(
    width: nat,
    height: nat,
    pixels: Seq<u8>,
    new_width: nat,
    new_height: nat,
) -> Seq<u8>;

/// The JPEG file that the `image` crate writes for an image.
pub uninterp spec fn jpeg_encoding(width: nat, height: nat, pixels: Seq<u8>) -> Seq<u8>;

/// `image::load_from_memory`, the result turned into RGB bytes by
/// `DynamicImage::into_rgb8`. The contract claims only that a decoded image
/// comes with three bytes for each of its pixels.
#[verifier::external_body]
pub(crate) fn load_from_memory(bytes: &[u8]) -> (r: Result<Picture, String>)
    ensures
        r matches Ok(p) ==> p@.wf(),
{
    match image::load_from_memory(bytes) {
        Ok(decoded) => {
            let out = decoded.into_rgb8();
            Ok(Picture { width: out.width(), height: out.height(), pixels: out.into_raw() })
        },
        Err(e) => Err(e.to_string()),
    }
}

/// `DynamicImage::crop_imm`, for a rectangle that lies within the image. The
/// contract claims that the result is that rectangle, pixel for pixel.
#[verifier::external_body]
pub(crate) fn crop_imm(p: &Picture, x: u32, y: u32, width: u32, height: u32) -> (r: Picture)
    requires
        p@.wf(),
        x + width <= p.width,
        y + height <= p.height,
    ensures
        r@ == p@.region(x as nat, y as nat, width as nat, height as nat),
{
    let source = image::RgbImage::from_raw(p.width, p.height, p.pixels.clone()).unwrap();
    let out = image::DynamicImage::ImageRgb8(source).crop_imm(x, y, width, height).into_rgb8();
    Picture { width: out.width(), height: out.height(), pixels: out.into_raw() }
}

/// `DynamicImage::rotate90`. The contract claims that the pixel in column `x`
/// of row `y` goes to row `x`, in the column that is as far from the right as
/// `y` is from the top.
#[verifier::external_body]
pub(crate) fn rotate90(p: &Picture) -> (r: Picture)
    requires
        p@.wf(),
    ensures
        r@ == p@.quarter_turn(),
{
    let source = image::RgbImage::from_raw(p.width, p.height, p.pixels.clone()).unwrap();
    let out = image::DynamicImage::ImageRgb8(source).rotate90().into_rgb8();
    Picture { width: out.width(), height: out.height(), pixels: out.into_raw() }
}

/// `DynamicImage::rotate180`. The contract claims that each pixel goes to the
/// place opposite to its own, through the centre of the image.
#[verifier::external_body]
pub(crate) fn rotate180(p: &Picture) -> (r: Picture)
    requires
        p@.wf(),
    ensures
        r@ == p@.half_turn(),
{
    let source = image::RgbImage::from_raw(p.width, p.height, p.pixels.clone()).unwrap();
    let out = image::DynamicImage::ImageRgb8(source).rotate180().into_rgb8();
    Picture { width: out.width(), height: out.height(), pixels: out.into_raw() }
}

/// `DynamicImage::rotate270`. The contract claims that the pixel in column `x`
/// of row `y` goes to column `y`, in the row that is as far from the bottom as
/// `x` is from the left.
#[verifier::external_body]
pub(crate) fn rotate270(p: &Picture) -> (r: Picture)
    requires
        p@.wf(),
    ensures
        r@ == p@.three_quarter_turn(),
{
    let source = image::RgbImage::from_raw(p.width, p.height, p.pixels.clone()).unwrap();
    let out = image::DynamicImage::ImageRgb8(source).rotate270().into_rgb8();
    Picture { width: out.width(), height: out.height(), pixels: out.into_raw() }
}

/// `DynamicImage::thumbnail_exact`, for a size of at least one pixel and an
/// image of which no block is too large. The crate averages each block of the
/// image that goes into one pixel of the thumbnail through sums of 32 bits,
/// and works out in `f32` where a block begins and ends; no block leaves the
/// image. The contract claims that the result has the size asked for, and
/// that its pixels are a function of the image and that size.
#[verifier::external_body]
pub(crate) fn thumbnail_exact(p: &Picture, new_width: u32, new_height: u32) -> (r: Picture)
    requires
        p@.wf(),
        blocks_fit(p.width as nat, p.height as nat, new_width as nat, new_height as nat),
        3 * new_width * new_height <= isize::MAX,
    ensures
        r@.wf(),
        r.width == new_width,
        r.height == new_height,
        r.pixels@ == thumbnail_pixels(
            p.width as nat,
            p.height as nat,
            p.pixels@,
            new_width as nat,
            new_height as nat,
        ),
{
    let source = image::RgbImage::from_raw(p.width, p.height, p.pixels.clone()).unwrap();
    let out = image::DynamicImage::ImageRgb8(source).thumbnail_exact(new_width, new_height);
    let out = out.into_rgb8();
    Picture { width: out.width(), height: out.height(), pixels: out.into_raw() }
}

/// `DynamicImage::resize` with the Gaussian filter, for bounds of at least
/// one pixel and at most `MAX_SIDE`, and for an image of which one row of
/// pixels for each row of the bound, at sixteen bytes a pixel, is no more
/// than memory can address: that is the picture the crate makes on its way.
/// The contract claims that the result has at least one pixel and keeps
/// within the bounds, and that of an image with pixels it has the size that
/// the crate works out before it scales: the smaller of the two ratios of
/// bound to side scales both sides, each rounded to the nearest whole number
/// and raised to 1. The filter works in floating point with an exponential,
/// so nothing is claimed of the pixels.
#[verifier::external_body]
pub(crate) fn resize_gaussian(p: &Picture, max_width: u32, max_height: u32) -> (r: Picture)
    requires
        p@.wf(),
        1 <= max_width <= MAX_SIDE,
        1 <= max_height <= MAX_SIDE,
        16 * p.width * max_height <= isize::MAX,
    ensures
        r@.wf(),
        1 <= r.width <= max_width,
        1 <= r.height <= max_height,
        p.width > 0 && p.height > 0 ==> is_fitted(
            r.width as nat,
            r.height as nat,
            p.width as nat,
            p.height as nat,
            max_width as nat,
            max_height as nat,
        ),
{
    let source = image::RgbImage::from_raw(p.width, p.height, p.pixels.clone()).unwrap();
    let filter = image::imageops::FilterType::Gaussian;
    let out = image::DynamicImage::ImageRgb8(source).resize(max_width, max_height, filter);
    let out = out.into_rgb8();
    Picture { width: out.width(), height: out.height(), pixels: out.into_raw() }
}

/// `DynamicImage::write_to` with `ImageFormat::Jpeg`, into memory. The
/// contract claims that the file written is a function of the image, and that
/// the call fails only for an image with a side of no pixels or of more than
/// `MAX_SIDE`, the longest that a JPEG file records.
#[verifier::external_body]
pub(crate) fn write_jpeg(p: &Picture) -> (r: Result<Vec<u8>, String>)
    requires
        p@.wf(),
    ensures
        match r {
            Ok(bytes) => bytes@ == jpeg_encoding(p.width as nat, p.height as nat, p.pixels@),
            Err(_) => p.width == 0 || p.height == 0 || !p@.within_max_side(),
        },
{
    let source = image::RgbImage::from_raw(p.width, p.height, p.pixels.clone()).unwrap();
    let mut out = std::io::Cursor::new(Vec::new());
    match image::DynamicImage::ImageRgb8(source).write_to(&mut out, image::ImageFormat::Jpeg) {
        Ok(()) => Ok(out.into_inner()),
        Err(e) => Err(e.to_string()),
    }
}

} // verus!
