//! The two derivatives of an image: a thumbnail cut to four by three, and a
//! view for the web that keeps the shape of the image.

use vstd::prelude::*;
use vstd::arithmetic::div_mod::lemma_fundamental_div_mod_converse;
use vstd::string::StringExecFns;
use crate::error::CommandError;
use crate::error::Failure;
use crate::picture::block_side;
use crate::picture::blocks_fit;
use crate::picture::crop_imm;
use crate::picture::is_fitted;
use crate::picture::resize_gaussian;
use crate::picture::thumbnail_exact;
use crate::picture::thumbnail_pixels;
use crate::picture::Image;
use crate::picture::Picture;
use crate::picture::F32_GRAIN;

verus! {

/// The width of a thumbnail.
pub const THUMBNAIL_WIDTH: u32 = 200;

/// The height of a thumbnail.
pub const THUMBNAIL_HEIGHT: u32 = 150;

/// The longest side of a web view.
pub const WEBVIEW_SIDE: u32 = 1024;

/// By how much an image is wider than four by three: the columns to trim.
pub open spec fn width_trim(w: nat, h: nat) -> nat {
    if w > 4 * h / 3 {
        (w - 4 * h / 3) as nat
    } else {
        0
    }
}

/// By how much an image is higher than four by three: the rows to trim.
pub open spec fn height_trim(w: nat, h: nat) -> nat {
    if h > 3 * w / 4 {
        (h - 3 * w / 4) as nat
    } else {
        0
    }
}

/// Whether the columns are trimmed rather than the rows: there are columns to
/// trim, and either no rows or no fewer of them.
pub open spec fn trims_width(w: nat, h: nat) -> bool {
    width_trim(w, h) > 0 && (height_trim(w, h) == 0 || width_trim(w, h) <= height_trim(w, h))
}

/// The width and height of the part of an image that its thumbnail shows. An
/// image that is four by three is shown whole; of another one side is
/// trimmed, by the smaller of the two trims that are not zero.
pub open spec fn crop_size(w: nat, h: nat) -> (nat, nat) {
    if 3 * w == 4 * h {
        (w, h)
    } else if trims_width(w, h) {
        ((w - width_trim(w, h)) as nat, h)
    } else {
        (w, (h - height_trim(w, h)) as nat)
    }
}

/// Of an image that is not four by three exactly one side is trimmed: there
/// are columns to trim or rows, never both and never neither.
pub proof fn lemma_one_trim(w: nat, h: nat)
    requires
        3 * w != 4 * h,
    ensures
        (width_trim(w, h) > 0) != (height_trim(w, h) > 0),
        width_trim(w, h) > 0 <==> 3 * w > 4 * h,
        trims_width(w, h) <==> 3 * w > 4 * h,
{
}

/// The part shown lies within the image, keeps one side whole, and is as near
/// to four by three as whole pixels allow: trimmed in width it is the widest
/// part that is not wider than four by three, trimmed in height the highest
/// that is not higher.
pub proof fn lemma_crop_size(w: nat, h: nat)
    ensures
        crop_size(w, h).0 <= w,
        crop_size(w, h).1 <= h,
        crop_size(w, h).0 == w || crop_size(w, h).1 == h,
        3 * w > 4 * h ==> 3 * crop_size(w, h).0 <= 4 * h < 3 * (crop_size(w, h).0 + 1),
        3 * w < 4 * h ==> 4 * crop_size(w, h).1 <= 3 * w < 4 * (crop_size(w, h).1 + 1),
{
}

/// Where the side that is kept divides evenly, the part shown is four by
/// three exactly: three times its width is four times its height.
pub proof fn lemma_crop_four_by_three(w: nat, h: nat)
    requires
        3 * w != 4 * h,
        3 * w > 4 * h ==> h % 3 == 0,
        3 * w < 4 * h ==> w % 4 == 0,
    ensures
        3 * crop_size(w, h).0 == 4 * crop_size(w, h).1,
{
}

/// The width and height of the part of a `w` by `h` image that its thumbnail
/// shows.
pub fn thumbnail_crop(w: u32, h: u32) -> (size: (u32, u32))
    ensures
        size.0 == crop_size(w as nat, h as nat).0,
        size.1 == crop_size(w as nat, h as nat).1,
{
    let wide: u64 = w as u64;
    let high: u64 = h as u64;
    if 3 * wide == 4 * high {
        return (w, h);
    }
    let delta_w: u64 = if wide > 4 * high / 3 {
        wide - 4 * high / 3
    } else {
        0
    };
    let delta_h: u64 = if high > 3 * wide / 4 {
        high - 3 * wide / 4
    } else {
        0
    };
    if delta_w > 0 && (delta_h == 0 || delta_w <= delta_h) {
        ((wide - delta_w) as u32, h)
    } else {
        (w, (high - delta_h) as u32)
    }
}

impl Image {
    /// The part of the image that its thumbnail shows: the whole of an image
    /// that is four by three, else the part of the size `crop_size` that
    /// keeps the top left corner.
    pub open spec fn thumbnail_part(self) -> Image {
        if crop_size(self.width, self.height) == (self.width, self.height) {
            self
        } else {
            self.region(
                0,
                0,
                crop_size(self.width, self.height).0,
                crop_size(self.width, self.height).1,
            )
        }
    }

    /// The thumbnail of the image: the part shown, scaled to 200 by 150.
    pub open spec fn thumbnail(self) -> Image {
        Image {
            width: THUMBNAIL_WIDTH as nat,
            height: THUMBNAIL_HEIGHT as nat,
            pixels: thumbnail_pixels(
                self.thumbnail_part().width,
                self.thumbnail_part().height,
                self.thumbnail_part().pixels,
                THUMBNAIL_WIDTH as nat,
                THUMBNAIL_HEIGHT as nat,
            ),
        }
    }

    /// Whether a thumbnail can be made of the image: the blocks of the part
    /// shown are small enough to be summed. It can of an image with fewer
    /// than sixteen million times 200 by 150 pixels.
    pub open spec fn can_thumbnail(self) -> bool {
        blocks_fit(
            crop_size(self.width, self.height).0,
            crop_size(self.width, self.height).1,
            THUMBNAIL_WIDTH as nat,
            THUMBNAIL_HEIGHT as nat,
        )
    }

    /// Whether a web view can be made of the image: memory can address 1024
    /// rows of its width at sixteen bytes a pixel.
    pub open spec fn can_webview(self) -> bool {
        16 * self.width * WEBVIEW_SIDE <= isize::MAX
    }

    /// Whether an image has the size of the web view of `whole`: it has a
    /// pixel, neither side is longer than 1024, and where `whole` has pixels
    /// it is the size of `whole`, its shape kept, fitted into 1024 by 1024.
    pub open spec fn is_webview_of(self, whole: Image) -> bool {
        &&& self.wf()
        &&& 1 <= self.width <= WEBVIEW_SIDE
        &&& 1 <= self.height <= WEBVIEW_SIDE
        &&& whole.width > 0 && whole.height > 0 ==> is_fitted(
            self.width,
            self.height,
            whole.width,
            whole.height,
            WEBVIEW_SIDE as nat,
            WEBVIEW_SIDE as nat,
        )
    }
}

/// Of an image of any size that is not four by three, the part that its
/// thumbnail shows is the part at the top left that keeps the height and is
/// `4 * h / 3` wide, where the image is wider than four by three, and else
/// the part that keeps the width and is `3 * w / 4` high: only the one trim
/// that is not zero is applied.
pub proof fn lemma_thumbnail_part(image: Image)
    requires
        image.wf(),
        3 * image.width != 4 * image.height,
    ensures
        image.thumbnail_part().wf(),
        3 * image.width > 4 * image.height ==> image.thumbnail_part().width == 4 * image.height
            / 3 && image.thumbnail_part().height == image.height,
        3 * image.width < 4 * image.height ==> image.thumbnail_part().width == image.width
            && image.thumbnail_part().height == 3 * image.width / 4,
        forall|i: int, j: int, c: int|
            0 <= i < image.thumbnail_part().width && 0 <= j < image.thumbnail_part().height && 0
                <= c < 3 ==> #[trigger] image.thumbnail_part().at(i, j, c) == image.at(i, j, c),
{
    let part = image.thumbnail_part();
    let w = part.width as int;
    lemma_one_trim(image.width, image.height);
    lemma_crop_size(image.width, image.height);
    assert forall|i: int, j: int, c: int|
        0 <= i < part.width && 0 <= j < part.height && 0 <= c < 3 implies #[trigger] part.at(
        i,
        j,
        c,
    ) == image.at(i, j, c) by {
        let n = j * w + i;
        let k = 3 * n + c;
        assert(0 <= n < w * part.height) by (nonlinear_arith)
            requires
                0 <= i < w,
                0 <= j < part.height,
                n == j * w + i,
        ;
        lemma_fundamental_div_mod_converse(k, 3, n, c);
        lemma_fundamental_div_mod_converse(n, w, j, i);
        assert(0 <= k < 3 * part.width * part.height) by (nonlinear_arith)
            requires
                0 <= n < w * part.height,
                0 <= c < 3,
                k == 3 * n + c,
                w == part.width,
        ;
    }
}

/// Both derivatives can be made of every image with sides of up to 131071
/// pixels, whatever the machine.
pub proof fn lemma_can_scale(image: Image)
    requires
        image.width <= 131071,
        image.height <= 131071,
    ensures
        image.can_thumbnail(),
        image.can_webview(),
{
    lemma_crop_size(image.width, image.height);
    let across = block_side(crop_size(image.width, image.height).0, THUMBNAIL_WIDTH as nat);
    let down = block_side(crop_size(image.width, image.height).1, THUMBNAIL_HEIGHT as nat);
    let w = crop_size(image.width, image.height).0;
    let h = crop_size(image.width, image.height).1;
    assert(THUMBNAIL_WIDTH == 200 && THUMBNAIL_HEIGHT == 150 && F32_GRAIN == 2097152);
    assert(w / 200 <= 655 && w / 2097152 == 0);
    assert(h / 150 <= 873 && h / 2097152 == 0);
    assert(across <= 657 && down <= 875);
    assert(across * down <= 657 * 875) by (nonlinear_arith)
        requires
            across <= 657,
            down <= 875,
    ;
    assert(16 * image.width * WEBVIEW_SIDE <= 16 * 131071 * 1024) by (nonlinear_arith)
        requires
            image.width <= 131071,
            WEBVIEW_SIDE == 1024,
    ;
}

/// The failure for an image that is too large to be scaled.
fn too_large() -> (e: CommandError)
    ensures
        e@ == Failure::ImageError("image is too large"@),
{
    CommandError::ImageError(String::from_str("image is too large"))
}

/// The part of `image` that its thumbnail shows.
pub fn crop_to_four_by_three(image: &Picture) -> (part: Picture)
    requires
        image@.wf(),
    ensures
        part@ == image@.thumbnail_part(),
        part@.wf(),
        part.width == crop_size(image.width as nat, image.height as nat).0,
        part.height == crop_size(image.width as nat, image.height as nat).1,
{
    let (w, h) = thumbnail_crop(image.width, image.height);
    proof {
        lemma_crop_size(image.width as nat, image.height as nat);
    }
    if w == image.width && h == image.height {
        Picture { width: image.width, height: image.height, pixels: image.pixels.clone() }
    } else {
        crop_imm(image, 0, 0, w, h)
    }
}

/// Whether the blocks of an image of `width` by `height` pixels, of which a
/// thumbnail is made, are small enough to be summed.
fn thumbnail_blocks_fit(width: u32, height: u32) -> (r: bool)
    ensures
        r == blocks_fit(
            width as nat,
            height as nat,
            THUMBNAIL_WIDTH as nat,
            THUMBNAIL_HEIGHT as nat,
        ),
{
    let across: u64 = (width / THUMBNAIL_WIDTH) as u64 + (width / F32_GRAIN) as u64 + 2;
    let down: u64 = (height / THUMBNAIL_HEIGHT) as u64 + (height / F32_GRAIN) as u64 + 2;
    assert(across * down <= 0x2000000 * 0x2000000) by (nonlinear_arith)
        requires
            across <= 0x2000000,
            down <= 0x2000000,
    ;
    across * down <= 0xffffff
}

/// The thumbnail of `image`: cut to four by three, then scaled to 200 by 150.
/// Fails, with the words `image is too large`, only for an image so large
/// that a block of it, which goes into one pixel of the thumbnail, may hold
/// over sixteen million pixels: more than the `image` crate can sum.
pub fn generate_thumbnail(image: &Picture) -> (r: Result<Picture, CommandError>)
    requires
        image@.wf(),
    ensures
        match r {
            Ok(small) => image@.can_thumbnail() && small@ == image@.thumbnail() && small@.wf(),
            Err(e) => !image@.can_thumbnail() && e@ == Failure::ImageError(
                "image is too large"@,
            ),
        },
{
    let (w, h) = thumbnail_crop(image.width, image.height);
    if !thumbnail_blocks_fit(w, h) {
        return Err(too_large());
    }
    let part = crop_to_four_by_three(image);
    Ok(thumbnail_exact(&part, THUMBNAIL_WIDTH, THUMBNAIL_HEIGHT))
}

/// The web view of `image`: the whole image, its shape kept, scaled to the
/// largest size within 1024 by 1024. Fails, with the words `image is too
/// large`, only for an image so wide that memory cannot address what is made
/// of it on the way, which no image is where addresses have 64 bits.
pub fn generate_webview(image: &Picture) -> (r: Result<Picture, CommandError>)
    requires
        image@.wf(),
    ensures
        match r {
            Ok(view) => image@.can_webview() && view@.is_webview_of(image@),
            Err(e) => !image@.can_webview() && e@ == Failure::ImageError("image is too large"@),
        },
{
    let wide: u128 = image.width as u128;
    assert(16 * image.width * WEBVIEW_SIDE == wide * 16384) by (nonlinear_arith)
        requires
            wide == image.width,
            WEBVIEW_SIDE == 1024,
    ;
    if wide * 16384 > isize::MAX as u128 {
        return Err(too_large());
    }
    Ok(resize_gaussian(image, WEBVIEW_SIDE, WEBVIEW_SIDE))
}

} // verus!
