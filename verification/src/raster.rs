//! Trusted view of the pixel-codec crate's decoded image type.
//!
//! A decoded image is opaque here: the only facts the library relies on
//! are its dimensions and its raw sample bytes, named by the
//! uninterpreted functions below, and how the geometric operations of
//! the codec crate change those dimensions, as each wrapper's contract
//! states from the callee's source.

use vstd::prelude::*;

verus! {

#[verifier::external_type_specification]
#[verifier::external_body]
pub struct ExDynamicImage(image::DynamicImage);

/// The pixel width of a decoded image.
pub uninterp spec fn img_width(i: image::DynamicImage) -> nat;

/// The pixel height of a decoded image.
pub uninterp spec fn img_height(i: image::DynamicImage) -> nat;

/// The native-endian raw sample bytes of a decoded image.
pub uninterp spec fn img_data(i: image::DynamicImage) -> Seq<u8>;

/// Relies on `DynamicImage::width`: the width of the underlying image.
#[verifier::external_body]
pub fn width_of(i: &image::DynamicImage) -> (r: u32)
    ensures
        r == img_width(*i),
{
    i.width()
}

/// Relies on `DynamicImage::height`: the height of the underlying image.
#[verifier::external_body]
pub fn height_of(i: &image::DynamicImage) -> (r: u32)
    ensures
        r == img_height(*i),
{
    i.height()
}

/// Relies on `DynamicImage::as_bytes`: the image's pixels as a
/// native-endian byte slice.
#[verifier::external_body]
pub fn bytes_of<'a>(i: &'a image::DynamicImage) -> (r: &'a [u8])
    ensures
        r@ == img_data(*i),
{
    i.as_bytes()
}

/// Relies on `DynamicImage::crop_imm`: the cut-out delimited by the
/// rectangle. The callee clamps out-of-range rectangles, so the bounds
/// are required here and the result's dimensions are exact.
#[verifier::external_body]
pub fn crop_of(i: &image::DynamicImage, x: u32, y: u32, w: u32, h: u32) -> (r:
    image::DynamicImage)
    requires
        x + w <= img_width(*i),
        y + h <= img_height(*i),
    ensures
        img_width(r) == w,
        img_height(r) == h,
{
    i.crop_imm(x, y, w, h)
}

/// Relies on `DynamicImage::resize` with the triangle (smooth
/// area-averaging) filter: scales to the largest size that preserves
/// the aspect ratio and fits within `nw x nh`; both result dimensions
/// are at least 1. The size bound keeps the callee's buffer allocation
/// from overflowing.
#[verifier::external_body]
pub fn resize_within(i: &image::DynamicImage, nw: u32, nh: u32) -> (r: image::DynamicImage)
    requires
        nw >= 1,
        nh >= 1,
        img_width(*i) >= 1,
        img_height(*i) >= 1,
        (nw as nat) * (nh as nat) * 16 <= usize::MAX as nat,
    ensures
        1 <= img_width(r) <= nw,
        1 <= img_height(r) <= nh,
{
    i.resize(nw, nh, image::imageops::FilterType::Triangle)
}

/// Relies on `DynamicImage::resize_exact` with the triangle filter:
/// resizes to exactly `nw x nh`, not preserving aspect ratio. The size
/// bounds keep the callee's buffer arithmetic from overflowing: the
/// result buffer holds `nw * nh` pixels, and the vertical resample pass
/// first allocates an intermediate buffer of the *source* width by `nh`
/// at up to 16 bytes per pixel.
#[verifier::external_body]
pub fn resize_exact_to(i: &image::DynamicImage, nw: u32, nh: u32) -> (r: image::DynamicImage)
    requires
        nw >= 1,
        nh >= 1,
        (nw as nat) * (nh as nat) * 16 <= usize::MAX as nat,
        img_width(*i) * (nh as nat) * 16 <= usize::MAX as nat,
    ensures
        img_width(r) == nw,
        img_height(r) == nh,
{
    i.resize_exact(nw, nh, image::imageops::FilterType::Triangle)
}

/// Relies on `DynamicImage::apply_orientation(FlipHorizontal)`: an
/// in-place horizontal flip keeps both dimensions.
#[verifier::external_body]
pub fn flip_horizontal(i: &mut image::DynamicImage)
    ensures
        img_width(*final(i)) == img_width(*old(i)),
        img_height(*final(i)) == img_height(*old(i)),
{
    i.apply_orientation(image::metadata::Orientation::FlipHorizontal)
}

/// Relies on `DynamicImage::apply_orientation(FlipVertical)`: an
/// in-place vertical flip keeps both dimensions.
#[verifier::external_body]
pub fn flip_vertical(i: &mut image::DynamicImage)
    ensures
        img_width(*final(i)) == img_width(*old(i)),
        img_height(*final(i)) == img_height(*old(i)),
{
    i.apply_orientation(image::metadata::Orientation::FlipVertical)
}

/// Relies on `DynamicImage::apply_orientation(Rotate90)`: a clockwise
/// quarter turn swaps the dimensions.
#[verifier::external_body]
pub fn rotate_90(i: &mut image::DynamicImage)
    ensures
        img_width(*final(i)) == img_height(*old(i)),
        img_height(*final(i)) == img_width(*old(i)),
{
    i.apply_orientation(image::metadata::Orientation::Rotate90)
}

/// Relies on `DynamicImage::apply_orientation(Rotate180)`: a half turn
/// keeps both dimensions.
#[verifier::external_body]
pub fn rotate_180(i: &mut image::DynamicImage)
    ensures
        img_width(*final(i)) == img_width(*old(i)),
        img_height(*final(i)) == img_height(*old(i)),
{
    i.apply_orientation(image::metadata::Orientation::Rotate180)
}

/// Relies on `DynamicImage::apply_orientation(Rotate270)`: a
/// counter-clockwise quarter turn swaps the dimensions.
#[verifier::external_body]
pub fn rotate_270(i: &mut image::DynamicImage)
    ensures
        img_width(*final(i)) == img_height(*old(i)),
        img_height(*final(i)) == img_width(*old(i)),
{
    i.apply_orientation(image::metadata::Orientation::Rotate270)
}

} // verus!
