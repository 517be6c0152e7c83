//! The geometric transform pipeline: crop, then resize, then rotate, in
//! that fixed order. All rectangle and dimension arithmetic is computed
//! and verified here; the pixel work itself is delegated to the codec
//! crate through the wrappers in `raster`.

use vstd::prelude::*;

use crate::api::image::{Region, Rotation, RotationDeg, Size, SizeKind};
use crate::decimal::spec_scale_pct;
use crate::decimal::scale_by_pct;
use crate::error::Error;
use crate::raster::{
    crop_of,
    flip_horizontal,
    flip_vertical,
    img_height,
    img_width,
    height_of,
    resize_exact_to,
    resize_within,
    rotate_180,
    rotate_270,
    rotate_90,
    width_of,
};

verus! {

/// The crop rectangle `(x, y, w, h)` that a region selects from an
/// image of the given dimensions, or `None` for a `BadRequest`.
///
/// - `Full` is the identity rectangle.
/// - `Square` is the centered square of side `min(w, h)`: the offset on
///   the longer axis is `(dimension - side) / 2`, so both margins are
///   equal (up to the integer half), and the offset is zero when
///   `side == dimension`.
/// - `Absolute` must lie fully inside the image; out-of-bounds
///   rectangles fail rather than clamp.
/// - `Percent` coordinates are `round(dimension * value / 100)`,
///   round-half-up, against the pre-crop image's own width and height,
///   then clamped to the image as the codec's crop would clamp them; a
///   zero-sized result fails.
pub open spec fn spec_crop_rect(region: Region, w: nat, h: nat) -> Option<(nat, nat, nat, nat)> {
    match region {
        Region::Full => Some((0nat, 0nat, w, h)),
        Region::Square => {
            let side = if w <= h {
                w
            } else {
                h
            };
            if side == 0 {
                None
            } else {
                Some((((w - side) / 2) as nat, ((h - side) / 2) as nat, side, side))
            }
        },
        Region::Absolute { x, y, w: rw, h: rh } => {
            if x + rw <= w && y + rh <= h {
                Some((x as nat, y as nat, rw as nat, rh as nat))
            } else {
                None
            }
        },
        Region::Percent { x, y, w: pw, h: ph } => {
            let px = spec_scale_pct(w, x);
            let py = spec_scale_pct(h, y);
            let qw = spec_scale_pct(w, pw);
            let qh = spec_scale_pct(h, ph);
            let cx = if px <= w {
                px
            } else {
                w
            };
            let cy = if py <= h {
                py
            } else {
                h
            };
            let cw = if qw <= w - cx {
                qw
            } else {
                (w - cx) as nat
            };
            let ch = if qh <= h - cy {
                qh
            } else {
                (h - cy) as nat
            };
            if cw == 0 || ch == 0 {
                None
            } else {
                Some((cx, cy, cw, ch))
            }
        },
    }
}

/// Compute the crop rectangle for `region` against a `w x h` image.
pub fn crop_rect(region: &Region, w: u32, h: u32) -> (r: Result<(u32, u32, u32, u32), Error>)
    requires
        region.wf(),
    ensures
        (r is Ok) == (spec_crop_rect(*region, w as nat, h as nat) is Some),
        r matches Ok((x, y, cw, ch)) ==> {
            &&& Some(((x as nat, y as nat, cw as nat, ch as nat))) == spec_crop_rect(
                *region,
                w as nat,
                h as nat,
            )
            &&& x + cw <= w
            &&& y + ch <= h
        },
        r matches Err(e) ==> e == Error::BadRequest,
{
    match *region {
        Region::Full => Ok((0, 0, w, h)),
        Region::Square => {
            let side = if w <= h {
                w
            } else {
                h
            };
            if side == 0 {
                Err(Error::BadRequest)
            } else {
                Ok(((w - side) / 2, (h - side) / 2, side, side))
            }
        },
        Region::Absolute { x, y, w: rw, h: rh } => {
            if (x as u64) + (rw as u64) <= (w as u64) && (y as u64) + (rh as u64) <= (
            h as u64) {
                Ok((x, y, rw, rh))
            } else {
                Err(Error::BadRequest)
            }
        },
        Region::Percent { x, y, w: pw, h: ph } => {
            let px = scale_by_pct(w, &x);
            let py = scale_by_pct(h, &y);
            let qw = scale_by_pct(w, &pw);
            let qh = scale_by_pct(h, &ph);
            let cx = if px <= w {
                px
            } else {
                w
            };
            let cy = if py <= h {
                py
            } else {
                h
            };
            let cw = if qw <= w - cx {
                qw
            } else {
                w - cx
            };
            let ch = if qh <= h - cy {
                qh
            } else {
                h - cy
            };
            if cw == 0 || ch == 0 {
                Err(Error::BadRequest)
            } else {
                Ok((cx, cy, cw, ch))
            }
        },
    }
}

/// The dimensions a successful crop leaves: the rectangle's size, or
/// the image's own for `Full`.
pub open spec fn spec_crop_dims(region: Region, w: nat, h: nat) -> Option<(nat, nat)> {
    match spec_crop_rect(region, w, h) {
        Some((_x, _y, cw, ch)) => Some((cw, ch)),
        None => None,
    }
}

/// Crop an image to a region. `Full` returns the image unchanged;
/// anything else cuts the rectangle `spec_crop_rect` defines, and fails
/// with `BadRequest` where that rectangle is undefined.
pub fn crop_image(image: image::DynamicImage, region: &Region) -> (r: Result<
    image::DynamicImage,
    Error,
>)
    requires
        region.wf(),
    ensures
        (r is Ok) == (spec_crop_dims(*region, img_width(image), img_height(image)) is Some),
        r matches Ok(out) ==> Some((img_width(out), img_height(out))) == spec_crop_dims(
            *region,
            img_width(image),
            img_height(image),
        ),
        r matches Err(e) ==> e == Error::BadRequest,
        // Full is the identity: the image itself comes back.
        *region == Region::Full ==> r == Result::<image::DynamicImage, Error>::Ok(image),
{
    match *region {
        Region::Full => Ok(image),
        _ => {
            let w = width_of(&image);
            let h = height_of(&image);
            match crop_rect(region, w, h) {
                Ok((x, y, cw, ch)) => Ok(crop_of(&image, x, y, cw, ch)),
                Err(e) => Err(e),
            }
        },
    }
}

/// The requested target dimensions, before any flag is considered,
/// computed against the already-cropped image's current dimensions.
pub open spec fn spec_target_dims(kind: SizeKind, w: nat, h: nat) -> (nat, nat) {
    match kind {
        SizeKind::Max => (w, h),
        SizeKind::Width(tw) => (tw as nat, h),
        SizeKind::Height(th) => (w, th as nat),
        SizeKind::Percent(p) => (spec_scale_pct(w, p), spec_scale_pct(h, p)),
        SizeKind::WidthHeight { w: tw, h: th } => (tw as nat, th as nat),
    }
}

/// Why a resize fails, or `None` where it succeeds. Checked in order:
/// a requested dimension above the source without the upscale flag is
/// `UpscaleRejected`; a zero target dimension, a target whose final or
/// intermediate pixel buffer would overflow the codec's buffer
/// arithmetic (the exact resample runs through a source-width-by-target-
/// height intermediate), and a ratio-preserving resize of an empty
/// image are `BadRequest`.
pub open spec fn spec_resize_check(size: Size, w: nat, h: nat) -> Option<Error> {
    if size.kind == SizeKind::Max {
        None
    } else {
        let (nw, nh) = spec_target_dims(size.kind, w, h);
        if !size.allow_upscale && (nw > w || nh > h) {
            Some(Error::UpscaleRejected)
        } else if nw == 0 || nh == 0 {
            Some(Error::BadRequest)
        } else if nw * nh * 16 > usize::MAX as nat {
            Some(Error::BadRequest)
        } else if !size.maintain_ratio && w * nh * 16 > usize::MAX as nat {
            Some(Error::BadRequest)
        } else if size.maintain_ratio && (w == 0 || h == 0) {
            Some(Error::BadRequest)
        } else {
            None
        }
    }
}

/// Resize an image as a size request asks. `Max` is the identity. With
/// `maintain_ratio` the image is scaled, aspect preserved, to the
/// largest size fitting the target box; otherwise to exactly the target
/// dimensions. A target exceeding the source in either dimension
/// without `allow_upscale` is rejected, never silently clamped.
pub fn resize_image(image: image::DynamicImage, size_req: &Size) -> (r: Result<
    image::DynamicImage,
    Error,
>)
    requires
        size_req.wf(),
    ensures
        (r is Ok) == (spec_resize_check(
            *size_req,
            img_width(image),
            img_height(image),
        ) is None),
        r matches Err(e) ==> Some(e) == spec_resize_check(
            *size_req,
            img_width(image),
            img_height(image),
        ),
        r matches Ok(out) ==> {
            let w = img_width(image);
            let h = img_height(image);
            let (nw, nh) = spec_target_dims(size_req.kind, w, h);
            &&& (size_req.kind == SizeKind::Max ==> img_width(out) == w && img_height(out)
                == h)
            &&& (size_req.kind != SizeKind::Max && size_req.maintain_ratio ==> 1 <= img_width(
                out,
            ) <= nw && 1 <= img_height(out) <= nh)
            &&& (size_req.kind != SizeKind::Max && !size_req.maintain_ratio ==> img_width(out)
                == nw && img_height(out) == nh)
        },
        // Max is the identity of the resize stage: the image itself
        // comes back, whatever the flags say.
        size_req.kind == SizeKind::Max ==> r == Result::<image::DynamicImage, Error>::Ok(
            image,
        ),
        // A requested dimension beyond the source without the upscale
        // flag always fails, whatever else holds.
        !size_req.allow_upscale && size_req.kind != SizeKind::Max && (spec_target_dims(
            size_req.kind,
            img_width(image),
            img_height(image),
        ).0 > img_width(image) || spec_target_dims(
            size_req.kind,
            img_width(image),
            img_height(image),
        ).1 > img_height(image)) ==> r == Result::<image::DynamicImage, Error>::Err(
            Error::UpscaleRejected,
        ),
{
    let w = width_of(&image);
    let h = height_of(&image);
    let (nw, nh): (u32, u32) = match size_req.kind {
        SizeKind::Max => {
            return Ok(image);
        },
        SizeKind::Width(tw) => (tw, h),
        SizeKind::Height(th) => (w, th),
        SizeKind::Percent(p) => (scale_by_pct(w, &p), scale_by_pct(h, &p)),
        SizeKind::WidthHeight { w: tw, h: th } => (tw, th),
    };
    if !size_req.allow_upscale && (nw > w || nh > h) {
        return Err(Error::UpscaleRejected);
    }
    if nw == 0 || nh == 0 {
        return Err(Error::BadRequest);
    }
    proof {
        vstd::arithmetic::mul::lemma_mul_upper_bound(
            nw as int,
            u32::MAX as int,
            nh as int,
            u32::MAX as int,
        );
    }
    let prod: u64 = (nw as u64) * (nh as u64);
    let limit: u64 = (usize::MAX as u64) / 16;
    if prod > limit {
        proof {
            lemma_mul16_threshold(prod as int, usize::MAX as int);
        }
        return Err(Error::BadRequest);
    }
    proof {
        lemma_mul16_threshold(prod as int, usize::MAX as int);
    }
    if size_req.maintain_ratio {
        if w == 0 || h == 0 {
            return Err(Error::BadRequest);
        }
        Ok(resize_within(&image, nw, nh))
    } else {
        // The exact resample also runs through an intermediate buffer
        // of the source width by the target height.
        proof {
            vstd::arithmetic::mul::lemma_mul_upper_bound(
                w as int,
                u32::MAX as int,
                nh as int,
                u32::MAX as int,
            );
        }
        let mid: u64 = (w as u64) * (nh as u64);
        if mid > limit {
            proof {
                lemma_mul16_threshold(mid as int, usize::MAX as int);
            }
            return Err(Error::BadRequest);
        }
        proof {
            lemma_mul16_threshold(mid as int, usize::MAX as int);
        }
        Ok(resize_exact_to(&image, nw, nh))
    }
}

/// `p * 16 > m` exactly when `p` exceeds `m / 16` (integer division).
proof fn lemma_mul16_threshold(p: int, m: int)
    requires
        p >= 0,
        m >= 0,
    ensures
        (p * 16 > m) <==> (p > m / 16),
{
    vstd::arithmetic::div_mod::lemma_fundamental_div_mod(m, 16);
}

/// The dimensions rotation leaves: quarter turns swap them.
pub open spec fn spec_rotated_dims(rotation: Rotation, w: nat, h: nat) -> (nat, nat) {
    match rotation.deg {
        RotationDeg::Deg90 => (h, w),
        RotationDeg::Deg270 => (h, w),
        _ => (w, h),
    }
}

/// Rotate an image in place: the mirror flag applies a horizontal flip
/// first; `180 degrees + mirror` is carried out as the equivalent
/// vertical flip; all rotations are axis-aligned quarter turns.
pub fn rotate_image(image: &mut image::DynamicImage, rotation: &Rotation)
    ensures
        img_width(*final(image)) == spec_rotated_dims(
            *rotation,
            img_width(*old(image)),
            img_height(*old(image)),
        ).0,
        img_height(*final(image)) == spec_rotated_dims(
            *rotation,
            img_width(*old(image)),
            img_height(*old(image)),
        ).1,
        // A rotation by nothing leaves the image itself untouched.
        *rotation == (Rotation { deg: RotationDeg::Deg0, mirror: false }) ==> *final(image)
            == *old(image),
{
    match *rotation {
        Rotation { deg: RotationDeg::Deg0, mirror } => {
            if mirror {
                flip_horizontal(image);
            }
        },
        Rotation { deg: RotationDeg::Deg90, mirror } => {
            if mirror {
                flip_horizontal(image);
            }
            rotate_90(image);
        },
        Rotation { deg: RotationDeg::Deg180, mirror: true } => {
            flip_vertical(image);
        },
        Rotation { deg: RotationDeg::Deg180, mirror: false } => {
            rotate_180(image);
        },
        Rotation { deg: RotationDeg::Deg270, mirror } => {
            if mirror {
                flip_horizontal(image);
            }
            rotate_270(image);
        },
    }
}

/// Whether the whole pipeline succeeds on an image of the given
/// dimensions, and with which error it fails otherwise: a failing crop
/// is `BadRequest`; a failing resize carries the resize stage's error.
pub open spec fn spec_transform_check(region: Region, size: Size, w: nat, h: nat) -> Option<
    Error,
> {
    match spec_crop_dims(region, w, h) {
        None => Some(Error::BadRequest),
        Some((cw, ch)) => spec_resize_check(size, cw, ch),
    }
}

/// Run the full pipeline: crop, then resize, then rotate, in that
/// order. This is the compute core of a request once its image has been
/// fetched; decoding and encoding stay with the caller.
pub fn transform_image(image: image::DynamicImage, region: &Region, size_req: &Size, rotation:
    &Rotation) -> (r: Result<image::DynamicImage, Error>)
    requires
        region.wf(),
        size_req.wf(),
    ensures
        (r is Ok) == (spec_transform_check(
            *region,
            *size_req,
            img_width(image),
            img_height(image),
        ) is None),
        r matches Err(e) ==> Some(e) == spec_transform_check(
            *region,
            *size_req,
            img_width(image),
            img_height(image),
        ),
        r matches Ok(out) ==> {
            let (cw, ch) = spec_crop_dims(
                *region,
                img_width(image),
                img_height(image),
            ).unwrap();
            let (nw, nh) = spec_target_dims(size_req.kind, cw, ch);
            let rot = *rotation;
            &&& (size_req.kind == SizeKind::Max ==> Some(
                (img_width(out), img_height(out)),
            ) == Some(spec_rotated_dims(rot, cw, ch)))
            &&& (size_req.kind != SizeKind::Max && !size_req.maintain_ratio ==> Some(
                (img_width(out), img_height(out)),
            ) == Some(spec_rotated_dims(rot, nw, nh)))
            &&& (size_req.kind != SizeKind::Max && size_req.maintain_ratio ==> {
                let (bw, bh) = spec_rotated_dims(rot, nw, nh);
                1 <= img_width(out) <= bw && 1 <= img_height(out) <= bh
            })
        },
        // The all-identity request leaves the image itself untouched.
        *region == Region::Full && size_req.kind == SizeKind::Max && *rotation == (Rotation {
            deg: RotationDeg::Deg0,
            mirror: false,
        }) ==> r == Result::<image::DynamicImage, Error>::Ok(image),
{
    let cropped = match crop_image(image, region) {
        Ok(v) => v,
        Err(e) => {
            return Err(e);
        },
    };
    let mut resized = match resize_image(cropped, size_req) {
        Ok(v) => v,
        Err(e) => {
            return Err(e);
        },
    };
    rotate_image(&mut resized, rotation);
    Ok(resized)
}

} // verus!
