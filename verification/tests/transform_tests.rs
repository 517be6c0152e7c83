use iiif_image::api::image::{Region, Rotation, RotationDeg, Size, SizeKind};
use iiif_image::api::info::{ComplianceLevel, ImageInfo};
use iiif_image::decimal::{scale_by_pct, Decimal};
use iiif_image::error::{Error, Production};
use iiif_image::image_ops::{crop_image, crop_rect, resize_image, rotate_image, transform_image};

fn dec(mantissa: u64, places: u32) -> Decimal {
    Decimal { mantissa, places }
}

fn img(w: u32, h: u32) -> image::DynamicImage {
    image::DynamicImage::new_rgb8(w, h)
}

#[test]
fn square_crop_is_centered() {
    // Landscape: the offset sits on the long axis only.
    assert_eq!(crop_rect(&Region::Square, 5, 3, ), Ok((1, 0, 3, 3)));
    // Portrait.
    assert_eq!(crop_rect(&Region::Square, 3, 7, ), Ok((0, 2, 3, 3)));
    // Already square: both offsets are zero, not out of range.
    assert_eq!(crop_rect(&Region::Square, 4, 4, ), Ok((0, 0, 4, 4)));
    // Even margin split.
    assert_eq!(crop_rect(&Region::Square, 10, 4, ), Ok((3, 0, 4, 4)));
}

#[test]
fn absolute_crop_requires_bounds() {
    let r = Region::Absolute {
        x: 2,
        y: 1,
        w: 3,
        h: 2,
    };
    assert_eq!(crop_rect(&r, 10, 10), Ok((2, 1, 3, 2)));
    // Out of bounds fails rather than clamps.
    assert_eq!(crop_rect(&r, 4, 10), Err(Error::BadRequest));
    assert_eq!(crop_rect(&r, 10, 2), Err(Error::BadRequest));

    let out = crop_image(img(10, 10), &r).unwrap();
    assert_eq!((out.width(), out.height()), (3, 2));
    assert!(crop_image(img(4, 10), &r).is_err());
}

#[test]
fn percent_crop_rounds_half_up() {
    // 50% of 5 is 2.5, which rounds up to 3.
    let r = Region::Percent {
        x: dec(0, 0),
        y: dec(0, 0),
        w: dec(50, 0),
        h: dec(50, 0),
    };
    assert_eq!(crop_rect(&r, 5, 5), Ok((0, 0, 3, 3)));
    // Percent coordinates measure against the pre-crop dimensions.
    let r2 = Region::Percent {
        x: dec(25, 0),
        y: dec(10, 0),
        w: dec(50, 0),
        h: dec(80, 0),
    };
    assert_eq!(crop_rect(&r2, 200, 100), Ok((50, 10, 100, 80)));
    // A zero-sized percent crop fails.
    let r3 = Region::Percent {
        x: dec(0, 0),
        y: dec(0, 0),
        w: dec(0, 0),
        h: dec(50, 0),
    };
    assert_eq!(crop_rect(&r3, 100, 100), Err(Error::BadRequest));
    // Fractional percentages are exact: 12.5% of 400 is 50.
    assert_eq!(scale_by_pct(400, &dec(125, 1)), 50);
}

#[test]
fn full_region_is_identity() {
    let out = crop_image(img(7, 9), &Region::Full).unwrap();
    assert_eq!((out.width(), out.height()), (7, 9));
}

#[test]
fn upscale_without_flag_is_rejected() {
    let size = Size {
        allow_upscale: false,
        maintain_ratio: false,
        kind: SizeKind::WidthHeight { w: 8, h: 8 },
    };
    assert!(matches!(
        resize_image(img(4, 4), &size),
        Err(Error::UpscaleRejected)
    ));
    // A single overlong dimension is enough.
    let tall = Size {
        allow_upscale: false,
        maintain_ratio: false,
        kind: SizeKind::Height(9),
    };
    assert!(matches!(
        resize_image(img(4, 4), &tall),
        Err(Error::UpscaleRejected)
    ));
    // The upscale flag permits it.
    let size_up = Size {
        allow_upscale: true,
        maintain_ratio: false,
        kind: SizeKind::WidthHeight { w: 8, h: 8 },
    };
    let out = resize_image(img(4, 4), &size_up).unwrap();
    assert_eq!((out.width(), out.height()), (8, 8));
}

#[test]
fn resize_forms() {
    // Max is the identity.
    let size = Size {
        allow_upscale: false,
        maintain_ratio: false,
        kind: SizeKind::Max,
    };
    let out = resize_image(img(6, 4), &size).unwrap();
    assert_eq!((out.width(), out.height()), (6, 4));

    // Width-only keeps the current height.
    let wonly = Size {
        allow_upscale: false,
        maintain_ratio: false,
        kind: SizeKind::Width(3),
    };
    let out = resize_image(img(6, 4), &wonly).unwrap();
    assert_eq!((out.width(), out.height()), (3, 4));

    // Percent scales both, rounding half up.
    let pct = Size {
        allow_upscale: false,
        maintain_ratio: false,
        kind: SizeKind::Percent(dec(50, 0)),
    };
    let out = resize_image(img(5, 4), &pct).unwrap();
    assert_eq!((out.width(), out.height()), (3, 2));

    // Zero target dimensions fail.
    let zero = Size {
        allow_upscale: false,
        maintain_ratio: false,
        kind: SizeKind::Percent(dec(0, 0)),
    };
    assert!(matches!(resize_image(img(5, 4), &zero), Err(Error::BadRequest)));

    // Ratio-preserving fits within the box.
    let boxed = Size {
        allow_upscale: false,
        maintain_ratio: true,
        kind: SizeKind::WidthHeight { w: 3, h: 4 },
    };
    let out = resize_image(img(8, 4), &boxed).unwrap();
    assert!(out.width() <= 3 && out.height() <= 4);
    assert!(out.width() >= 1 && out.height() >= 1);
}

#[test]
fn rotation_dimensions_and_mirror() {
    let mut a = img(6, 2);
    rotate_image(
        &mut a,
        &Rotation {
            deg: RotationDeg::Deg90,
            mirror: false,
        },
    );
    assert_eq!((a.width(), a.height()), (2, 6));

    let mut b = img(6, 2);
    rotate_image(
        &mut b,
        &Rotation {
            deg: RotationDeg::Deg180,
            mirror: true,
        },
    );
    assert_eq!((b.width(), b.height()), (6, 2));

    let mut c = img(6, 2);
    rotate_image(
        &mut c,
        &Rotation {
            deg: RotationDeg::Deg270,
            mirror: true,
        },
    );
    assert_eq!((c.width(), c.height()), (2, 6));

    let mut d = img(6, 2);
    rotate_image(
        &mut d,
        &Rotation {
            deg: RotationDeg::Deg0,
            mirror: true,
        },
    );
    assert_eq!((d.width(), d.height()), (6, 2));
}

#[test]
fn mirror_flips_pixels_horizontally() {
    let mut buf = image::RgbImage::new(2, 1);
    buf.put_pixel(0, 0, image::Rgb([255, 0, 0]));
    buf.put_pixel(1, 0, image::Rgb([0, 255, 0]));
    let mut dynimg = image::DynamicImage::ImageRgb8(buf);
    rotate_image(
        &mut dynimg,
        &Rotation {
            deg: RotationDeg::Deg0,
            mirror: true,
        },
    );
    let flipped = dynimg.to_rgb8();
    assert_eq!(flipped.get_pixel(0, 0).0, [0, 255, 0]);
    assert_eq!(flipped.get_pixel(1, 0).0, [255, 0, 0]);
}

#[test]
fn pipeline_crops_then_resizes_then_rotates() {
    let region = Region::Absolute {
        x: 0,
        y: 0,
        w: 8,
        h: 4,
    };
    let size = Size {
        allow_upscale: false,
        maintain_ratio: false,
        kind: SizeKind::WidthHeight { w: 4, h: 2 },
    };
    let rotation = Rotation {
        deg: RotationDeg::Deg90,
        mirror: false,
    };
    let out = transform_image(img(10, 10), &region, &size, &rotation).unwrap();
    assert_eq!((out.width(), out.height()), (2, 4));

    // The resize target is measured against the cropped dimensions.
    let upscale_after_crop = Size {
        allow_upscale: false,
        maintain_ratio: false,
        kind: SizeKind::WidthHeight { w: 9, h: 2 },
    };
    assert!(matches!(
        transform_image(img(10, 10), &region, &upscale_after_crop, &rotation),
        Err(Error::UpscaleRejected)
    ));
}

#[test]
fn info_descriptor_fields() {
    let info = ImageInfo::new("test", "photo1", &img(640, 480));
    assert_eq!(info.width, 640);
    assert_eq!(info.height, 480);
    assert_eq!(info.id, "http://localhost:3000/iiif/test/photo1");
    assert_eq!(info.type_, "ImageService3");
    assert_eq!(info.protocol, "http://iiif.io/api/image");
    assert_eq!(info.profile, ComplianceLevel::Level2);
    assert_eq!(info.context.len(), 1);
    assert_eq!(info.context[0], "http://iiif.io/api/image/3/context.json");
    assert_eq!(info.max_width, 10000);
    assert_eq!(info.max_height, 10000);
    assert_eq!(info.max_area, 50000000);
}

#[test]
fn error_labels() {
    assert_eq!(
        Error::Syntax {
            pos: 3,
            expected: Production::Region
        }
        .label(),
        "syntax error"
    );
    assert_eq!(Error::BadInput.label(), "bad input");
    assert_eq!(Error::NotFound.label(), "not found");
    assert_eq!(Error::UpscaleRejected.label(), "upscale rejected");
    assert_eq!(Error::BadRequest.label(), "bad request");
    assert_eq!(Error::Decode.label(), "decode error");
    assert_eq!(Error::Encode.label(), "encode error");
}
