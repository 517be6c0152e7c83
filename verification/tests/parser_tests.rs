use iiif_image::api::image::{
    encode_absolute, parse_image_request, parse_quality, parse_region, parse_rotation,
    parse_size, Quality, Region, Rotation, RotationDeg, Size, SizeKind,
};
use iiif_image::decimal::Decimal;
use iiif_image::error::Error;
use iiif_image::format::{parse_format, Format};

fn dec(mantissa: u64, places: u32) -> Decimal {
    Decimal { mantissa, places }
}

#[test]
fn test_parse_rotation() {
    assert_eq!(
        parse_rotation(b"0"),
        Ok(Rotation {
            deg: RotationDeg::Deg0,
            mirror: false
        })
    );

    // Only the literal tokens 0, 90, 180, 270 and 360 are rotations;
    // any other numeral is a parse failure.
    assert!(parse_rotation(b"!25").is_err());

    assert!(parse_rotation(b"flip").is_err());
    assert!(parse_rotation(b"-180").is_err());
    assert!(parse_rotation(b"45").is_err());
}

#[test]
fn rotation_360_normalizes_to_zero() {
    assert_eq!(
        parse_rotation(b"360"),
        Ok(Rotation {
            deg: RotationDeg::Deg0,
            mirror: false
        })
    );
    assert_eq!(
        parse_rotation(b"!360"),
        Ok(Rotation {
            deg: RotationDeg::Deg0,
            mirror: true
        })
    );
    // Leftover digits after a token are not a rotation.
    assert!(parse_rotation(b"3600").is_err());
    assert!(parse_rotation(b"00").is_err());
}

#[test]
fn parse_full_request_defaults() {
    let req = parse_image_request(b"abc123/full/max/0/default.jpg").unwrap();
    assert_eq!(req.identifier, b"abc123".to_vec());
    assert_eq!(req.region, Region::Full);
    assert_eq!(
        req.size,
        Size {
            allow_upscale: false,
            maintain_ratio: false,
            kind: SizeKind::Max
        }
    );
    assert_eq!(
        req.rotation,
        Rotation {
            deg: RotationDeg::Deg0,
            mirror: false
        }
    );
    assert_eq!(req.quality, Quality::Default);
    assert_eq!(req.format, Format::Jpeg);
}

#[test]
fn zero_width_absolute_region_fails() {
    assert!(parse_image_request(b"id/0,0,0,100/max/0/default.png").is_err());
}

#[test]
fn percent_region_and_mirrored_rotation() {
    let req = parse_image_request(b"id/pct:10,10,50,50/max/!90/default.tif").unwrap();
    assert_eq!(
        req.region,
        Region::Percent {
            x: dec(10, 0),
            y: dec(10, 0),
            w: dec(50, 0),
            h: dec(50, 0)
        }
    );
    assert_eq!(
        req.rotation,
        Rotation {
            deg: RotationDeg::Deg90,
            mirror: true
        }
    );
    assert_eq!(req.format, Format::Tiff);
}

#[test]
fn trailing_comma_is_width_only() {
    let req = parse_image_request(b"id/full/150,/0/default.jpg").unwrap();
    assert_eq!(req.size.kind, SizeKind::Width(150));
    assert!(!req.size.allow_upscale);
    assert!(!req.size.maintain_ratio);
}

#[test]
fn leading_comma_is_height_only() {
    let req = parse_image_request(b"id/full/,300/0/default.jpg").unwrap();
    assert_eq!(req.size.kind, SizeKind::Height(300));
}

#[test]
fn size_flags_in_either_order() {
    let a = parse_size(b"^!200,100").unwrap();
    assert!(a.allow_upscale && a.maintain_ratio);
    assert_eq!(a.kind, SizeKind::WidthHeight { w: 200, h: 100 });

    let b = parse_size(b"!^200,100").unwrap();
    assert!(b.allow_upscale && b.maintain_ratio);

    let c = parse_size(b"^pct:25").unwrap();
    assert!(c.allow_upscale && !c.maintain_ratio);
    assert_eq!(c.kind, SizeKind::Percent(dec(25, 0)));

    let d = parse_size(b"!max").unwrap();
    assert!(!d.allow_upscale && d.maintain_ratio);
    assert_eq!(d.kind, SizeKind::Max);
}

#[test]
fn size_rejects_malformed_forms() {
    assert!(parse_size(b"150").is_err());
    assert!(parse_size(b",0").is_err());
    assert!(parse_size(b"0,5").is_err());
    assert!(parse_size(b"5,0").is_err());
    assert!(parse_size(b"").is_err());
    assert!(parse_size(b"^^max").is_err());
    assert!(parse_size(b"max extra").is_err());
}

#[test]
fn region_forms_and_failures() {
    assert_eq!(parse_region(b"full"), Ok(Region::Full));
    assert_eq!(parse_region(b"square"), Ok(Region::Square));
    assert_eq!(
        parse_region(b"1,2,3,4"),
        Ok(Region::Absolute {
            x: 1,
            y: 2,
            w: 3,
            h: 4
        })
    );
    assert_eq!(
        parse_region(b"pct:0.5,10.25,50,50"),
        Ok(Region::Percent {
            x: dec(5, 1),
            y: dec(1025, 2),
            w: dec(50, 0),
            h: dec(50, 0)
        })
    );
    // A bare fractional part is a valid float.
    assert_eq!(
        parse_region(b"pct:.5,.5,.5,.5"),
        Ok(Region::Percent {
            x: dec(5, 1),
            y: dec(5, 1),
            w: dec(5, 1),
            h: dec(5, 1)
        })
    );
    assert!(parse_region(b"fullish").is_err());
    assert!(parse_region(b"1,2,3").is_err());
    assert!(parse_region(b"1,2,3,4,5").is_err());
    assert!(parse_region(b"pct:10,10,50").is_err());
    assert!(parse_region(b"pct:1.,1,1,1").is_err());
    assert!(parse_region(b"-1,2,3,4").is_err());
    // A coordinate beyond u32 is rejected, not wrapped.
    assert!(parse_region(b"4294967296,0,1,1").is_err());
    assert_eq!(
        parse_region(b"4294967295,0,1,1"),
        Ok(Region::Absolute {
            x: 4294967295,
            y: 0,
            w: 1,
            h: 1
        })
    );
}

#[test]
fn quality_and_format_parsing() {
    assert_eq!(parse_quality(b"color"), Ok(Quality::Color));
    assert_eq!(parse_quality(b"gray"), Ok(Quality::Gray));
    assert_eq!(parse_quality(b"bitonal"), Ok(Quality::Bitonal));
    assert_eq!(parse_quality(b"default"), Ok(Quality::Default));
    assert!(parse_quality(b"colorful").is_err());

    assert_eq!(parse_format(b"jpg"), Ok(Format::Jpeg));
    assert_eq!(parse_format(b"TIF"), Ok(Format::Tiff));
    assert_eq!(parse_format(b"png"), Ok(Format::Png));
    assert!(parse_format(b"xyz").is_err());
    assert!(parse_format(b"").is_err());
    assert!(parse_format(b"jp g").is_err());
}

#[test]
fn request_structure_is_all_or_nothing() {
    // Too few segments.
    assert!(parse_image_request(b"id/full/max/0").is_err());
    // Too many segments.
    assert!(parse_image_request(b"id/full/max/0/default.jpg/extra").is_err());
    // Empty identifier.
    assert!(parse_image_request(b"/full/max/0/default.jpg").is_err());
    // Leftover text inside a segment.
    assert!(parse_image_request(b"id/full2/max/0/default.jpg").is_err());
    // A second dot ends the format token early.
    assert!(parse_image_request(b"id/full/max/0/default.tar.gz").is_err());
    // Quality must be followed by a dot and a known extension.
    assert!(parse_image_request(b"id/full/max/0/default").is_err());
    assert!(parse_image_request(b"id/full/max/0/default.xyz").is_err());
}

#[test]
fn syntax_errors_carry_the_failing_production() {
    match parse_image_request(b"id/notaregion/max/0/default.jpg") {
        Err(Error::Syntax { .. }) => {}
        other => panic!("expected a syntax error, got {:?}", other),
    }
}

#[test]
fn absolute_region_round_trips() {
    let cases: [(u32, u32, u32, u32); 4] = [
        (0, 0, 1, 1),
        (10, 20, 30, 40),
        (4294967295, 0, 4294967295, 1),
        (7, 0, 100, 2000),
    ];
    for (x, y, w, h) in cases {
        let seg = encode_absolute(x, y, w, h);
        assert_eq!(parse_region(&seg), Ok(Region::Absolute { x, y, w, h }));
    }
}

#[test]
fn numeric_overflow_in_decimals_is_rejected() {
    // A mantissa beyond u64 fails.
    assert!(parse_size(b"pct:99999999999999999999999999").is_err());
    // Many fractional digits beyond the supported precision fail.
    assert!(parse_size(b"pct:1.00000000000000000000005").is_err());
    // Within range parses exactly.
    assert_eq!(
        parse_size(b"pct:12.5").unwrap().kind,
        SizeKind::Percent(dec(125, 1))
    );
}
