//! The image-information descriptor: a pure data-transfer object derived
//! from a decoded image's dimensions and the service's fixed limits.

use vstd::prelude::*;
use vstd::string::StringExecFns;

use crate::raster::{img_height, img_width, height_of, width_of};

verus! {

/// The compliance level advertised by the descriptor.
#[derive(Clone, Copy, Debug, PartialEq, Eq, Structural)]
pub enum ComplianceLevel {
    Level0,
    Level1,
    Level2,
}

/// The service metadata for one image, as served by the info endpoint.
#[derive(Clone, Debug)]
pub struct ImageInfo {
    pub context: Vec<String>,
    pub id: String,
    pub type_: String,
    pub protocol: String,
    pub profile: ComplianceLevel,
    pub width: u32,
    pub height: u32,
    pub max_width: u32,
    pub max_height: u32,
    pub max_area: u64,
}

pub const MAX_WIDTH: u32 = 10000;

pub const MAX_HEIGHT: u32 = 10000;

pub const MAX_AREA: u64 = 50000000;

impl ImageInfo {
    /// Build the descriptor for `image` as served under
    /// `prefix`/`id`: the advertised id joins the service base URL with
    /// both, and the dimensions are the decoded image's own.
    pub fn new(prefix: &str, id: &str, image: &image::DynamicImage) -> (r: ImageInfo)
        ensures
            r.context@.len() == 1,
            r.context@[0]@ == "http://iiif.io/api/image/3/context.json"@,
            r.id@ == "http://localhost:3000/iiif"@ + "/"@ + prefix@ + "/"@ + id@,
            r.type_@ == "ImageService3"@,
            r.protocol@ == "http://iiif.io/api/image"@,
            r.profile == ComplianceLevel::Level2,
            r.width == img_width(*image),
            r.height == img_height(*image),
            r.max_width == MAX_WIDTH,
            r.max_height == MAX_HEIGHT,
            r.max_area == MAX_AREA,
    {
        let mut joined = String::from_str("http://localhost:3000/iiif");
        joined.append("/");
        joined.append(prefix);
        joined.append("/");
        joined.append(id);
        let mut context: Vec<String> = Vec::new();
        context.push(String::from_str("http://iiif.io/api/image/3/context.json"));
        ImageInfo {
            context,
            id: joined,
            type_: String::from_str("ImageService3"),
            protocol: String::from_str("http://iiif.io/api/image"),
            profile: ComplianceLevel::Level2,
            width: width_of(image),
            height: height_of(image),
            max_width: MAX_WIDTH,
            max_height: MAX_HEIGHT,
            max_area: MAX_AREA,
        }
    }
}

} // verus!
