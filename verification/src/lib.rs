//! Verified core of an IIIF-style image service: the request grammar
//! parser, the crop/resize/rotate transform pipeline, and the image-source
//! layer with its content-addressed proxy cache.

pub mod error;
pub mod decimal;
pub mod scan;
pub mod format;
pub mod api;
pub mod raster;
pub mod image_ops;
pub mod bytemap;
pub mod image_loader;
