//! The request-facing API: the image-request grammar and the service
//! metadata descriptor.

pub mod image;
pub mod info;
