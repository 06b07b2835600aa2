//! Reads an ordered list of images as a clip: what every file states about
//! itself, how its samples land in the planes of a frame, and which frames are
//! decoded ahead of the requests.

pub mod bytes;
pub mod clip;
pub mod color;
pub mod decoder;
pub mod error;
pub mod formats;
pub mod frame;
pub mod image_types;
pub mod picture;
pub mod pixel;
pub mod prefetch;
pub mod source;
pub mod text;
pub mod timing;
