//! The pixel formats a frame can have, and how decoded samples reach its
//! planes.

pub mod alpha;
pub mod channel;
pub mod interleaved;
pub mod layout;
pub mod pixel_format;
pub mod planar;
pub mod samples;
pub mod transform;
pub mod walk;

pub use alpha::{write_alpha, write_opaque_alpha};
pub use interleaved::{write_planar, WriteTimings};
pub use pixel_format::{alpha_channel, channel_count, PixelFormat};
pub use planar::{write_decoded_plane, write_decoded_planes};
pub use transform::{inverse_orientation, Transform};
