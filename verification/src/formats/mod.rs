//! What the containers of the formats state about their pictures.

pub mod av1;
pub mod avif;
pub mod avif_decode;
pub mod bits;
pub mod boxes;
pub mod heif;
pub mod heif_decode;
pub mod items;
pub mod jp2;
pub mod jp2_decode;
pub mod jxl;
pub mod meta;
pub mod png;
pub mod rows;
pub mod webp;
