//! What an image decoder says of the picture it hands over: the layout of its
//! samples and the orientation its file states.

use vstd::prelude::*;

verus! {

/// Channels and sample size of a decoded buffer.
#[derive(Clone, Copy, Debug, PartialEq, Eq, Structural)]
pub enum ColorType {
    L8,
    La8,
    Rgb8,
    Rgba8,
    L16,
    La16,
    Rgb16,
    Rgba16,
    Rgb32F,
    Rgba32F,
    /// A layout this library does not write.
    Unknown,
}

impl ColorType {
    /// The name a message or a property gives this layout.
    pub open spec fn text(self) -> Seq<char> {
        match self {
            ColorType::L8 => "L8"@,
            ColorType::La8 => "La8"@,
            ColorType::Rgb8 => "Rgb8"@,
            ColorType::Rgba8 => "Rgba8"@,
            ColorType::L16 => "L16"@,
            ColorType::La16 => "La16"@,
            ColorType::Rgb16 => "Rgb16"@,
            ColorType::Rgba16 => "Rgba16"@,
            ColorType::Rgb32F => "Rgb32F"@,
            ColorType::Rgba32F => "Rgba32F"@,
            ColorType::Unknown => "Unknown"@,
        }
    }

    /// The name a message or a property gives this layout.
    pub fn name(self) -> (name: &'static str)
        ensures
            name@ == self.text(),
    {
        match self {
            ColorType::L8 => "L8",
            ColorType::La8 => "La8",
            ColorType::Rgb8 => "Rgb8",
            ColorType::Rgba8 => "Rgba8",
            ColorType::L16 => "L16",
            ColorType::La16 => "La16",
            ColorType::Rgb16 => "Rgb16",
            ColorType::Rgba16 => "Rgba16",
            ColorType::Rgb32F => "Rgb32F",
            ColorType::Rgba32F => "Rgba32F",
            ColorType::Unknown => "Unknown",
        }
    }
}

/// The eight transformations the exif orientation tag names, after what they do
/// to the stored picture: the rotation comes first and the mirror second.
#[derive(Clone, Copy, Debug, PartialEq, Eq, Structural)]
pub enum Orientation {
    NoTransforms,
    Rotate90,
    Rotate180,
    Rotate270,
    FlipHorizontal,
    FlipVertical,
    Rotate90FlipH,
    Rotate270FlipH,
}

impl Orientation {
    /// The exif code of this orientation.
    pub open spec fn exif(self) -> int {
        match self {
            Orientation::NoTransforms => 1,
            Orientation::FlipHorizontal => 2,
            Orientation::Rotate180 => 3,
            Orientation::FlipVertical => 4,
            Orientation::Rotate90FlipH => 5,
            Orientation::Rotate90 => 6,
            Orientation::Rotate270FlipH => 7,
            Orientation::Rotate270 => 8,
        }
    }

    /// The exif code of this orientation.
    pub fn to_exif(self) -> (code: u8)
        ensures
            code == self.exif(),
            1 <= code <= 8,
    {
        match self {
            Orientation::NoTransforms => 1,
            Orientation::FlipHorizontal => 2,
            Orientation::Rotate180 => 3,
            Orientation::FlipVertical => 4,
            Orientation::Rotate90FlipH => 5,
            Orientation::Rotate90 => 6,
            Orientation::Rotate270FlipH => 7,
            Orientation::Rotate270 => 8,
        }
    }

    /// The orientation an exif code names, which only the codes from one to
    /// eight do.
    pub fn from_exif(code: u8) -> (orientation: Option<Orientation>)
        ensures
            match orientation {
                Some(orientation) => orientation.exif() == code,
                None => !(1 <= code <= 8),
            },
    {
        match code {
            1 => Some(Orientation::NoTransforms),
            2 => Some(Orientation::FlipHorizontal),
            3 => Some(Orientation::Rotate180),
            4 => Some(Orientation::FlipVertical),
            5 => Some(Orientation::Rotate90FlipH),
            6 => Some(Orientation::Rotate90),
            7 => Some(Orientation::Rotate270FlipH),
            8 => Some(Orientation::Rotate270),
            _ => None,
        }
    }
}

/// A code names one orientation only, so an orientation survives being written
/// as a code and read back.
pub proof fn an_exif_code_names_one_orientation(left: Orientation, right: Orientation)
    requires
        left.exif() == right.exif(),
    ensures
        left == right,
{
}

} // verus!
