//! heif and heic containers, as libheif describes and decodes them.
//!
//! A monochrome image decodes into a single plane, and a colour file is stored
//! as yuv. Both kinds are read from the planes libheif hands over: the colour
//! clip is the yuv format the container states, the alpha clip is the gray plane
//! of the same depth, and nothing is converted.
//!
//! A file this module will not describe keeps the `image` decoder: a container
//! whose preferred colorspace is r,g,b, one libheif reports a custom or
//! non-visual arrangement for, and any file whose colour statement the frame
//! properties cannot carry.

use vstd::prelude::*;

use crate::color;
use crate::color::{
    usable_matrix, Cicp, ColorPrimaries, MatrixCoefficients, TransferCharacteristics, UNSPECIFIED,
};
use crate::decoder::ImageInfo;
use crate::formats::avif::{PROF, RICC};
use crate::frame::ColorFamily;
use crate::image_types::{ColorType, Orientation};
use crate::pixel::pixel_format;
use crate::pixel::{PixelFormat, Transform};
use crate::text;
use crate::text::path_has_extension;

verus! {

/// How the chroma planes of yuv samples are sampled.
#[derive(Clone, Copy, Debug, PartialEq, Eq, Structural)]
pub enum Chroma {
    C420,
    C422,
    C444,
}

/// How r,g,b samples are stored.
#[derive(Clone, Copy, Debug, PartialEq, Eq, Structural)]
pub enum RgbChroma {
    C444,
    Rgb,
    Rgba,
    HdrRgbBe,
    HdrRgbaBe,
    HdrRgbLe,
    HdrRgbaLe,
}

/// The colours of the samples libheif hands over.
#[derive(Clone, Copy, Debug, PartialEq, Eq, Structural)]
pub enum ColorSpace {
    Undefined,
    YCbCr(Chroma),
    Rgb(RgbChroma),
    Monochrome,
    /// A custom or non-visual arrangement.
    Other,
}

/// The primaries libheif names.
#[derive(Clone, Copy, Debug, PartialEq, Eq, Structural)]
pub enum HeifPrimaries {
    Bt709,
    Unspecified,
    Bt470M,
    Bt470Bg,
    Bt601,
    Smpte240M,
    GenericFilm,
    Bt2020,
    St428,
    Rp431,
    Eg432,
    Ebu3213E,
    Unknown,
}

/// The transfer characteristics libheif names.
#[derive(Clone, Copy, Debug, PartialEq, Eq, Structural)]
pub enum HeifTransfer {
    Bt709,
    Unspecified,
    Bt470M,
    Bt470Bg,
    Bt601,
    Smpte240M,
    Linear,
    Logarithmic100,
    Logarithmic100Sqrt10,
    Iec6196624,
    Bt1361,
    Iec6196621,
    Bt202010,
    Bt202012,
    Pq,
    St428,
    Hlg,
    Unknown,
}

/// The matrix coefficients libheif names.
#[derive(Clone, Copy, Debug, PartialEq, Eq, Structural)]
pub enum HeifMatrix {
    RgbGbr,
    Bt709,
    Unspecified,
    UsFccT47,
    Bt470Bg,
    Bt601,
    Smpte240M,
    YCgCo,
    Bt2020NonConstantLuminance,
    Bt2020ConstantLuminance,
    St2085,
    ChromaticityDerivedNonConstantLuminance,
    ChromaticityDerivedConstantLuminance,
    ICtCp,
    Unknown,
}

impl HeifPrimaries {
    /// The h.273 code point these primaries are: `Unspecified` and `Unknown` are
    /// both "this file says nothing that can be used".
    pub open spec fn number(self) -> int {
        match self {
            HeifPrimaries::Bt709 => 1,
            HeifPrimaries::Unspecified | HeifPrimaries::Unknown => 2,
            HeifPrimaries::Bt470M => 4,
            HeifPrimaries::Bt470Bg => 5,
            HeifPrimaries::Bt601 => 6,
            HeifPrimaries::Smpte240M => 7,
            HeifPrimaries::GenericFilm => 8,
            HeifPrimaries::Bt2020 => 9,
            HeifPrimaries::St428 => 10,
            HeifPrimaries::Rp431 => 11,
            HeifPrimaries::Eg432 => 12,
            HeifPrimaries::Ebu3213E => 22,
        }
    }

    /// The h.273 code point these primaries are.
    pub fn code(self) -> (code: u8)
        ensures
            code == self.number(),
    {
        match self {
            HeifPrimaries::Bt709 => 1,
            HeifPrimaries::Unspecified | HeifPrimaries::Unknown => UNSPECIFIED,
            HeifPrimaries::Bt470M => 4,
            HeifPrimaries::Bt470Bg => 5,
            HeifPrimaries::Bt601 => 6,
            HeifPrimaries::Smpte240M => 7,
            HeifPrimaries::GenericFilm => 8,
            HeifPrimaries::Bt2020 => 9,
            HeifPrimaries::St428 => 10,
            HeifPrimaries::Rp431 => 11,
            HeifPrimaries::Eg432 => 12,
            HeifPrimaries::Ebu3213E => 22,
        }
    }
}

impl HeifTransfer {
    /// The h.273 code point this transfer is.
    pub open spec fn number(self) -> int {
        match self {
            HeifTransfer::Bt709 => 1,
            HeifTransfer::Unspecified | HeifTransfer::Unknown => 2,
            HeifTransfer::Bt470M => 4,
            HeifTransfer::Bt470Bg => 5,
            HeifTransfer::Bt601 => 6,
            HeifTransfer::Smpte240M => 7,
            HeifTransfer::Linear => 8,
            HeifTransfer::Logarithmic100 => 9,
            HeifTransfer::Logarithmic100Sqrt10 => 10,
            HeifTransfer::Iec6196624 => 11,
            HeifTransfer::Bt1361 => 12,
            HeifTransfer::Iec6196621 => 13,
            HeifTransfer::Bt202010 => 14,
            HeifTransfer::Bt202012 => 15,
            HeifTransfer::Pq => 16,
            HeifTransfer::St428 => 17,
            HeifTransfer::Hlg => 18,
        }
    }

    /// The h.273 code point this transfer is.
    pub fn code(self) -> (code: u8)
        ensures
            code == self.number(),
    {
        match self {
            HeifTransfer::Bt709 => 1,
            HeifTransfer::Unspecified | HeifTransfer::Unknown => UNSPECIFIED,
            HeifTransfer::Bt470M => 4,
            HeifTransfer::Bt470Bg => 5,
            HeifTransfer::Bt601 => 6,
            HeifTransfer::Smpte240M => 7,
            HeifTransfer::Linear => 8,
            HeifTransfer::Logarithmic100 => 9,
            HeifTransfer::Logarithmic100Sqrt10 => 10,
            HeifTransfer::Iec6196624 => 11,
            HeifTransfer::Bt1361 => 12,
            HeifTransfer::Iec6196621 => 13,
            HeifTransfer::Bt202010 => 14,
            HeifTransfer::Bt202012 => 15,
            HeifTransfer::Pq => 16,
            HeifTransfer::St428 => 17,
            HeifTransfer::Hlg => 18,
        }
    }
}

impl HeifMatrix {
    /// The h.273 code point this matrix is.
    pub open spec fn number(self) -> int {
        match self {
            HeifMatrix::RgbGbr => 0,
            HeifMatrix::Bt709 => 1,
            HeifMatrix::Unspecified | HeifMatrix::Unknown => 2,
            HeifMatrix::UsFccT47 => 4,
            HeifMatrix::Bt470Bg => 5,
            HeifMatrix::Bt601 => 6,
            HeifMatrix::Smpte240M => 7,
            HeifMatrix::YCgCo => 8,
            HeifMatrix::Bt2020NonConstantLuminance => 9,
            HeifMatrix::Bt2020ConstantLuminance => 10,
            HeifMatrix::St2085 => 11,
            HeifMatrix::ChromaticityDerivedNonConstantLuminance => 12,
            HeifMatrix::ChromaticityDerivedConstantLuminance => 13,
            HeifMatrix::ICtCp => 14,
        }
    }

    /// The h.273 code point this matrix is.
    pub fn code(self) -> (code: u8)
        ensures
            code == self.number(),
    {
        match self {
            HeifMatrix::RgbGbr => 0,
            HeifMatrix::Bt709 => 1,
            HeifMatrix::Unspecified | HeifMatrix::Unknown => UNSPECIFIED,
            HeifMatrix::UsFccT47 => 4,
            HeifMatrix::Bt470Bg => 5,
            HeifMatrix::Bt601 => 6,
            HeifMatrix::Smpte240M => 7,
            HeifMatrix::YCgCo => 8,
            HeifMatrix::Bt2020NonConstantLuminance => 9,
            HeifMatrix::Bt2020ConstantLuminance => 10,
            HeifMatrix::St2085 => 11,
            HeifMatrix::ChromaticityDerivedNonConstantLuminance => 12,
            HeifMatrix::ChromaticityDerivedConstantLuminance => 13,
            HeifMatrix::ICtCp => 14,
        }
    }
}

/// The `nclx` profile of a heif item, as libheif hands it over.
#[derive(Clone, Copy, Debug, PartialEq, Eq, Structural)]
pub struct NclxProfile {
    pub primaries: HeifPrimaries,
    pub transfer: HeifTransfer,
    pub matrix: HeifMatrix,
    pub full_range_flag: u8,
}

impl NclxProfile {
    /// The colour this profile states.
    pub open spec fn stated(self) -> Cicp {
        Cicp {
            primaries: self.primaries.number() as u8,
            transfer: self.transfer.number() as u8,
            matrix: self.matrix.number() as u8,
            full_range: self.full_range_flag != 0,
        }
    }

    /// The colour this profile states.
    pub fn color(&self) -> (color: Cicp)
        ensures
            color == self.stated(),
    {
        Cicp {
            primaries: self.primaries.code(),
            transfer: self.transfer.code(),
            matrix: self.matrix.code(),
            full_range: self.full_range_flag != 0,
        }
    }
}

/// A raw colour profile of a heif item: its four character type as a big endian
/// number, and its bytes.
pub struct RawProfile {
    pub kind: u32,
    pub data: Vec<u8>,
}

/// What libheif says of the primary image of a file.
pub struct HeifHandle {
    pub width: u32,
    pub height: u32,
    /// The colours libheif prefers to decode the image into, if it states any.
    pub color_space: Option<ColorSpace>,
    /// Bits of one luma sample.
    pub depth: u8,
    pub has_alpha: bool,
    pub profile: Option<RawProfile>,
    pub nclx: Option<NclxProfile>,
}

/// Whether a path has one of the extensions that hold a heif container.
pub open spec fn heif_path(path: Seq<char>) -> bool {
    text::has_extension(path, "heic"@) || text::has_extension(path, "heics"@)
        || text::has_extension(path, "heif"@) || text::has_extension(path, "hif"@)
}

/// Whether a path has one of the extensions that hold a heif container.
pub fn has_heif_extension(path: &str) -> (heif: bool)
    ensures
        text::plain_path(path@) ==> heif == heif_path(path@),
{
    proof {
        reveal_strlit("heic");
        reveal_strlit("heics");
        reveal_strlit("heif");
        reveal_strlit("hif");
    }
    path_has_extension(path, "heic") || path_has_extension(path, "heics")
        || path_has_extension(path, "heif") || path_has_extension(path, "hif")
}

/// Whether this module decodes `info`.
///
/// A file the probe described as r,g,b is decoded by the `image` integration
/// through the libheif hook; every other file this module describes is read
/// here, from libheif's planes.
pub fn handles(info: &ImageInfo) -> (handled: bool)
    ensures
        info.format.family() == ColorFamily::RGB ==> !handled,
        text::plain_path(info.path@) ==> handled == (heif_path(info.path@)
            && info.format.family() != ColorFamily::RGB),
{
    has_heif_extension(info.path.as_str()) && info.format.color_family() != ColorFamily::RGB
}

/// The colour description a heif file states about its primary image, from the
/// `nclx` profile libheif resolves for it. No other container is read for one.
pub fn cicp(path: &str, profile: Option<NclxProfile>) -> (color: Option<Cicp>)
    ensures
        color is None || (profile is Some && color == Some(profile.unwrap().stated())),
        text::plain_path(path@) ==> color == (match profile {
            Some(profile) => if heif_path(path@) {
                Some(profile.stated())
            } else {
                None
            },
            None => None,
        }),
{
    if !has_heif_extension(path) {
        return None;
    }
    match profile {
        Some(profile) => Some(profile.color()),
        None => None,
    }
}

/// What the primary image of a heif container states about itself.
pub struct HeifHeader {
    pub width: u32,
    pub height: u32,
    /// The colours of the samples, which is also what decides their format.
    pub color_space: ColorSpace,
    /// Bits of one luma sample.
    pub depth: u8,
    pub color_type: ColorType,
    pub has_icc_profile: bool,
    pub icc_profile: Option<Vec<u8>>,
    /// The colour description the container states, when it states one.
    pub cicp: Option<Cicp>,
}

/// Whether samples of these colours are deeper than a byte: the r,g,b ones name
/// it themselves, and the others state their depth.
pub open spec fn deep(color_space: ColorSpace, depth: int) -> bool {
    match color_space {
        ColorSpace::Rgb(rgb) => match rgb {
            RgbChroma::HdrRgbBe
            | RgbChroma::HdrRgbaBe
            | RgbChroma::HdrRgbLe
            | RgbChroma::HdrRgbaLe => true,
            _ => false,
        },
        _ => depth > 8,
    }
}

/// The colour type of an image of these colours.
pub open spec fn color_type_of(color_space: ColorSpace, depth: int, has_alpha: bool) -> ColorType {
    match (color_space == ColorSpace::Monochrome, has_alpha, deep(color_space, depth)) {
        (true, false, true) => ColorType::L16,
        (true, false, false) => ColorType::L8,
        (true, true, true) => ColorType::La16,
        (true, true, false) => ColorType::La8,
        (false, false, true) => ColorType::Rgb16,
        (false, false, false) => ColorType::Rgb8,
        (false, true, true) => ColorType::Rgba16,
        (false, true, false) => ColorType::Rgba8,
    }
}

/// Whether a raw profile is an ICC profile rather than an `nclx` one.
pub open spec fn is_icc(profile: RawProfile) -> bool {
    profile.kind == RICC || profile.kind == PROF
}

/// The ICC profile of an image.
pub open spec fn icc_of(handle: HeifHandle) -> Option<Seq<u8>> {
    match handle.profile {
        Some(profile) => if is_icc(profile) {
            Some(profile.data@)
        } else {
            None
        },
        None => None,
    }
}

/// The view of an optional profile.
pub open spec fn profile_view(profile: Option<Vec<u8>>) -> Option<Seq<u8>> {
    match profile {
        Some(profile) => Some(profile@),
        None => None,
    }
}

/// The colour the `nclx` profile of an image states, if it has one.
pub open spec fn color_of(handle: HeifHandle) -> Option<Cicp> {
    match handle.nclx {
        Some(profile) => Some(profile.stated()),
        None => None,
    }
}

/// The payload of an ICC profile, excluding an nclx profile.
fn icc_profile(handle: &HeifHandle) -> (profile: Option<Vec<u8>>)
    ensures
        profile_view(profile) == icc_of(*handle),
{
    match &handle.profile {
        Some(profile) => if profile.kind == RICC || profile.kind == PROF {
            Some(vstd::slice::slice_to_vec(profile.data.as_slice()))
        } else {
            None
        },
        None => None,
    }
}

impl HeifHeader {
    /// Whether this header is what libheif says of an image.
    pub open spec fn reads(self, handle: HeifHandle) -> bool {
        &&& handle.color_space == Some(self.color_space)
        &&& self.color_space != ColorSpace::Other
        &&& self.width == handle.width
        &&& self.height == handle.height
        &&& self.depth == handle.depth
        &&& self.color_type == color_type_of(
            self.color_space,
            handle.depth as int,
            handle.has_alpha,
        )
        &&& self.has_icc_profile == (icc_of(handle) is Some)
        &&& profile_view(self.icc_profile) == icc_of(handle)
        &&& self.cicp == color_of(handle)
    }

    /// Reads what libheif says of the primary image.
    ///
    /// The color type is the one the `image` integration probes such a file
    /// through, so a file this module leaves to it is probed identically: the
    /// preferred colorspace decides whether the samples are one per pixel and
    /// whether they are deeper than eight bits, and the alpha plane is the last
    /// channel.
    pub fn read(handle: &HeifHandle) -> (header: Option<HeifHeader>)
        ensures
            match header {
                Some(header) => header.reads(*handle),
                None => handle.color_space is None || handle.color_space == Some(
                    ColorSpace::Other,
                ),
            },
    {
        let color_space = match handle.color_space {
            Some(color_space) => color_space,
            None => {
                return None;
            },
        };
        let depth: u8 = handle.depth;
        let is_hdr = match color_space {
            ColorSpace::YCbCr(_) | ColorSpace::Monochrome | ColorSpace::Undefined => depth > 8,
            // The rgb color spaces name their depth in the variant itself: the
            // `hdr` ones are sixteen bits per sample, every other one is eight.
            ColorSpace::Rgb(rgb) => match rgb {
                RgbChroma::HdrRgbBe
                | RgbChroma::HdrRgbaBe
                | RgbChroma::HdrRgbLe
                | RgbChroma::HdrRgbaLe => true,
                _ => false,
            },
            ColorSpace::Other => {
                return None;
            },
        };
        let monochrome = match color_space {
            ColorSpace::Monochrome => true,
            _ => false,
        };
        let color_type = match (monochrome, handle.has_alpha, is_hdr) {
            (true, false, true) => ColorType::L16,
            (true, false, false) => ColorType::L8,
            (true, true, true) => ColorType::La16,
            (true, true, false) => ColorType::La8,
            (false, false, true) => ColorType::Rgb16,
            (false, false, false) => ColorType::Rgb8,
            (false, true, true) => ColorType::Rgba16,
            (false, true, false) => ColorType::Rgba8,
        };
        let icc_profile = icc_profile(handle);
        let cicp = match &handle.nclx {
            Some(profile) => Some(profile.color()),
            None => None,
        };
        Some(
            HeifHeader {
                width: handle.width,
                height: handle.height,
                color_space,
                depth,
                color_type,
                has_icc_profile: icc_profile.is_some(),
                icc_profile,
                cicp,
            },
        )
    }

    /// The format the file is handed out as.
    pub open spec fn handed_out(self) -> Option<PixelFormat> {
        match self.color_space {
            ColorSpace::Monochrome => match PixelFormat::of_color_type(self.color_type) {
                Some(word) => Some(word.narrowed(self.depth as u32)),
                None => None,
            },
            ColorSpace::YCbCr(chroma) => match self.cicp {
                Some(stated) => if color::names_yuv_matrix(stated.matrix as int) {
                    yuv_of(chroma, self.depth as int)
                } else {
                    None
                },
                None => None,
            },
            _ => None,
        }
    }

    /// Format the file is handed out as.
    ///
    /// A monochrome image is the gray format its color type maps to, at the
    /// depth libheif reports for it, so a ten bit page is a `Gray10` frame
    /// holding the samples as they are, and a yuv one is handed out as the planes
    /// it holds. Anything else keeps the `image` decoder: r,g,b samples have no
    /// yuv format to be handed out as, and a file whose matrix the frame
    /// properties cannot name would have to be labelled with a guess.
    pub fn format(&self) -> (format: Option<PixelFormat>)
        ensures
            format == self.handed_out(),
    {
        match self.color_space {
            ColorSpace::Monochrome => match PixelFormat::from_color_type(self.color_type) {
                Some(word) => Some(word.at_depth(self.depth as u32)),
                None => None,
            },
            ColorSpace::YCbCr(chroma) => match self.cicp {
                Some(stated) => if usable_matrix(stated.matrix) {
                    yuv_format(chroma, self.depth)
                } else {
                    None
                },
                None => None,
            },
            _ => None,
        }
    }
}

/// The yuv format a subsampled layout of `depth` bits is handed out as.
pub open spec fn yuv_of(chroma: Chroma, depth: int) -> Option<PixelFormat> {
    if depth == 8 {
        match chroma {
            Chroma::C420 => Some(PixelFormat::Yuv420P8),
            Chroma::C422 => Some(PixelFormat::Yuv422P8),
            Chroma::C444 => Some(PixelFormat::Yuv444P8),
        }
    } else if depth == 10 {
        match chroma {
            Chroma::C420 => Some(PixelFormat::Yuv420P10),
            Chroma::C422 => Some(PixelFormat::Yuv422P10),
            Chroma::C444 => Some(PixelFormat::Yuv444P10),
        }
    } else if depth == 12 && chroma == Chroma::C444 {
        Some(PixelFormat::Yuv444P12)
    } else {
        None
    }
}

/// The format of the chroma subsampling libheif reports, if it is one this
/// module hands out.
pub fn yuv_format(chroma: Chroma, depth: u8) -> (format: Option<PixelFormat>)
    ensures
        format == yuv_of(chroma, depth as int),
{
    match (chroma, depth) {
        (Chroma::C420, 8) => Some(PixelFormat::Yuv420P8),
        (Chroma::C422, 8) => Some(PixelFormat::Yuv422P8),
        (Chroma::C444, 8) => Some(PixelFormat::Yuv444P8),
        (Chroma::C420, 10) => Some(PixelFormat::Yuv420P10),
        (Chroma::C422, 10) => Some(PixelFormat::Yuv422P10),
        (Chroma::C444, 10) => Some(PixelFormat::Yuv444P10),
        (Chroma::C444, 12) => Some(PixelFormat::Yuv444P12),
        _ => None,
    }
}

/// The colours libheif is asked for, so that it hands the planes over
/// unconverted.
pub open spec fn asked_colors(format: PixelFormat) -> Option<ColorSpace> {
    if format.family() == ColorFamily::Gray && !format.float() {
        Some(ColorSpace::Monochrome)
    } else {
        match format {
            PixelFormat::Yuv420P8 | PixelFormat::Yuv420P10 => Some(
                ColorSpace::YCbCr(Chroma::C420),
            ),
            PixelFormat::Yuv422P8 | PixelFormat::Yuv422P10 => Some(
                ColorSpace::YCbCr(Chroma::C422),
            ),
            PixelFormat::Yuv444P8 | PixelFormat::Yuv444P10 | PixelFormat::Yuv444P12 => Some(
                ColorSpace::YCbCr(Chroma::C444),
            ),
            _ => None,
        }
    }
}

/// The colours libheif is asked for, so that it hands the planes over
/// unconverted.
pub fn color_space_of(format: PixelFormat) -> (color_space: Option<ColorSpace>)
    ensures
        color_space == asked_colors(format),
{
    match format {
        PixelFormat::Gray8
        | PixelFormat::Gray9
        | PixelFormat::Gray10
        | PixelFormat::Gray11
        | PixelFormat::Gray12
        | PixelFormat::Gray13
        | PixelFormat::Gray14
        | PixelFormat::Gray15
        | PixelFormat::Gray16 => Some(ColorSpace::Monochrome),
        PixelFormat::Yuv420P8 | PixelFormat::Yuv420P10 => Some(ColorSpace::YCbCr(Chroma::C420)),
        PixelFormat::Yuv422P8 | PixelFormat::Yuv422P10 => Some(ColorSpace::YCbCr(Chroma::C422)),
        PixelFormat::Yuv444P8 | PixelFormat::Yuv444P10 | PixelFormat::Yuv444P12 => Some(
            ColorSpace::YCbCr(Chroma::C444),
        ),
        _ => None,
    }
}

/// Whether `info` is what libheif says of the primary image of a file.
pub open spec fn describes(info: ImageInfo, path: Seq<char>, handle: HeifHandle) -> bool {
    &&& handle.color_space is Some
    &&& info.path@ == path
    &&& info.width == handle.width
    &&& info.height == handle.height
    &&& info.color_type == color_type_of(
        handle.color_space.unwrap(),
        handle.depth as int,
        handle.has_alpha,
    )
    &&& info.original_color_type@ == info.color_type.text()
    &&& info.has_icc_profile == (icc_of(handle) is Some)
    &&& profile_view(info.icc_profile) == icc_of(handle)
    &&& info.cicp == color_of(handle)
    &&& info.chroma_location is None
    &&& info.orientation == Orientation::NoTransforms
    &&& info.transform == Transform::unchanged()
    &&& described_format(handle) == Some(info.format)
}

/// The format libheif's words about the primary image of a file make it handed
/// out as, if they make it any.
pub open spec fn described_format(handle: HeifHandle) -> Option<PixelFormat> {
    match handle.color_space {
        Some(ColorSpace::Monochrome) => Some(
            PixelFormat::of_color_type(
                color_type_of(ColorSpace::Monochrome, handle.depth as int, handle.has_alpha),
            ).unwrap().narrowed(handle.depth as u32),
        ),
        Some(ColorSpace::YCbCr(chroma)) => match color_of(handle) {
            Some(stated) => if color::names_yuv_matrix(stated.matrix as int) {
                yuv_of(chroma, handle.depth as int)
            } else {
                None
            },
            None => None,
        },
        _ => None,
    }
}

/// What the container of a heif states about its primary image, when this
/// module can describe the file from it.
///
/// `None` means "let the `image` decoder describe this file": another container,
/// or one whose image libheif reports in a shape this probe will not state a
/// format for.
pub fn image_info(path: &str, handle: &HeifHandle) -> (info: Option<ImageInfo>)
    ensures
        match info {
            Some(info) => describes(info, path@, *handle),
            None => text::plain_path(path@) ==> !heif_path(path@) || described_format(
                *handle,
            ) is None,
        },
        text::plain_path(path@) && !heif_path(path@) ==> info is None,
{
    if !has_heif_extension(path) {
        return None;
    }
    let header = match HeifHeader::read(handle) {
        Some(header) => header,
        None => {
            return None;
        },
    };
    let format = match header.format() {
        Some(format) => format,
        None => {
            return None;
        },
    };
    Some(
        ImageInfo {
            path: String::from_str(path),
            width: header.width,
            height: header.height,
            color_type: header.color_type,
            original_color_type: String::from_str(header.color_type.name()),
            has_icc_profile: header.has_icc_profile,
            icc_profile: header.icc_profile,
            cicp: header.cicp,
            // The position of the chroma samples of a hevc picture is in its
            // vui, which libheif does not report.
            chroma_location: None,
            // libheif applies the container's own transformations as it decodes,
            // so the width and height read here are the size after them, which
            // is the size the frames are built with.
            orientation: Orientation::NoTransforms,
            transform: Transform::identity(),
            format,
        },
    )
}

/// A file is handed out as yuv only when it states a matrix the frame properties
/// can name: one that states none, or one without a name, is not described as yuv
/// here.
pub proof fn a_yuv_heif_states_its_matrix(
    info: ImageInfo,
    path: Seq<char>,
    handle: HeifHandle,
)
    requires
        describes(info, path, handle),
        info.format.family() == ColorFamily::YUV,
    ensures
        info.cicp matches Some(stated) && color::names_yuv_matrix(stated.matrix as int),
{
}

/// A heif is handed out the way it is coded and at the size libheif reports: a
/// monochrome picture as gray, a colour one as yuv whose chroma planes are halved
/// as they are stored, and both at their own depth. Nothing is turned, and the
/// file has an alpha channel just when libheif reports one.
pub proof fn a_heif_is_handed_out_as_it_is_coded(
    info: ImageInfo,
    path: Seq<char>,
    handle: HeifHandle,
)
    requires
        describes(info, path, handle),
    ensures
        info.path@ == path,
        info.width == handle.width,
        info.height == handle.height,
        !info.format.float(),
        match handle.color_space {
            Some(ColorSpace::Monochrome) => {
                &&& info.format.family() == ColorFamily::Gray
                &&& info.format.bits() == (if handle.depth <= 8 {
                    8int
                } else if handle.depth <= 16 {
                    handle.depth as int
                } else {
                    16
                })
            },
            Some(ColorSpace::YCbCr(chroma)) => {
                &&& info.format.family() == ColorFamily::YUV
                &&& info.format.bits() == handle.depth
                &&& info.format.subsampling() == (match chroma {
                    Chroma::C420 => (1int, 1int),
                    Chroma::C422 => (1int, 0int),
                    Chroma::C444 => (0int, 0int),
                })
            },
            _ => false,
        },
        handle.has_alpha == (match info.color_type {
            ColorType::La8 | ColorType::La16 | ColorType::Rgba8 | ColorType::Rgba16 => true,
            _ => false,
        }),
        (handle.depth > 8) == (match info.color_type {
            ColorType::L16 | ColorType::La16 | ColorType::Rgb16 | ColorType::Rgba16 => true,
            _ => false,
        }),
        info.orientation == Orientation::NoTransforms,
        !info.transform.transpose && !info.transform.flip_x && !info.transform.flip_y,
        info.chroma_location is None,
{
}

/// A heif has the colour and the profile libheif reports: the `nclx` codes where
/// there are any, and the bytes of a profile of the two ICC kinds.
pub proof fn a_heif_has_the_colour_libheif_reports(
    info: ImageInfo,
    path: Seq<char>,
    handle: HeifHandle,
)
    requires
        describes(info, path, handle),
    ensures
        match handle.nclx {
            Some(profile) => {
                &&& info.cicp is Some
                &&& info.cicp.unwrap() == profile.stated()
                &&& info.cicp.unwrap().full_range == (profile.full_range_flag != 0)
            },
            None => info.cicp is None,
        },
        match handle.profile {
            Some(profile) => if profile.kind == 0x7072_6f66 || profile.kind == 0x7249_4343 {
                info.has_icc_profile && (info.icc_profile matches Some(held) && held@
                    == profile.data@)
            } else {
                !info.has_icc_profile && info.icc_profile is None
            },
            None => !info.has_icc_profile && info.icc_profile is None,
        },
{
}

/// What libheif is asked for when a file is decoded is what it said the file
/// holds, so no plane is converted.
pub proof fn libheif_is_asked_for_what_the_file_holds(
    info: ImageInfo,
    path: Seq<char>,
    handle: HeifHandle,
)
    requires
        describes(info, path, handle),
    ensures
        asked_colors(info.format) == handle.color_space,
{
}

/// Which files can be described: every monochrome one, and every yuv one of a
/// depth that has a format whose profile names the coefficients of a yuv matrix.
pub proof fn a_heif_is_described_when_a_frame_can_carry_it(handle: HeifHandle)
    ensures
        (described_format(handle) is Some) == (match handle.color_space {
            Some(ColorSpace::Monochrome) => true,
            Some(ColorSpace::YCbCr(chroma)) => {
                &&& handle.depth == 8 || handle.depth == 10 || (handle.depth == 12 && chroma
                    == Chroma::C444)
                &&& match handle.nclx {
                    Some(profile) => match profile.matrix {
                        HeifMatrix::RgbGbr
                        | HeifMatrix::Unspecified
                        | HeifMatrix::Unknown
                        | HeifMatrix::St2085 => false,
                        _ => true,
                    },
                    None => false,
                }
            },
            _ => false,
        }),
{
}

/// The codes of a profile are those of h.273: no two names have one code, but that
/// what libheif cannot name is as good as unspecified, and each name that a frame
/// property has too has the code of that property.
pub proof fn the_codes_of_a_profile_are_its_names(profile: NclxProfile, other: NclxProfile)
    ensures
        profile.stated().primaries == other.stated().primaries ==> profile.primaries
            == other.primaries || profile.stated().primaries == 2,
        profile.stated().transfer == other.stated().transfer ==> profile.transfer
            == other.transfer || profile.stated().transfer == 2,
        profile.stated().matrix == other.stated().matrix ==> profile.matrix == other.matrix
            || profile.stated().matrix == 2,
        (profile.stated().primaries == 2) == (profile.primaries == HeifPrimaries::Unspecified
            || profile.primaries == HeifPrimaries::Unknown),
        (profile.stated().transfer == 2) == (profile.transfer == HeifTransfer::Unspecified
            || profile.transfer == HeifTransfer::Unknown),
        (profile.stated().matrix == 2) == (profile.matrix == HeifMatrix::Unspecified
            || profile.matrix == HeifMatrix::Unknown),
        match profile.primaries {
            HeifPrimaries::Bt709 => profile.stated().primaries == ColorPrimaries::Bt709.number(),
            HeifPrimaries::Bt470M => profile.stated().primaries == ColorPrimaries::Bt470M.number(),
            HeifPrimaries::Bt470Bg => profile.stated().primaries
                == ColorPrimaries::Bt470Bg.number(),
            HeifPrimaries::Bt601 => profile.stated().primaries == ColorPrimaries::St170M.number(),
            HeifPrimaries::Smpte240M => profile.stated().primaries
                == ColorPrimaries::St240M.number(),
            HeifPrimaries::GenericFilm => profile.stated().primaries
                == ColorPrimaries::Film.number(),
            HeifPrimaries::Bt2020 => profile.stated().primaries == ColorPrimaries::Bt2020.number(),
            HeifPrimaries::St428 => profile.stated().primaries == ColorPrimaries::St428.number(),
            HeifPrimaries::Rp431 => profile.stated().primaries == ColorPrimaries::St4312.number(),
            HeifPrimaries::Eg432 => profile.stated().primaries == ColorPrimaries::St4321.number(),
            HeifPrimaries::Ebu3213E => profile.stated().primaries
                == ColorPrimaries::Ebu3213E.number(),
            HeifPrimaries::Unspecified | HeifPrimaries::Unknown => true,
        },
        match profile.transfer {
            HeifTransfer::Bt709 => profile.stated().transfer
                == TransferCharacteristics::Bt709.number(),
            HeifTransfer::Bt470M => profile.stated().transfer
                == TransferCharacteristics::Bt470M.number(),
            HeifTransfer::Bt470Bg => profile.stated().transfer
                == TransferCharacteristics::Bt470Bg.number(),
            HeifTransfer::Bt601 => profile.stated().transfer
                == TransferCharacteristics::Bt601.number(),
            HeifTransfer::Smpte240M => profile.stated().transfer
                == TransferCharacteristics::St240M.number(),
            HeifTransfer::Linear => profile.stated().transfer
                == TransferCharacteristics::Linear.number(),
            HeifTransfer::Logarithmic100 => profile.stated().transfer
                == TransferCharacteristics::Log100.number(),
            HeifTransfer::Logarithmic100Sqrt10 => profile.stated().transfer
                == TransferCharacteristics::Log316.number(),
            HeifTransfer::Iec6196624 => profile.stated().transfer
                == TransferCharacteristics::Iec6196624.number(),
            HeifTransfer::Iec6196621 => profile.stated().transfer
                == TransferCharacteristics::Iec6196621.number(),
            HeifTransfer::Bt202010 => profile.stated().transfer
                == TransferCharacteristics::Bt202010.number(),
            HeifTransfer::Bt202012 => profile.stated().transfer
                == TransferCharacteristics::Bt202012.number(),
            HeifTransfer::Pq => profile.stated().transfer
                == TransferCharacteristics::St2084.number(),
            HeifTransfer::Hlg => profile.stated().transfer
                == TransferCharacteristics::AribB67.number(),
            HeifTransfer::Bt1361 => profile.stated().transfer == 12,
            HeifTransfer::St428 => profile.stated().transfer == 17,
            HeifTransfer::Unspecified | HeifTransfer::Unknown => true,
        },
        match profile.matrix {
            HeifMatrix::RgbGbr => profile.stated().matrix == MatrixCoefficients::Rgb.number(),
            HeifMatrix::Bt709 => profile.stated().matrix == MatrixCoefficients::Bt709.number(),
            HeifMatrix::UsFccT47 => profile.stated().matrix == MatrixCoefficients::Fcc.number(),
            HeifMatrix::Bt470Bg => profile.stated().matrix == MatrixCoefficients::Bt470Bg.number(),
            HeifMatrix::Bt601 => profile.stated().matrix == MatrixCoefficients::St170M.number(),
            HeifMatrix::Smpte240M => profile.stated().matrix
                == MatrixCoefficients::St240M.number(),
            HeifMatrix::YCgCo => profile.stated().matrix == MatrixCoefficients::Ycgco.number(),
            HeifMatrix::Bt2020NonConstantLuminance => profile.stated().matrix
                == MatrixCoefficients::Bt2020Ncl.number(),
            HeifMatrix::Bt2020ConstantLuminance => profile.stated().matrix
                == MatrixCoefficients::Bt2020Cl.number(),
            HeifMatrix::ChromaticityDerivedNonConstantLuminance => profile.stated().matrix
                == MatrixCoefficients::ChromaticityDerivedNcl.number(),
            HeifMatrix::ChromaticityDerivedConstantLuminance => profile.stated().matrix
                == MatrixCoefficients::ChromaticityDerivedCl.number(),
            HeifMatrix::ICtCp => profile.stated().matrix == MatrixCoefficients::Ictcp.number(),
            HeifMatrix::St2085 => profile.stated().matrix == 11,
            HeifMatrix::Unspecified | HeifMatrix::Unknown => true,
        },
        profile.stated().full_range == (profile.full_range_flag != 0),
{
}

/// A header is what libheif reports, and its colour type is one channel for a monochrome
/// image and three for any other, with alpha where there is any: of a byte, or of two
/// where the image is deeper, which r,g,b samples say by how they are stored.
pub proof fn a_heif_header_is_what_libheif_reports(header: HeifHeader, handle: HeifHandle)
    requires
        header.reads(handle),
    ensures
        header.width == handle.width,
        header.height == handle.height,
        header.depth == handle.depth,
        handle.color_space == Some(header.color_space),
        ({
            let wide = match header.color_space {
                ColorSpace::Rgb(stored) => stored == RgbChroma::HdrRgbBe || stored
                    == RgbChroma::HdrRgbaBe || stored == RgbChroma::HdrRgbLe || stored
                    == RgbChroma::HdrRgbaLe,
                _ => handle.depth > 8,
            };
            let gray = header.color_space == ColorSpace::Monochrome;
            let channels: int = (if gray {
                1int
            } else {
                3
            }) + (if handle.has_alpha {
                1int
            } else {
                0
            });
            &&& pixel_format::channels_of(header.color_type) == Some(channels)
            &&& PixelFormat::of_color_type(header.color_type) == Some(
                match (gray, wide) {
                    (true, true) => PixelFormat::Gray16,
                    (true, false) => PixelFormat::Gray8,
                    (false, true) => PixelFormat::Rgb16,
                    (false, false) => PixelFormat::Rgb8,
                },
            )
        }),
        header.has_icc_profile == header.icc_profile is Some,
        match handle.nclx {
            Some(profile) => header.cicp == Some(profile.stated()),
            None => header.cicp is None,
        },
        handle.color_space == Some(ColorSpace::Monochrome) || (handle.color_space matches Some(
            ColorSpace::YCbCr(_),
        )) ==> header.handed_out() == described_format(handle),
        header.color_space is Rgb || header.color_space is Undefined ==> header.handed_out()
            is None,
{
}

} // verus!
