//! What the codestream of a jpeg xl file says of itself.
//!
//! A jpeg xl file states its orientation the way an exif tag does, and the
//! decoder renders the picture that code describes: the raster it hands over is
//! the *display* picture and the size it reports is the display size. This
//! module reports the code, and turns rotation off by applying the code
//! *inverted* to what the decoder produced, which is the stored picture.

use vstd::prelude::*;

use vstd::slice::slice_to_vec;

use crate::bytes;
use crate::bytes::{get_be16, get_be32};
use crate::color::{Cicp, ColorPrimaries, TransferCharacteristics, UNSPECIFIED};
use crate::decoder;
use crate::decoder::{changed, image_error, ImageInfo};
use crate::error::{self, ImgSeqError};
use crate::frame::ColorFamily;
use crate::image_types::{ColorType, Orientation};
use crate::pixel::pixel_format;
use crate::pixel::planar;
use crate::pixel::planar::append_size;
use crate::pixel::transform;
use crate::pixel::transform::inverse_orientation;
use crate::pixel::{PixelFormat, Transform};
use crate::text;
use crate::text::path_has_extension;

verus! {

/// Signature of a bare jpeg xl codestream.
pub const CODESTREAM_SIGNATURE: u16 = 0xff0a;

/// Bits per sample a codestream states: none for a float file, which is as wide
/// as its own sample.
#[derive(Clone, Copy, Debug, PartialEq, Eq, Structural)]
pub enum BitDepth {
    Int(u32),
    Float,
}

/// The layout the decoder is asked for.
#[derive(Clone, Copy, Debug, PartialEq, Eq, Structural)]
pub enum JxlColorType {
    Grayscale,
    GrayscaleAlpha,
    Rgb,
    Rgba,
}

impl JxlColorType {
    /// How many samples a pixel has.
    pub open spec fn samples(self) -> int {
        match self {
            JxlColorType::Grayscale => 1,
            JxlColorType::GrayscaleAlpha => 2,
            JxlColorType::Rgb => 3,
            JxlColorType::Rgba => 4,
        }
    }

    pub fn samples_per_pixel(self) -> (samples: usize)
        ensures
            samples == self.samples(),
    {
        match self {
            JxlColorType::Grayscale => 1,
            JxlColorType::GrayscaleAlpha => 2,
            JxlColorType::Rgb => 3,
            JxlColorType::Rgba => 4,
        }
    }
}

/// The sample format the decoder is asked for, at the full width of the sample
/// and in the byte order of this machine.
#[derive(Clone, Copy, Debug, PartialEq, Eq, Structural)]
pub enum DataFormat {
    U8,
    U16,
    F32,
}

impl DataFormat {
    /// How many bytes a sample takes.
    pub open spec fn bytes(self) -> int {
        match self {
            DataFormat::U8 => 1,
            DataFormat::U16 => 2,
            DataFormat::F32 => 4,
        }
    }

    pub fn bytes_per_sample(self) -> (bytes: usize)
        ensures
            bytes == self.bytes(),
    {
        match self {
            DataFormat::U8 => 1,
            DataFormat::U16 => 2,
            DataFormat::F32 => 4,
        }
    }
}

/// The white point a colour encoding states.
#[derive(Clone, Copy, Debug, PartialEq, Eq, Structural)]
pub enum WhitePoint {
    D65,
    E,
    DCI,
    Chromaticity,
}

/// The primaries a colour encoding states.
#[derive(Clone, Copy, Debug, PartialEq, Eq, Structural)]
pub enum Primaries {
    SRGB,
    BT2100,
    P3,
    Chromaticities,
}

/// The transfer function a colour encoding states.
#[derive(Clone, Copy, Debug, PartialEq, Eq, Structural)]
pub enum TransferFunction {
    BT709,
    Linear,
    SRGB,
    PQ,
    DCI,
    HLG,
    Gamma,
}

/// The colour a codestream states with codes.
#[derive(Clone, Copy, Debug, PartialEq, Eq, Structural)]
pub enum ColorEncoding {
    RgbColorSpace {
        white_point: WhitePoint,
        primaries: Primaries,
        transfer_function: TransferFunction,
    },
    GrayscaleColorSpace { transfer_function: TransferFunction },
    XYB,
}

/// The colour profile a file embeds.
#[derive(Debug)]
pub enum ColorProfile {
    Icc(Vec<u8>),
    Simple(ColorEncoding),
}

/// The eight orientations a codestream numbers the way an exif tag does.
#[derive(Clone, Copy, Debug, PartialEq, Eq, Structural)]
pub enum JxlOrientation {
    Identity,
    FlipHorizontal,
    Rotate180,
    FlipVertical,
    Transpose,
    Rotate90Cw,
    AntiTranspose,
    Rotate90Ccw,
}

impl JxlOrientation {
    /// The number the codestream states.
    pub open spec fn number(self) -> int {
        match self {
            JxlOrientation::Identity => 1,
            JxlOrientation::FlipHorizontal => 2,
            JxlOrientation::Rotate180 => 3,
            JxlOrientation::FlipVertical => 4,
            JxlOrientation::Transpose => 5,
            JxlOrientation::Rotate90Cw => 6,
            JxlOrientation::AntiTranspose => 7,
            JxlOrientation::Rotate90Ccw => 8,
        }
    }
}

/// What a decoder that has read the file header and nothing else knows.
pub struct Codestream {
    /// Size the decoder hands the picture out as.
    pub size: (usize, usize),
    pub bit_depth: BitDepth,
    pub orientation: JxlOrientation,
    /// For each extra channel, whether it is alpha.
    pub extra_channels: Vec<bool>,
    /// Whether the layout the decoder itself has for the file is grayscale.
    pub grayscale: bool,
    pub profile: ColorProfile,
}

/// Whether this module owns `path`.
///
/// The probe asks this before it opens a general decoder, which has no jpeg xl
/// format to identify on its own.
pub fn owns(path: &str) -> (owned: bool)
    ensures
        text::plain_path(path@) ==> owned == text::has_extension(path@, "jxl"@),
{
    has_jxl_extension(path)
}

/// Whether this module decodes `info`.
///
/// Every jpeg xl file goes through this module: there is no other decoder to
/// keep a color type back for.
pub fn handles(info: &ImageInfo) -> (handled: bool)
    ensures
        text::plain_path(info.path@) ==> handled == text::has_extension(info.path@, "jxl"@),
{
    has_jxl_extension(info.path.as_str())
}

/// Whether a path has the extension of a jpeg xl file.
pub fn has_jxl_extension(path: &str) -> (jxl: bool)
    ensures
        text::plain_path(path@) ==> jxl == text::has_extension(path@, "jxl"@),
{
    proof {
        reveal_strlit("jxl");
    }
    path_has_extension(path, "jxl")
}

/// Whether a file starts with a bare codestream, or with the container a file
/// with boxes, an exif block or an animation starts with.
pub open spec fn starts_jxl(leading: Seq<u8>) -> bool {
    ||| leading.len() >= 2 && bytes::be16(leading, 0) == CODESTREAM_SIGNATURE
    ||| {
        &&& leading.len() >= 12
        &&& bytes::be32(leading, 0) == 0x0000_000c
        &&& bytes::be32(leading, 4) == 0x4a58_4c20
        &&& bytes::be32(leading, 8) == 0x0d0a_870a
    }
}

/// Reads the two signatures a jpeg xl file starts with.
pub fn check_signature(leading: &[u8], path: &str) -> (checked: Result<(), ImgSeqError>)
    ensures
        if starts_jxl(leading@) {
            checked is Ok
        } else {
            error::fails_with(
                checked,
                decoder::image_error_text(
                    "read"@,
                    path@,
                    "the file starts with neither a jpeg xl codestream nor a jpeg xl container"@,
                ),
            )
        },
{
    if let Some(CODESTREAM_SIGNATURE) = get_be16(leading, 0) {
        return Ok(());
    }
    match (get_be32(leading, 0), get_be32(leading, 4), get_be32(leading, 8)) {
        (Some(0x0000_000c), Some(0x4a58_4c20), Some(0x0d0a_870a)) => Ok(()),
        _ => Err(
            image_error(
                "read",
                path,
                "the file starts with neither a jpeg xl codestream nor a jpeg xl container",
            ),
        ),
    }
}

/// Reports a file the decoder asked for more of but has none left to give.
pub fn more_input(available: usize, path: &str) -> (given: Result<(), ImgSeqError>)
    ensures
        if available > 0 {
            given is Ok
        } else {
            error::fails_with(
                given,
                decoder::image_error_text(
                    "decode"@,
                    path@,
                    "the file ended before the picture did"@,
                ),
            )
        },
{
    if available == 0 {
        return Err(image_error("decode", path, "the file ended before the picture did"));
    }
    Ok(())
}

/// What a size no frame can hold is refused with.
pub open spec fn large_text(path: Seq<char>, size: (usize, usize)) -> Seq<char> {
    "image '"@ + path + "' is "@ + planar::size_text(size.0 as int, size.1 as int)
        + ", which is larger than a frame can hold"@
}

/// The size the file header states, as the size a frame can hold.
pub fn size_of(size: (usize, usize), path: &str) -> (held: Result<(u32, u32), ImgSeqError>)
    ensures
        if size.0 <= u32::MAX && size.1 <= u32::MAX {
            held matches Ok(held) && held.0 == size.0 && held.1 == size.1
        } else {
            error::fails_with(held, large_text(path@, size))
        },
{
    if size.0 as u64 > u32::MAX as u64 || size.1 as u64 > u32::MAX as u64 {
        let mut message = String::from_str("image '");
        message.append(path);
        message.append("' is ");
        let mut message = append_size(message, size.0, size.1);
        message.append(", which is larger than a frame can hold");
        return Err(ImgSeqError::new(message));
    }
    Ok((size.0 as u32, size.1 as u32))
}

/// The orientation code of a jpeg xl file, as an exif tag names the same eight
/// transformations.
///
/// The codestream numbers them exactly the way the exif tag does, so this is a
/// rename and not a conversion.
pub fn orientation_of(orientation: JxlOrientation) -> (named: Orientation)
    ensures
        named.exif() == orientation.number(),
{
    match orientation {
        JxlOrientation::Identity => Orientation::NoTransforms,
        JxlOrientation::FlipHorizontal => Orientation::FlipHorizontal,
        JxlOrientation::Rotate180 => Orientation::Rotate180,
        JxlOrientation::FlipVertical => Orientation::FlipVertical,
        JxlOrientation::Transpose => Orientation::Rotate90FlipH,
        JxlOrientation::Rotate90Cw => Orientation::Rotate90,
        JxlOrientation::AntiTranspose => Orientation::Rotate270FlipH,
        JxlOrientation::Rotate90Ccw => Orientation::Rotate270,
    }
}

/// The h.273 transfer code of a transfer function.
pub open spec fn transfer_code(transfer: TransferFunction) -> u8 {
    match transfer {
        TransferFunction::BT709 => 1,
        TransferFunction::Linear => 8,
        TransferFunction::SRGB => 13,
        TransferFunction::PQ => 16,
        TransferFunction::HLG => 18,
        TransferFunction::DCI | TransferFunction::Gamma => UNSPECIFIED,
    }
}

/// The h.273 transfer code the codestream states.
///
/// The dci transfer function and a gamma of the file's own are the two that no
/// frame property names, so they state nothing here.
pub fn transfer_of(transfer: TransferFunction) -> (code: u8)
    ensures
        code == transfer_code(transfer),
{
    match transfer {
        TransferFunction::BT709 => 1,
        TransferFunction::Linear => 8,
        TransferFunction::SRGB => 13,
        TransferFunction::PQ => 16,
        TransferFunction::HLG => 18,
        _ => UNSPECIFIED,
    }
}

/// The h.273 primaries code of primaries and the white point they are defined
/// against.
pub open spec fn primaries_code(primaries: Primaries, white_point: WhitePoint) -> u8 {
    match (primaries, white_point) {
        (Primaries::SRGB, WhitePoint::D65) => 1,
        (Primaries::BT2100, WhitePoint::D65) => 9,
        (Primaries::P3, WhitePoint::DCI) => 11,
        (Primaries::P3, WhitePoint::D65) => 12,
        _ => UNSPECIFIED,
    }
}

/// The h.273 primaries code the codestream's primaries and white point state.
///
/// Each code names a set of chromaticities *and* the white point they are
/// defined against, so the two fields are read together. Chromaticities of the
/// file's own, or a white point that disagrees with the code, state no code.
pub fn primaries_of(primaries: Primaries, white_point: WhitePoint) -> (code: u8)
    ensures
        code == primaries_code(primaries, white_point),
{
    match (primaries, white_point) {
        (Primaries::SRGB, WhitePoint::D65) => 1,
        (Primaries::BT2100, WhitePoint::D65) => 9,
        (Primaries::P3, WhitePoint::DCI) => 11,
        (Primaries::P3, WhitePoint::D65) => 12,
        _ => UNSPECIFIED,
    }
}

/// The colour a profile states with codes.
pub open spec fn profile_color(profile: ColorProfile) -> Option<Cicp> {
    match profile {
        ColorProfile::Icc(_) => None,
        ColorProfile::Simple(encoding) => {
            let (primaries, transfer) = match encoding {
                ColorEncoding::RgbColorSpace { white_point, primaries, transfer_function } => (
                    primaries_code(primaries, white_point),
                    transfer_code(transfer_function),
                ),
                ColorEncoding::GrayscaleColorSpace { transfer_function } => (
                    UNSPECIFIED,
                    transfer_code(transfer_function),
                ),
                ColorEncoding::XYB => (UNSPECIFIED, UNSPECIFIED),
            };
            Some(Cicp { primaries, transfer, matrix: UNSPECIFIED, full_range: true })
        },
    }
}

/// The colour description the codestream states, when it states it as codes.
///
/// A file whose embedded profile is an icc profile states no codes at all. A
/// file that states codes is handed out as r,g,b whatever those codes are, so
/// the matrix is not one of them, and jpeg xl defines its samples as full range,
/// so the flag is always set.
pub fn cicp_of(profile: &ColorProfile) -> (color: Option<Cicp>)
    ensures
        color == profile_color(*profile),
{
    let (primaries, transfer) = match profile {
        ColorProfile::Icc(_) => {
            return None;
        },
        ColorProfile::Simple(
            ColorEncoding::RgbColorSpace { white_point, primaries, transfer_function },
        ) => (primaries_of(*primaries, *white_point), transfer_of(*transfer_function)),
        // A gray file states a transfer function and no primaries: the codes a
        // grayscale colour space is made of are the transfer function alone.
        ColorProfile::Simple(ColorEncoding::GrayscaleColorSpace { transfer_function }) => (
            UNSPECIFIED,
            transfer_of(*transfer_function),
        ),
        // The colour space the codestream is coded in rather than the one it
        // describes.
        ColorProfile::Simple(ColorEncoding::XYB) => (UNSPECIFIED, UNSPECIFIED),
    };
    Some(Cicp { primaries, transfer, matrix: UNSPECIFIED, full_range: true })
}

/// The layout of a gray or rgb picture with or without alpha.
pub open spec fn layout_of(grayscale: bool, has_alpha: bool) -> JxlColorType {
    match (grayscale, has_alpha) {
        (true, false) => JxlColorType::Grayscale,
        (true, true) => JxlColorType::GrayscaleAlpha,
        (false, false) => JxlColorType::Rgb,
        (false, true) => JxlColorType::Rgba,
    }
}

pub fn jxl_color_type(grayscale: bool, has_alpha: bool) -> (layout: JxlColorType)
    ensures
        layout == layout_of(grayscale, has_alpha),
{
    match (grayscale, has_alpha) {
        (true, false) => JxlColorType::Grayscale,
        (true, true) => JxlColorType::GrayscaleAlpha,
        (false, false) => JxlColorType::Rgb,
        (false, true) => JxlColorType::Rgba,
    }
}

/// What a file of a depth is decoded as.
pub open spec fn decoded_as(depth: BitDepth, grayscale: bool, has_alpha: bool) -> (
    ColorType,
    JxlColorType,
    DataFormat,
) {
    match depth {
        BitDepth::Float => if has_alpha {
            (ColorType::Rgba32F, JxlColorType::Rgba, DataFormat::F32)
        } else {
            (ColorType::Rgb32F, JxlColorType::Rgb, DataFormat::F32)
        },
        BitDepth::Int(bits) => {
            let color_type = match (grayscale, has_alpha, bits <= 8) {
                (true, false, true) => ColorType::L8,
                (true, true, true) => ColorType::La8,
                (false, false, true) => ColorType::Rgb8,
                (false, true, true) => ColorType::Rgba8,
                (true, false, false) => ColorType::L16,
                (true, true, false) => ColorType::La16,
                (false, false, false) => ColorType::Rgb16,
                (false, true, false) => ColorType::Rgba16,
            };
            let data_format = if bits <= 8 {
                DataFormat::U8
            } else {
                DataFormat::U16
            };
            (color_type, layout_of(grayscale, has_alpha), data_format)
        },
    }
}

/// The color type, the layout and the sample format a file of this depth is
/// decoded as: one byte per sample up to 8 bits, two bytes for a deeper integer
/// file, and `f32` for a float one. A float file is decoded as rgb even when its
/// color space is gray.
pub fn output_format(bit_depth: BitDepth, grayscale: bool, has_alpha: bool) -> (output: (
    ColorType,
    JxlColorType,
    DataFormat,
))
    ensures
        output == decoded_as(bit_depth, grayscale, has_alpha),
{
    match bit_depth {
        BitDepth::Float => if has_alpha {
            (ColorType::Rgba32F, JxlColorType::Rgba, DataFormat::F32)
        } else {
            (ColorType::Rgb32F, JxlColorType::Rgb, DataFormat::F32)
        },
        BitDepth::Int(bits) => if bits <= 8 {
            let color_type = match (grayscale, has_alpha) {
                (true, false) => ColorType::L8,
                (true, true) => ColorType::La8,
                (false, false) => ColorType::Rgb8,
                (false, true) => ColorType::Rgba8,
            };
            (color_type, jxl_color_type(grayscale, has_alpha), DataFormat::U8)
        } else {
            // 9 to 16 bits are asked for in 16 bit words, scaled onto the whole
            // range of the word. The frame is then built at the depth the
            // codestream states, and the writer moves each sample down out of
            // the word by the difference.
            let color_type = match (grayscale, has_alpha) {
                (true, false) => ColorType::L16,
                (true, true) => ColorType::La16,
                (false, false) => ColorType::Rgb16,
                (false, true) => ColorType::Rgba16,
            };
            (color_type, jxl_color_type(grayscale, has_alpha), DataFormat::U16)
        },
    }
}

/// What the codestream of a jpeg xl file states about its image.
#[derive(Debug)]
pub struct Header {
    /// Size the decoder hands the picture out as, which is the size the file
    /// stores with its own orientation already applied.
    pub width: u32,
    pub height: u32,
    /// The orientation the file states, as the code an exif tag carries.
    pub orientation: Orientation,
    /// Color type the decoded buffer is handed to the frame writer as.
    pub color_type: ColorType,
    /// The layout the decoder is asked for.
    pub jxl_color_type: JxlColorType,
    /// Sample format the decoder is asked for.
    pub data_format: DataFormat,
    /// Bits per sample the codestream states, which is the depth the frame is
    /// built at.
    pub depth: u32,
    /// Extra channels the requested layout has to account for, alpha included.
    pub extra_channels: usize,
    /// Whether the file's embedded color profile is an icc profile rather than a
    /// set of primaries and a transfer function.
    pub has_icc_profile: bool,
    pub icc_profile: Option<Vec<u8>>,
    /// The colour description the codestream states with its codes.
    pub cicp: Option<Cicp>,
}

/// Whether `header` is what a codestream states.
pub open spec fn states(header: Header, stream: Codestream) -> bool {
    &&& header.width == stream.size.0
    &&& header.height == stream.size.1
    &&& header.orientation.exif() == stream.orientation.number()
    &&& (header.color_type, header.jxl_color_type, header.data_format) == decoded_as(
        stream.bit_depth,
        stream.grayscale,
        stream.extra_channels@.contains(true),
    )
    &&& header.depth == (match stream.bit_depth {
        BitDepth::Int(bits) => bits,
        BitDepth::Float => 32,
    })
    &&& header.extra_channels == stream.extra_channels@.len()
    &&& header.has_icc_profile == (stream.profile is Icc)
    &&& match stream.profile {
        ColorProfile::Icc(profile) => {
            header.icc_profile matches Some(held) && held@ == profile@
        },
        ColorProfile::Simple(_) => header.icc_profile is None,
    }
    &&& header.cicp == profile_color(stream.profile)
}

impl Header {
    /// Reads everything the codestream states.
    pub fn read(stream: &Codestream, path: &str) -> (header: Result<Self, ImgSeqError>)
        ensures
            if stream.size.0 <= u32::MAX && stream.size.1 <= u32::MAX {
                header matches Ok(header) && states(header, *stream)
            } else {
                error::fails_with(header, large_text(path@, stream.size))
            },
    {
        let (width, height) = match size_of(stream.size, path) {
            Ok(size) => size,
            Err(error) => {
                return Err(error);
            },
        };
        let has_alpha = any_alpha(&stream.extra_channels);
        let (color_type, jxl_color_type, data_format) = output_format(
            stream.bit_depth,
            stream.grayscale,
            has_alpha,
        );
        let depth: u32 = match stream.bit_depth {
            BitDepth::Int(bits) => bits,
            BitDepth::Float => 32,
        };
        let (has_icc_profile, icc_profile) = match &stream.profile {
            ColorProfile::Icc(profile) => (
                true,
                Some(slice_to_vec(profile.as_slice())),
            ),
            ColorProfile::Simple(_) => (false, None),
        };
        Ok(
            Header {
                width,
                height,
                orientation: orientation_of(stream.orientation),
                color_type,
                jxl_color_type,
                data_format,
                depth,
                extra_channels: stream.extra_channels.len(),
                has_icc_profile,
                icc_profile,
                cicp: cicp_of(&stream.profile),
            },
        )
    }

    /// The format of the frame, if the color type has one.
    pub open spec fn frame_format(self) -> Option<PixelFormat> {
        match PixelFormat::of_color_type(self.color_type) {
            Some(word) => Some(word.narrowed(self.depth)),
            None => None,
        }
    }

    /// Pixel format the frame holds.
    ///
    /// The color type is the word the samples are stored in, which knows eight
    /// bits, sixteen bits and float; the codestream's own depth is what the
    /// frame is built at, so a ten bit file is a ten bit frame whose samples the
    /// writer moves down out of the word.
    pub fn format(&self) -> (format: Option<PixelFormat>)
        ensures
            format == self.frame_format(),
    {
        match PixelFormat::from_color_type(self.color_type) {
            Some(word) => Some(word.at_depth(self.depth)),
            None => None,
        }
    }
}

fn any_alpha(channels: &Vec<bool>) -> (any: bool)
    ensures
        any == channels@.contains(true),
{
    let mut index: usize = 0;
    while index < channels.len()
        invariant
            index <= channels@.len(),
            forall|before: int| 0 <= before < index ==> !#[trigger] channels@[before],
        decreases channels@.len() - index,
    {
        if channels[index] {
            return true;
        }
        index = index + 1;
    }
    false
}

/// What a color type without a frame format is refused with.
pub open spec fn unsupported_text(color_type: ColorType, path: Seq<char>) -> Seq<char> {
    decoder::image_error_text(
        "decode"@,
        path,
        "a jpeg xl image of color type "@ + color_type.text() + " is not supported"@,
    )
}

fn unsupported(color_type: ColorType, path: &str) -> (error: ImgSeqError)
    ensures
        error@ == error::error_text(unsupported_text(color_type, path@)),
{
    let mut message = String::from_str("a jpeg xl image of color type ");
    message.append(color_type.name());
    message.append(" is not supported");
    image_error("decode", path, message.as_str())
}

/// Whether `info` is what a probe records of a header. The picture is handed out
/// the way the file describes it already, so the samples are written as they are
/// when rotation is on, and turning it off means undoing it.
pub open spec fn records(
    info: ImageInfo,
    path: Seq<char>,
    stream: Codestream,
    header: Header,
    format: PixelFormat,
    apply_rotation: bool,
) -> bool {
    &&& states(header, stream)
    &&& info.path@ == path
    &&& info.width == header.width
    &&& info.height == header.height
    &&& info.color_type == header.color_type
    &&& info.original_color_type@ == header.color_type.text()
    &&& info.has_icc_profile == header.has_icc_profile
    &&& match stream.profile {
        ColorProfile::Icc(profile) => {
            info.icc_profile matches Some(held) && held@ == profile@
        },
        ColorProfile::Simple(_) => info.icc_profile is None,
    }
    &&& info.cicp == header.cicp
    &&& info.chroma_location is None
    &&& info.orientation == header.orientation
    &&& info.transform == (if apply_rotation {
        Transform::unchanged()
    } else {
        Transform::of_orientation(transform::inverse(header.orientation))
    })
    &&& info.format == format
}

/// What the codestream of a jpeg xl states about its image, which is everything
/// the probe records and the decode is checked against.
pub fn image_info(path: &str, stream: &Codestream, apply_rotation: bool) -> (info: Result<
    ImageInfo,
    ImgSeqError,
>)
    ensures
        if stream.size.0 > u32::MAX || stream.size.1 > u32::MAX {
            error::fails_with(info, large_text(path@, stream.size))
        } else {
            info matches Ok(info) && exists|header: Header|
                header.frame_format() == Some(info.format) && #[trigger] records(
                    info,
                    path@,
                    *stream,
                    header,
                    info.format,
                    apply_rotation,
                )
        },
{
    let header = match Header::read(stream, path) {
        Ok(header) => header,
        Err(error) => {
            return Err(error);
        },
    };
    let ghost read = header;
    let format = match header.format() {
        Some(format) => format,
        None => {
            return Err(unsupported(header.color_type, path));
        },
    };
    let transform = if apply_rotation {
        Transform::identity()
    } else {
        Transform::from_orientation(inverse_orientation(header.orientation))
    };
    let info = ImageInfo {
        path: String::from_str(path),
        width: header.width,
        height: header.height,
        color_type: header.color_type,
        original_color_type: String::from_str(header.color_type.name()),
        has_icc_profile: header.has_icc_profile,
        icc_profile: header.icc_profile,
        cicp: header.cicp,
        // A jpeg xl codestream states no chroma sample position: its yuv planes
        // are implied by its own upsampling filters.
        chroma_location: None,
        orientation: header.orientation,
        transform,
        format,
    };
    assert(records(info, path@, *stream, read, info.format, apply_rotation));
    Ok(info)
}

/// With rotation turned off, the stored picture is handed out: of a file that
/// stores a picture of `width` x `height`, which the decoder renders the way the
/// orientation describes, the frame is of the stored size, and every sample of it
/// is the sample that is stored there. The code is reported all the same.
pub proof fn without_rotation_the_stored_picture_is_handed_out(
    info: ImageInfo,
    path: Seq<char>,
    stream: Codestream,
    header: Header,
    width: int,
    height: int,
    x: int,
    y: int,
)
    requires
        records(info, path, stream, header, info.format, false),
        (info.width as int, info.height as int) == Transform::of_orientation(header.orientation).size(
            width,
            height,
        ),
    ensures
        info.orientation.exif() == stream.orientation.number(),
        info.transform.size(info.width as int, info.height as int) == (width, height),
        ({
            let (column, row) = info.transform.source(x, y, width, height);
            Transform::of_orientation(header.orientation).source(
                column,
                row,
                info.width as int,
                info.height as int,
            ) == (x, y)
        }),
{
    transform::an_inverse_orientation_undoes_the_orientation(
        header.orientation,
        x,
        y,
        width,
        height,
    );
}

/// The buffer the decoder draws into.
#[derive(Clone, Copy, Debug, PartialEq, Eq, Structural)]
pub struct DrawPlan {
    pub rows: usize,
    pub row_bytes: usize,
    pub size: usize,
    pub sample_bytes: usize,
}

/// The buffer a header asks for when it still is the one that was probed, or why
/// there is none.
pub open spec fn planned(header: Header, info: ImageInfo) -> Result<DrawPlan, Seq<char>> {
    match header.frame_format() {
        None => Err(unsupported_text(header.color_type, info.path@)),
        Some(format) => {
            let row = header.width * header.jxl_color_type.samples() * header.data_format.bytes();
            if header.width != info.width || header.height != info.height || header.color_type
                != info.color_type || format != info.format {
                Err(
                    decoder::changed_text(
                        info,
                        header.width,
                        header.height,
                        header.color_type,
                        format,
                    ),
                )
            } else if row > usize::MAX {
                Err("image row is too large"@)
            } else if row * header.height > usize::MAX {
                Err("image is too large"@)
            } else {
                Ok(
                    DrawPlan {
                        rows: header.height as usize,
                        row_bytes: row as usize,
                        size: (row * header.height) as usize,
                        sample_bytes: header.data_format.bytes() as usize,
                    },
                )
            }
        },
    }
}

/// Holds a header against the probe, and plans the buffer the frame is drawn
/// into.
///
/// The format is part of what the frame holds, so a file that changed its depth
/// - which a color type of the same width does not show - is caught here as
/// well.
pub fn draw_plan(header: &Header, info: &ImageInfo) -> (plan: Result<DrawPlan, ImgSeqError>)
    ensures
        match (plan, planned(*header, *info)) {
            (Ok(plan), Ok(expected)) => plan == expected,
            (Err(error), Err(message)) => error@ == error::error_text(message),
            _ => false,
        },
{
    let format = match header.format() {
        Some(format) => format,
        None => {
            return Err(unsupported(header.color_type, info.path.as_str()));
        },
    };
    if header.width != info.width || header.height != info.height || header.color_type
        != info.color_type || format != info.format {
        return Err(changed(info, header.width, header.height, header.color_type, format));
    }
    let rows: usize = header.height as usize;
    let width: usize = header.width as usize;
    let samples: usize = header.jxl_color_type.samples_per_pixel();
    let sample_bytes: usize = header.data_format.bytes_per_sample();
    let row_samples: usize = match width.checked_mul(samples) {
        Some(row) => row,
        None => {
            assert(width * samples * sample_bytes > usize::MAX) by (nonlinear_arith)
                requires
                    width * samples > usize::MAX,
                    1 <= sample_bytes,
            ;
            return Err(ImgSeqError::from_display("image row is too large"));
        },
    };
    let row_bytes: usize = match row_samples.checked_mul(sample_bytes) {
        Some(row) => row,
        None => {
            return Err(ImgSeqError::from_display("image row is too large"));
        },
    };
    match row_bytes.checked_mul(rows) {
        Some(size) => Ok(DrawPlan { rows, row_bytes, size, sample_bytes }),
        None => Err(ImgSeqError::from_display("image is too large")),
    }
}

/// Where in a buffer at `address` the first boundary for samples of `alignment`
/// bytes is.
///
/// The decoder writes whole samples, so a row has to start where a two or four
/// byte sample can be written. A byte vector is aligned for whatever the
/// allocator chose, so the rare one that is not gets a buffer with room to spare
/// and the front of it trimmed to the first sample boundary.
pub fn aligned_start(address: usize, alignment: usize) -> (start: usize)
    requires
        0 < alignment,
    ensures
        start < alignment,
        (address + start) % alignment as int == 0,
        forall|before: int|
            0 <= before < start ==> #[trigger] ((address + before) % alignment as int) != 0,
{
    let rest: usize = address % alignment;
    let start: usize = if rest == 0 {
        0
    } else {
        alignment - rest
    };
    proof {
        let size = alignment as int;
        let whole = address as int / size;
        vstd::arithmetic::div_mod::lemma_fundamental_div_mod(address as int, size);
        vstd::arithmetic::div_mod::lemma_mod_bound(address as int, size);
        assert(whole * size == size * whole && (whole + 1) * size == size * whole + size)
            by (nonlinear_arith);
        assert forall|step: int| 0 <= step <= start implies #[trigger] ((address + step) % size)
            == (if step == start {
            0
        } else {
            rest + step
        }) by {
            if step < start {
                vstd::arithmetic::div_mod::lemma_fundamental_div_mod_converse(
                    address + step,
                    size,
                    whole,
                    rest + step,
                );
            } else if rest == 0 {
                assert((address + step) % size == rest);
            } else {
                vstd::arithmetic::div_mod::lemma_fundamental_div_mod_converse(
                    address + step,
                    size,
                    whole + 1,
                    0,
                );
            }
        }
    }
    start
}

/// A jpeg xl is recorded as its codestream states it: the size, the orientation, and
/// a colour type of the channels and the sample size it has. With rotation on the
/// picture is written the way the decoder renders it.
pub proof fn a_codestream_is_recorded_as_it_states(
    info: ImageInfo,
    path: Seq<char>,
    stream: Codestream,
    header: Header,
    apply_rotation: bool,
)
    requires
        records(info, path, stream, header, info.format, apply_rotation),
        header.frame_format() == Some(info.format),
    ensures
        info.path@ == path,
        info.width == stream.size.0,
        info.height == stream.size.1,
        info.orientation == (match stream.orientation {
            JxlOrientation::Identity => Orientation::NoTransforms,
            JxlOrientation::FlipHorizontal => Orientation::FlipHorizontal,
            JxlOrientation::Rotate180 => Orientation::Rotate180,
            JxlOrientation::FlipVertical => Orientation::FlipVertical,
            JxlOrientation::Transpose => Orientation::Rotate90FlipH,
            JxlOrientation::Rotate90Cw => Orientation::Rotate90,
            JxlOrientation::AntiTranspose => Orientation::Rotate270FlipH,
            JxlOrientation::Rotate90Ccw => Orientation::Rotate270,
        }),
        apply_rotation ==> !info.transform.transpose && !info.transform.flip_x
            && !info.transform.flip_y,
        (pixel_format::alpha_index(info.color_type) is Some) == (exists|i: int|
            0 <= i < stream.extra_channels@.len() && #[trigger] stream.extra_channels@[i]),
        match stream.bit_depth {
            BitDepth::Float => {
                &&& info.format.float()
                &&& info.format.family() == ColorFamily::RGB
            },
            BitDepth::Int(bits) => {
                &&& !info.format.float()
                &&& info.format.family() == (if stream.grayscale {
                    ColorFamily::Gray
                } else {
                    ColorFamily::RGB
                })
                &&& info.format.bits() == (if bits <= 8 {
                    8int
                } else if bits <= 16 {
                    bits as int
                } else {
                    16
                })
            },
        },
        pixel_format::channels_of(info.color_type) == Some(header.jxl_color_type.samples()),
        header.data_format.bytes() == info.format.word(),
        match stream.profile {
            ColorProfile::Icc(profile) => info.has_icc_profile && info.cicp is None && (
            info.icc_profile matches Some(held) && held@ == profile@),
            ColorProfile::Simple(_) => !info.has_icc_profile && info.cicp is Some
                && info.icc_profile is None,
        },
        info.chroma_location is None,
{
}

/// The codes a jpeg xl states are those of the properties of the same name, and only
/// where the primaries and the white point go together: display p3 is not theater
/// p3. A curve without a code, and a gray or xyb picture, leave theirs unspecified,
/// and so is the matrix of every file, all of which are full range.
pub proof fn a_profile_has_the_codes_of_its_names(profile: ColorProfile)
    ensures
        match profile {
            ColorProfile::Icc(_) => profile_color(profile) is None,
            ColorProfile::Simple(encoding) => {
                let stated = profile_color(profile).unwrap();
                &&& profile_color(profile) is Some
                &&& stated.full_range
                &&& stated.matrix == 2
                &&& match encoding {
                    ColorEncoding::RgbColorSpace { white_point, primaries, transfer_function } => {
                        &&& stated.primaries == (match primaries {
                            Primaries::SRGB if white_point
                                == WhitePoint::D65 => ColorPrimaries::Bt709.number(),
                            Primaries::BT2100 if white_point
                                == WhitePoint::D65 => ColorPrimaries::Bt2020.number(),
                            Primaries::P3 if white_point
                                == WhitePoint::DCI => ColorPrimaries::St4312.number(),
                            Primaries::P3 if white_point
                                == WhitePoint::D65 => ColorPrimaries::St4321.number(),
                            _ => 2,
                        })
                        &&& stated.transfer == transfer_code(transfer_function)
                    },
                    ColorEncoding::GrayscaleColorSpace { transfer_function } => stated.primaries
                        == 2 && stated.transfer == transfer_code(transfer_function),
                    ColorEncoding::XYB => stated.primaries == 2 && stated.transfer == 2,
                }
            },
        },
        transfer_code(TransferFunction::BT709) == TransferCharacteristics::Bt709.number(),
        transfer_code(TransferFunction::Linear) == TransferCharacteristics::Linear.number(),
        transfer_code(TransferFunction::SRGB) == TransferCharacteristics::Iec6196621.number(),
        transfer_code(TransferFunction::PQ) == TransferCharacteristics::St2084.number(),
        transfer_code(TransferFunction::HLG) == TransferCharacteristics::AribB67.number(),
        transfer_code(TransferFunction::DCI) == 2,
        transfer_code(TransferFunction::Gamma) == 2,
{
}

/// The buffer a picture is drawn into holds it to the byte: a row for each row, in a
/// row every channel of every column, and in a channel as many bytes as a sample of
/// the frame has. It is only planned while the header still is the one that was
/// probed.
pub proof fn a_picture_is_drawn_into_a_buffer_of_its_size(
    header: Header,
    info: ImageInfo,
    stream: Codestream,
)
    requires
        states(header, stream),
    ensures
        match planned(header, info) {
            Ok(plan) => {
                let channels = pixel_format::channels_of(info.color_type).unwrap();
                &&& info.width == stream.size.0
                &&& info.height == stream.size.1
                &&& header.color_type == info.color_type
                &&& header.frame_format() == Some(info.format)
                &&& plan.rows == info.height
                &&& plan.sample_bytes == info.format.word()
                &&& plan.row_bytes == info.width * channels * info.format.word()
                &&& plan.size == plan.row_bytes * plan.rows
            },
            Err(_) => {
                ||| header.frame_format() is None
                ||| header.width != info.width || header.height != info.height
                ||| header.color_type != info.color_type || header.frame_format() != Some(
                    info.format,
                )
                ||| header.width * header.jxl_color_type.samples() * header.data_format.bytes()
                    > usize::MAX
                ||| header.width * header.jxl_color_type.samples() * header.data_format.bytes()
                    * header.height > usize::MAX
            },
        },
{
}

/// A jpeg xl is told by its first bytes: the two of a bare codestream, or the twelve
/// of the signature box of a container.
pub proof fn a_jxl_is_told_by_its_first_bytes(leading: Seq<u8>)
    ensures
        starts_jxl(leading) == ({
            ||| leading.len() >= 2 && leading[0] == 0xff && leading[1] == 0x0a
            ||| {
                &&& leading.len() >= 12
                &&& leading[0] == 0 && leading[1] == 0 && leading[2] == 0 && leading[3] == 0x0c
                &&& leading[4] == 0x4a && leading[5] == 0x58 && leading[6] == 0x4c && leading[7]
                    == 0x20
                &&& leading[8] == 0x0d && leading[9] == 0x0a && leading[10] == 0x87 && leading[11]
                    == 0x0a
            }
        }),
{
}

} // verus!
