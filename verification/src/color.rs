//! The colour a container states, and the properties a frame is tagged with.

use vstd::prelude::*;

use crate::decoder::ImageInfo;
use crate::error::{self, ImgSeqError};
use crate::frame::{ColorFamily, Frame, PropertyValue, PropertyView};
use crate::image_types::Orientation;
use crate::pixel::PixelFormat;

verus! {

/// The colour description a container states about its own samples.
///
/// The fields are the H.273 code points as the file stores them, which are also
/// the numbers VapourSynth's properties use. They are kept as the codes the file
/// has rather than as the properties, because not every code has a property: the
/// file states it, or the property is not written.
#[derive(Clone, Copy, Debug, PartialEq, Eq, Structural)]
pub struct Cicp {
    pub primaries: u8,
    pub transfer: u8,
    pub matrix: u8,
    pub full_range: bool,
}

/// The code every family of these codes uses for "unspecified".
///
/// It is a statement, but not a description, so it leaves a property unset
/// exactly like a file that states nothing at all.
pub const UNSPECIFIED: u8 = 2;

/// A `_Primaries` VapourSynth defines.
#[derive(Clone, Copy, Debug, PartialEq, Eq, Structural)]
pub enum ColorPrimaries {
    Bt709,
    Bt470M,
    Bt470Bg,
    St170M,
    St240M,
    Film,
    Bt2020,
    St428,
    St4312,
    St4321,
    Ebu3213E,
}

/// A `_Transfer` VapourSynth defines.
#[derive(Clone, Copy, Debug, PartialEq, Eq, Structural)]
pub enum TransferCharacteristics {
    Bt709,
    Bt470M,
    Bt470Bg,
    Bt601,
    St240M,
    Linear,
    Log100,
    Log316,
    Iec6196624,
    Iec6196621,
    Bt202010,
    Bt202012,
    St2084,
    AribB67,
}

/// A `_Matrix` VapourSynth defines.
#[derive(Clone, Copy, Debug, PartialEq, Eq, Structural)]
pub enum MatrixCoefficients {
    Rgb,
    Bt709,
    Fcc,
    Bt470Bg,
    St170M,
    St240M,
    Ycgco,
    Bt2020Ncl,
    Bt2020Cl,
    ChromaticityDerivedNcl,
    ChromaticityDerivedCl,
    Ictcp,
}

/// A `_Range` VapourSynth defines.
#[derive(Clone, Copy, Debug, PartialEq, Eq, Structural)]
pub enum ColorRange {
    Limited,
    Full,
}

/// A `_ChromaLocation` VapourSynth defines and a container of this library can
/// state.
#[derive(Clone, Copy, Debug, PartialEq, Eq, Structural)]
pub enum ChromaLocation {
    Left,
    TopLeft,
}

impl ColorPrimaries {
    /// The number VapourSynth gives these primaries.
    pub open spec fn number(self) -> int {
        match self {
            ColorPrimaries::Bt709 => 1,
            ColorPrimaries::Bt470M => 4,
            ColorPrimaries::Bt470Bg => 5,
            ColorPrimaries::St170M => 6,
            ColorPrimaries::St240M => 7,
            ColorPrimaries::Film => 8,
            ColorPrimaries::Bt2020 => 9,
            ColorPrimaries::St428 => 10,
            ColorPrimaries::St4312 => 11,
            ColorPrimaries::St4321 => 12,
            ColorPrimaries::Ebu3213E => 22,
        }
    }

    /// The number VapourSynth gives these primaries.
    pub fn code(self) -> (code: i32)
        ensures
            code == self.number(),
    {
        match self {
            ColorPrimaries::Bt709 => 1,
            ColorPrimaries::Bt470M => 4,
            ColorPrimaries::Bt470Bg => 5,
            ColorPrimaries::St170M => 6,
            ColorPrimaries::St240M => 7,
            ColorPrimaries::Film => 8,
            ColorPrimaries::Bt2020 => 9,
            ColorPrimaries::St428 => 10,
            ColorPrimaries::St4312 => 11,
            ColorPrimaries::St4321 => 12,
            ColorPrimaries::Ebu3213E => 22,
        }
    }
}

impl TransferCharacteristics {
    /// The number VapourSynth gives this transfer.
    pub open spec fn number(self) -> int {
        match self {
            TransferCharacteristics::Bt709 => 1,
            TransferCharacteristics::Bt470M => 4,
            TransferCharacteristics::Bt470Bg => 5,
            TransferCharacteristics::Bt601 => 6,
            TransferCharacteristics::St240M => 7,
            TransferCharacteristics::Linear => 8,
            TransferCharacteristics::Log100 => 9,
            TransferCharacteristics::Log316 => 10,
            TransferCharacteristics::Iec6196624 => 11,
            TransferCharacteristics::Iec6196621 => 13,
            TransferCharacteristics::Bt202010 => 14,
            TransferCharacteristics::Bt202012 => 15,
            TransferCharacteristics::St2084 => 16,
            TransferCharacteristics::AribB67 => 18,
        }
    }

    /// The number VapourSynth gives this transfer.
    pub fn code(self) -> (code: i32)
        ensures
            code == self.number(),
    {
        match self {
            TransferCharacteristics::Bt709 => 1,
            TransferCharacteristics::Bt470M => 4,
            TransferCharacteristics::Bt470Bg => 5,
            TransferCharacteristics::Bt601 => 6,
            TransferCharacteristics::St240M => 7,
            TransferCharacteristics::Linear => 8,
            TransferCharacteristics::Log100 => 9,
            TransferCharacteristics::Log316 => 10,
            TransferCharacteristics::Iec6196624 => 11,
            TransferCharacteristics::Iec6196621 => 13,
            TransferCharacteristics::Bt202010 => 14,
            TransferCharacteristics::Bt202012 => 15,
            TransferCharacteristics::St2084 => 16,
            TransferCharacteristics::AribB67 => 18,
        }
    }
}

impl MatrixCoefficients {
    /// The number VapourSynth gives this matrix.
    pub open spec fn number(self) -> int {
        match self {
            MatrixCoefficients::Rgb => 0,
            MatrixCoefficients::Bt709 => 1,
            MatrixCoefficients::Fcc => 4,
            MatrixCoefficients::Bt470Bg => 5,
            MatrixCoefficients::St170M => 6,
            MatrixCoefficients::St240M => 7,
            MatrixCoefficients::Ycgco => 8,
            MatrixCoefficients::Bt2020Ncl => 9,
            MatrixCoefficients::Bt2020Cl => 10,
            MatrixCoefficients::ChromaticityDerivedNcl => 12,
            MatrixCoefficients::ChromaticityDerivedCl => 13,
            MatrixCoefficients::Ictcp => 14,
        }
    }

    /// The number VapourSynth gives this matrix.
    pub fn code(self) -> (code: i32)
        ensures
            code == self.number(),
    {
        match self {
            MatrixCoefficients::Rgb => 0,
            MatrixCoefficients::Bt709 => 1,
            MatrixCoefficients::Fcc => 4,
            MatrixCoefficients::Bt470Bg => 5,
            MatrixCoefficients::St170M => 6,
            MatrixCoefficients::St240M => 7,
            MatrixCoefficients::Ycgco => 8,
            MatrixCoefficients::Bt2020Ncl => 9,
            MatrixCoefficients::Bt2020Cl => 10,
            MatrixCoefficients::ChromaticityDerivedNcl => 12,
            MatrixCoefficients::ChromaticityDerivedCl => 13,
            MatrixCoefficients::Ictcp => 14,
        }
    }
}

impl ColorRange {
    /// The number VapourSynth gives this range.
    pub open spec fn number(self) -> int {
        match self {
            ColorRange::Limited => 0,
            ColorRange::Full => 1,
        }
    }

    /// The number VapourSynth gives this range.
    pub fn code(self) -> (code: i32)
        ensures
            code == self.number(),
    {
        match self {
            ColorRange::Limited => 0,
            ColorRange::Full => 1,
        }
    }
}

impl ChromaLocation {
    /// The number VapourSynth gives this position.
    pub open spec fn number(self) -> int {
        match self {
            ChromaLocation::Left => 0,
            ChromaLocation::TopLeft => 2,
        }
    }

    /// The number VapourSynth gives this position.
    pub fn code(self) -> (code: i32)
        ensures
            code == self.number(),
    {
        match self {
            ChromaLocation::Left => 0,
            ChromaLocation::TopLeft => 2,
        }
    }
}

/// Whether VapourSynth defines a `_Primaries` of this code.
pub open spec fn names_primaries(code: int) -> bool {
    code == 1 || 4 <= code <= 12 || code == 22
}

/// Whether VapourSynth defines a `_Transfer` of this code.
pub open spec fn names_transfer(code: int) -> bool {
    code == 1 || 4 <= code <= 11 || 13 <= code <= 16 || code == 18
}

/// Whether VapourSynth defines a `_Matrix` of this code.
pub open spec fn names_matrix(code: int) -> bool {
    code == 0 || code == 1 || 4 <= code <= 10 || 12 <= code <= 14
}

impl Cicp {
    /// The `_Primaries` this file states, or `None` when it states none: the
    /// property that carries the stated code, for the codes that have one.
    pub fn primaries(&self) -> (primaries: Option<ColorPrimaries>)
        ensures
            match primaries {
                Some(primaries) => primaries.number() == self.primaries,
                None => !names_primaries(self.primaries as int),
            },
    {
        match self.primaries {
            1 => Some(ColorPrimaries::Bt709),
            4 => Some(ColorPrimaries::Bt470M),
            5 => Some(ColorPrimaries::Bt470Bg),
            6 => Some(ColorPrimaries::St170M),
            7 => Some(ColorPrimaries::St240M),
            8 => Some(ColorPrimaries::Film),
            9 => Some(ColorPrimaries::Bt2020),
            10 => Some(ColorPrimaries::St428),
            11 => Some(ColorPrimaries::St4312),
            12 => Some(ColorPrimaries::St4321),
            22 => Some(ColorPrimaries::Ebu3213E),
            // Unspecified, and every code VapourSynth defines no property for.
            _ => None,
        }
    }

    /// The `_Transfer` this file states, or `None` when it states none: the
    /// property that carries the stated code, for the codes that have one.
    pub fn transfer(&self) -> (transfer: Option<TransferCharacteristics>)
        ensures
            match transfer {
                Some(transfer) => transfer.number() == self.transfer,
                None => !names_transfer(self.transfer as int),
            },
    {
        match self.transfer {
            1 => Some(TransferCharacteristics::Bt709),
            4 => Some(TransferCharacteristics::Bt470M),
            5 => Some(TransferCharacteristics::Bt470Bg),
            6 => Some(TransferCharacteristics::Bt601),
            7 => Some(TransferCharacteristics::St240M),
            8 => Some(TransferCharacteristics::Linear),
            9 => Some(TransferCharacteristics::Log100),
            10 => Some(TransferCharacteristics::Log316),
            11 => Some(TransferCharacteristics::Iec6196624),
            13 => Some(TransferCharacteristics::Iec6196621),
            14 => Some(TransferCharacteristics::Bt202010),
            15 => Some(TransferCharacteristics::Bt202012),
            16 => Some(TransferCharacteristics::St2084),
            18 => Some(TransferCharacteristics::AribB67),
            // Unspecified, 3, 12, 17 and every code VapourSynth has no property
            // for: it stops at 18 and has no room for the dci transfer.
            _ => None,
        }
    }

    /// The `_Matrix` this file states, or `None` when it states none: the
    /// property that carries the stated code, for the codes that have one.
    pub fn matrix(&self) -> (matrix: Option<MatrixCoefficients>)
        ensures
            match matrix {
                Some(matrix) => matrix.number() == self.matrix,
                None => !names_matrix(self.matrix as int),
            },
    {
        match self.matrix {
            0 => Some(MatrixCoefficients::Rgb),
            1 => Some(MatrixCoefficients::Bt709),
            4 => Some(MatrixCoefficients::Fcc),
            5 => Some(MatrixCoefficients::Bt470Bg),
            6 => Some(MatrixCoefficients::St170M),
            7 => Some(MatrixCoefficients::St240M),
            8 => Some(MatrixCoefficients::Ycgco),
            9 => Some(MatrixCoefficients::Bt2020Ncl),
            10 => Some(MatrixCoefficients::Bt2020Cl),
            12 => Some(MatrixCoefficients::ChromaticityDerivedNcl),
            13 => Some(MatrixCoefficients::ChromaticityDerivedCl),
            14 => Some(MatrixCoefficients::Ictcp),
            // Unspecified, 3, 11, 15 and everything above.
            _ => None,
        }
    }

    /// The `_Range` this file states.
    pub fn range(&self) -> (range: ColorRange)
        ensures
            range == stated_range(*self),
    {
        if self.full_range {
            ColorRange::Full
        } else {
            ColorRange::Limited
        }
    }
}

/// The range a colour description states.
pub open spec fn stated_range(cicp: Cicp) -> ColorRange {
    if cicp.full_range {
        ColorRange::Full
    } else {
        ColorRange::Limited
    }
}

/// The position a chroma sample position of an av1 coding record names.
pub open spec fn named_chroma_location(position: int) -> Option<ChromaLocation> {
    if position == 1 {
        Some(ChromaLocation::Left)
    } else if position == 2 {
        Some(ChromaLocation::TopLeft)
    } else {
        None
    }
}

/// The `_ChromaLocation` a chroma sample position states, from the two bit field
/// of an av1 coding record.
///
/// The field names three things: unknown, the chroma samples vertically between
/// the luma samples and co-sited with them horizontally, and the samples
/// co-sited both ways. The first is not a position, so it leaves the property
/// unset exactly like a file with no field at all; the other two are the two
/// positions VapourSynth has for them.
pub fn chroma_location(position: u8) -> (location: Option<ChromaLocation>)
    ensures
        location == named_chroma_location(position as int),
{
    match position {
        1 => Some(ChromaLocation::Left),
        2 => Some(ChromaLocation::TopLeft),
        _ => None,
    }
}

/// Whether `_Matrix` can name the coefficients a file states for yuv samples.
pub open spec fn names_yuv_matrix(matrix: int) -> bool {
    matrix != 0 && names_matrix(matrix)
}

/// Whether `_Matrix` can name the coefficients a file states.
///
/// The identity is a statement about samples that are already r,g,b, and
/// VapourSynth has no planar format for those, so a file that states it - like
/// one that states nothing, or states "unspecified" - keeps the r,g,b its
/// decoder produces.
pub fn usable_matrix(matrix: u8) -> (usable: bool)
    ensures
        usable == names_yuv_matrix(matrix as int),
{
    let stated = Cicp { primaries: 0, transfer: 0, matrix, full_range: false };
    match stated.matrix() {
        Some(MatrixCoefficients::Rgb) => false,
        Some(_) => true,
        None => false,
    }
}

/// `properties` with the property `key`, if it is stated.
pub open spec fn with_stated(
    properties: Map<Seq<char>, PropertyView>,
    stated: bool,
    key: Seq<char>,
    value: PropertyView,
) -> Map<Seq<char>, PropertyView> {
    if stated {
        properties.insert(key, value)
    } else {
        properties
    }
}

/// The `_Matrix` of a frame of `format`: the identity for r,g,b, and for yuv the
/// matrix the file names, or the one of bt.601 when it names none.
pub open spec fn frame_matrix(format: PixelFormat, cicp: Option<Cicp>) -> int {
    if format.family() != ColorFamily::YUV {
        0
    } else {
        match cicp {
            Some(stated) => if names_matrix(stated.matrix as int) {
                stated.matrix as int
            } else {
                5
            },
            None => 5,
        }
    }
}

/// The `_Range` of a frame of `format`: full for r,g,b and gray, and for yuv the
/// range the file states, or the limited one when it states none.
pub open spec fn frame_range(format: PixelFormat, cicp: Option<Cicp>) -> int {
    if format.family() != ColorFamily::YUV {
        1
    } else {
        match cicp {
            Some(stated) => stated_range(stated).number(),
            None => 0,
        }
    }
}

/// The number a flag is as a property.
pub open spec fn flag(value: bool) -> int {
    if value {
        1
    } else {
        0
    }
}

/// The properties of a frame of `format` that shows `image`, on top of what it
/// carried before.
pub open spec fn tagged(
    properties: Map<Seq<char>, PropertyView>,
    image: ImageInfo,
    index: int,
    format: PixelFormat,
    alpha_marker: Option<bool>,
    export_icc_profile: bool,
) -> Map<Seq<char>, PropertyView> {
    let named = properties.insert("ImgSeqPath"@, PropertyView::Utf8(image.path@)).insert(
        "ImgSeqIndex"@,
        PropertyView::Int(index),
    ).insert("ImgSeqOriginalColorType"@, PropertyView::Utf8(image.original_color_type@)).insert(
        "ImgSeqHasICC"@,
        PropertyView::Int(flag(image.has_icc_profile)),
    );
    let profiled = with_stated(
        named,
        export_icc_profile && image.icc_profile is Some,
        "ICCProfile"@,
        PropertyView::Data(image.icc_profile.unwrap()@),
    );
    let placed = profiled.insert(
        "ImgSeqOrientation"@,
        PropertyView::Int(image.orientation.exif()),
    ).insert("_FieldBased"@, PropertyView::Int(0));
    let primaries = image.cicp.unwrap().primaries as int;
    let with_primaries = with_stated(
        placed,
        image.cicp is Some && names_primaries(primaries),
        "_Primaries"@,
        PropertyView::Int(primaries),
    );
    let transfer = image.cicp.unwrap().transfer as int;
    let with_transfer = with_stated(
        with_primaries,
        image.cicp is Some && names_transfer(transfer),
        "_Transfer"@,
        PropertyView::Int(transfer),
    );
    let with_matrix = with_stated(
        with_transfer,
        format.family() != ColorFamily::Gray,
        "_Matrix"@,
        PropertyView::Int(frame_matrix(format, image.cicp)),
    );
    let with_range = with_matrix.insert(
        "_Range"@,
        PropertyView::Int(frame_range(format, image.cicp)),
    );
    let with_location = with_stated(
        with_range,
        format.subsampling() != (0int, 0int) && image.chroma_location is Some,
        "_ChromaLocation"@,
        PropertyView::Int(image.chroma_location.unwrap().number()),
    );
    with_stated(
        with_location,
        alpha_marker is Some,
        "ImgSeqAlpha"@,
        PropertyView::Int(flag(alpha_marker.unwrap())),
    )
}

fn flag_value(value: bool) -> (number: PropertyValue)
    ensures
        number@ == PropertyView::Int(flag(value)),
{
    if value {
        PropertyValue::Int(1)
    } else {
        PropertyValue::Int(0)
    }
}

/// Attaches the source metadata of `image` to a frame of `format`.
///
/// `format` is the pixel format of the clip that owns the frame, so an alpha
/// clip is never described as RGB, and `alpha_marker` is only set when the
/// frame belongs to an alpha clip.
///
/// The file states its colour or the property is not written at all. Primaries
/// and transfer describe any family, not only yuv: a png that states sRGB is
/// describing the r,g,b its frame holds. An rgb or gray frame keeps the matrix
/// and the range of its family whatever the file says, because the conversion
/// the decoder ran has already applied the matrix it names.
pub fn set_frame_properties(
    frame: &mut Frame,
    image: &ImageInfo,
    index: usize,
    format: PixelFormat,
    alpha_marker: Option<bool>,
    export_icc_profile: bool,
) -> (tagging: Result<(), ImgSeqError>)
    ensures
        final(frame).format == old(frame).format,
        final(frame).order == old(frame).order,
        final(frame).planes == old(frame).planes,
        if index > i64::MAX {
            &&& error::fails_with(tagging, "frame index does not fit in an Int property"@)
            &&& final(frame).properties == old(frame).properties
        } else {
            &&& tagging is Ok
            &&& final(frame).properties@ == tagged(
                old(frame).properties@,
                *image,
                index as int,
                format,
                alpha_marker,
                export_icc_profile,
            )
        },
{
    if index as u64 > i64::MAX as u64 {
        return Err(ImgSeqError::from_display("frame index does not fit in an Int property"));
    }
    frame.properties.set(
        "ImgSeqPath",
        PropertyValue::Utf8(String::from_str(image.path.as_str())),
    );
    frame.properties.set("ImgSeqIndex", PropertyValue::Int(index as i64));
    frame.properties.set(
        "ImgSeqOriginalColorType",
        PropertyValue::Utf8(String::from_str(image.original_color_type.as_str())),
    );
    frame.properties.set("ImgSeqHasICC", flag_value(image.has_icc_profile));
    if export_icc_profile {
        match &image.icc_profile {
            Some(profile) => {
                let bytes = vstd::slice::slice_to_vec(profile.as_slice());
                frame.properties.set("ICCProfile", PropertyValue::Data(bytes));
            },
            None => {},
        }
    }
    frame.properties.set(
        "ImgSeqOrientation",
        PropertyValue::Int(image.orientation.to_exif() as i64),
    );
    frame.properties.set("_FieldBased", PropertyValue::Int(0));
    match image.cicp {
        Some(cicp) => {
            match cicp.primaries() {
                Some(primaries) => {
                    frame.properties.set("_Primaries", PropertyValue::Int(primaries.code() as i64));
                },
                None => {},
            }
            match cicp.transfer() {
                Some(transfer) => {
                    frame.properties.set("_Transfer", PropertyValue::Int(transfer.code() as i64));
                },
                None => {},
            }
        },
        None => {},
    }
    // The planes a lossy webp is handed out as are the ones the bt.601 matrix
    // and the limited range describe, so those are what an untagged yuv frame
    // has. A file that states its own matrix and range for the yuv it holds
    // overrides that default, because those are the planes in the frame.
    let family = format.color_family();
    let (matrix, range) = match family {
        ColorFamily::YUV => match image.cicp {
            Some(cicp) => (
                match cicp.matrix() {
                    Some(matrix) => matrix,
                    None => MatrixCoefficients::Bt470Bg,
                },
                cicp.range(),
            ),
            None => (MatrixCoefficients::Bt470Bg, ColorRange::Limited),
        },
        _ => (MatrixCoefficients::Rgb, ColorRange::Full),
    };
    match family {
        ColorFamily::Gray => {},
        _ => {
            frame.properties.set("_Matrix", PropertyValue::Int(matrix.code() as i64));
        },
    }
    frame.properties.set("_Range", PropertyValue::Int(range.code() as i64));
    // The position of the chroma samples is a statement about a subsampled yuv
    // frame, and a file that does not name one leaves the property unset rather
    // than claiming the samples sit where they do not.
    let (halved_width, halved_height) = format.sub_sampling();
    if halved_width != 0 || halved_height != 0 {
        match image.chroma_location {
            Some(location) => {
                frame.properties.set(
                    "_ChromaLocation",
                    PropertyValue::Int(location.code() as i64),
                );
            },
            None => {},
        }
    }
    match alpha_marker {
        Some(alpha) => {
            frame.properties.set("ImgSeqAlpha", flag_value(alpha));
        },
        None => {},
    }
    Ok(())
}

/// Unspecified describes nothing: no property has that code.
pub proof fn unspecified_names_no_property()
    ensures
        !names_primaries(UNSPECIFIED as int),
        !names_transfer(UNSPECIFIED as int),
        !names_matrix(UNSPECIFIED as int),
{
}

/// A number names one property of its family only, so the code a property
/// carries is the code the file states.
pub proof fn a_number_names_one_property(
    primaries: (ColorPrimaries, ColorPrimaries),
    transfer: (TransferCharacteristics, TransferCharacteristics),
    matrix: (MatrixCoefficients, MatrixCoefficients),
)
    ensures
        primaries.0.number() == primaries.1.number() ==> primaries.0 == primaries.1,
        transfer.0.number() == transfer.1.number() ==> transfer.0 == transfer.1,
        matrix.0.number() == matrix.1.number() ==> matrix.0 == matrix.1,
        names_primaries(primaries.0.number()),
        names_transfer(transfer.0.number()),
        names_matrix(matrix.0.number()),
{
}

/// The keys of the properties a frame is tagged with are different texts.
proof fn lemma_keys()
    ensures
        "ImgSeqPath"@ != "ImgSeqIndex"@,
        "ImgSeqPath"@ != "ImgSeqOriginalColorType"@,
        "ImgSeqPath"@ != "ImgSeqHasICC"@,
        "ImgSeqPath"@ != "ICCProfile"@,
        "ImgSeqPath"@ != "ImgSeqOrientation"@,
        "ImgSeqPath"@ != "_FieldBased"@,
        "ImgSeqPath"@ != "_Primaries"@,
        "ImgSeqPath"@ != "_Transfer"@,
        "ImgSeqPath"@ != "_Matrix"@,
        "ImgSeqPath"@ != "_Range"@,
        "ImgSeqPath"@ != "_ChromaLocation"@,
        "ImgSeqPath"@ != "ImgSeqAlpha"@,
        "ImgSeqIndex"@ != "ImgSeqOriginalColorType"@,
        "ImgSeqIndex"@ != "ImgSeqHasICC"@,
        "ImgSeqIndex"@ != "ICCProfile"@,
        "ImgSeqIndex"@ != "ImgSeqOrientation"@,
        "ImgSeqIndex"@ != "_FieldBased"@,
        "ImgSeqIndex"@ != "_Primaries"@,
        "ImgSeqIndex"@ != "_Transfer"@,
        "ImgSeqIndex"@ != "_Matrix"@,
        "ImgSeqIndex"@ != "_Range"@,
        "ImgSeqIndex"@ != "_ChromaLocation"@,
        "ImgSeqIndex"@ != "ImgSeqAlpha"@,
        "ImgSeqOriginalColorType"@ != "ImgSeqHasICC"@,
        "ImgSeqOriginalColorType"@ != "ICCProfile"@,
        "ImgSeqOriginalColorType"@ != "ImgSeqOrientation"@,
        "ImgSeqOriginalColorType"@ != "_FieldBased"@,
        "ImgSeqOriginalColorType"@ != "_Primaries"@,
        "ImgSeqOriginalColorType"@ != "_Transfer"@,
        "ImgSeqOriginalColorType"@ != "_Matrix"@,
        "ImgSeqOriginalColorType"@ != "_Range"@,
        "ImgSeqOriginalColorType"@ != "_ChromaLocation"@,
        "ImgSeqOriginalColorType"@ != "ImgSeqAlpha"@,
        "ImgSeqHasICC"@ != "ICCProfile"@,
        "ImgSeqHasICC"@ != "ImgSeqOrientation"@,
        "ImgSeqHasICC"@ != "_FieldBased"@,
        "ImgSeqHasICC"@ != "_Primaries"@,
        "ImgSeqHasICC"@ != "_Transfer"@,
        "ImgSeqHasICC"@ != "_Matrix"@,
        "ImgSeqHasICC"@ != "_Range"@,
        "ImgSeqHasICC"@ != "_ChromaLocation"@,
        "ImgSeqHasICC"@ != "ImgSeqAlpha"@,
        "ICCProfile"@ != "ImgSeqOrientation"@,
        "ICCProfile"@ != "_FieldBased"@,
        "ICCProfile"@ != "_Primaries"@,
        "ICCProfile"@ != "_Transfer"@,
        "ICCProfile"@ != "_Matrix"@,
        "ICCProfile"@ != "_Range"@,
        "ICCProfile"@ != "_ChromaLocation"@,
        "ICCProfile"@ != "ImgSeqAlpha"@,
        "ImgSeqOrientation"@ != "_FieldBased"@,
        "ImgSeqOrientation"@ != "_Primaries"@,
        "ImgSeqOrientation"@ != "_Transfer"@,
        "ImgSeqOrientation"@ != "_Matrix"@,
        "ImgSeqOrientation"@ != "_Range"@,
        "ImgSeqOrientation"@ != "_ChromaLocation"@,
        "ImgSeqOrientation"@ != "ImgSeqAlpha"@,
        "_FieldBased"@ != "_Primaries"@,
        "_FieldBased"@ != "_Transfer"@,
        "_FieldBased"@ != "_Matrix"@,
        "_FieldBased"@ != "_Range"@,
        "_FieldBased"@ != "_ChromaLocation"@,
        "_FieldBased"@ != "ImgSeqAlpha"@,
        "_Primaries"@ != "_Transfer"@,
        "_Primaries"@ != "_Matrix"@,
        "_Primaries"@ != "_Range"@,
        "_Primaries"@ != "_ChromaLocation"@,
        "_Primaries"@ != "ImgSeqAlpha"@,
        "_Transfer"@ != "_Matrix"@,
        "_Transfer"@ != "_Range"@,
        "_Transfer"@ != "_ChromaLocation"@,
        "_Transfer"@ != "ImgSeqAlpha"@,
        "_Matrix"@ != "_Range"@,
        "_Matrix"@ != "_ChromaLocation"@,
        "_Matrix"@ != "ImgSeqAlpha"@,
        "_Range"@ != "_ChromaLocation"@,
        "_Range"@ != "ImgSeqAlpha"@,
        "_ChromaLocation"@ != "ImgSeqAlpha"@,
{
    reveal_strlit("ImgSeqPath");
    reveal_strlit("ImgSeqIndex");
    reveal_strlit("ImgSeqOriginalColorType");
    reveal_strlit("ImgSeqHasICC");
    reveal_strlit("ICCProfile");
    reveal_strlit("ImgSeqOrientation");
    reveal_strlit("_FieldBased");
    reveal_strlit("_Primaries");
    reveal_strlit("_Transfer");
    reveal_strlit("_Matrix");
    reveal_strlit("_Range");
    reveal_strlit("_ChromaLocation");
    reveal_strlit("ImgSeqAlpha");
    assert("ImgSeqPath"@.len() == 10);
    assert("ImgSeqIndex"@.len() == 11);
    assert("ImgSeqOriginalColorType"@.len() == 23);
    assert("ImgSeqHasICC"@.len() == 12);
    assert("ICCProfile"@.len() == 10);
    assert("ImgSeqOrientation"@.len() == 17);
    assert("_FieldBased"@.len() == 11);
    assert("_Primaries"@.len() == 10);
    assert("_Transfer"@.len() == 9);
    assert("_Matrix"@.len() == 7);
    assert("_Range"@.len() == 6);
    assert("_ChromaLocation"@.len() == 15);
    assert("ImgSeqAlpha"@.len() == 11);
    assert("ImgSeqPath"@[1] != "ICCProfile"@[1]);
    assert("ImgSeqPath"@[0] != "_Primaries"@[0]);
    assert("ImgSeqIndex"@[0] != "_FieldBased"@[0]);
    assert("ImgSeqIndex"@[6] != "ImgSeqAlpha"@[6]);
    assert("ICCProfile"@[0] != "_Primaries"@[0]);
    assert("_FieldBased"@[0] != "ImgSeqAlpha"@[0]);
}

/// The properties of a frame, key by key, whatever its family: where the image
/// comes from, the code its file states for the orientation, whether there is a
/// profile, and the colour the file states in code points that have a property.
/// What a file does not state is left as it was, and so is every other key.
pub proof fn a_frame_is_tagged_with_what_its_file_states(
    properties: Map<Seq<char>, PropertyView>,
    image: ImageInfo,
    index: int,
    format: PixelFormat,
    alpha_marker: Option<bool>,
    export_icc_profile: bool,
    key: Seq<char>,
)
    ensures
        ({
            let tags = tagged(
                properties,
                image,
                index,
                format,
                alpha_marker,
                export_icc_profile,
            );
            &&& tags.contains_pair("ImgSeqPath"@, PropertyView::Utf8(image.path@))
            &&& tags.contains_pair("ImgSeqIndex"@, PropertyView::Int(index))
            &&& tags.contains_pair(
                "ImgSeqOriginalColorType"@,
                PropertyView::Utf8(image.original_color_type@),
            )
            &&& image.has_icc_profile ==> tags.contains_pair(
                "ImgSeqHasICC"@,
                PropertyView::Int(1),
            )
            &&& !image.has_icc_profile ==> tags.contains_pair(
                "ImgSeqHasICC"@,
                PropertyView::Int(0),
            )
            &&& tags.contains_pair("_FieldBased"@, PropertyView::Int(0))
            &&& tags.contains_pair(
                "ImgSeqOrientation"@,
                PropertyView::Int(
                    match image.orientation {
                        Orientation::NoTransforms => 1,
                        Orientation::FlipHorizontal => 2,
                        Orientation::Rotate180 => 3,
                        Orientation::FlipVertical => 4,
                        Orientation::Rotate90FlipH => 5,
                        Orientation::Rotate90 => 6,
                        Orientation::Rotate270FlipH => 7,
                        Orientation::Rotate270 => 8,
                    },
                ),
            )
            &&& match image.cicp {
                Some(stated) => {
                    let code = stated.primaries as int;
                    if code == 1 || 4 <= code <= 12 || code == 22 {
                        tags.contains_pair("_Primaries"@, PropertyView::Int(code))
                    } else {
                        kept(properties, tags, "_Primaries"@)
                    }
                },
                None => kept(properties, tags, "_Primaries"@),
            }
            &&& match image.cicp {
                Some(stated) => {
                    let code = stated.transfer as int;
                    if code == 1 || 4 <= code <= 11 || 13 <= code <= 16 || code == 18 {
                        tags.contains_pair("_Transfer"@, PropertyView::Int(code))
                    } else {
                        kept(properties, tags, "_Transfer"@)
                    }
                },
                None => kept(properties, tags, "_Transfer"@),
            }
            &&& match image.icc_profile {
                Some(profile) => if export_icc_profile {
                    tags.contains_pair("ICCProfile"@, PropertyView::Data(profile@))
                } else {
                    kept(properties, tags, "ICCProfile"@)
                },
                None => kept(properties, tags, "ICCProfile"@),
            }
            &&& match alpha_marker {
                Some(true) => tags.contains_pair("ImgSeqAlpha"@, PropertyView::Int(1)),
                Some(false) => tags.contains_pair("ImgSeqAlpha"@, PropertyView::Int(0)),
                None => kept(properties, tags, "ImgSeqAlpha"@),
            }
            &&& ({
                &&& key != "ImgSeqPath"@ && key != "ImgSeqIndex"@
                &&& key != "ImgSeqOriginalColorType"@ && key != "ImgSeqHasICC"@
                &&& key != "ICCProfile"@ && key != "ImgSeqOrientation"@ && key != "_FieldBased"@
                &&& key != "_Primaries"@ && key != "_Transfer"@ && key != "_Matrix"@
                &&& key != "_Range"@ && key != "_ChromaLocation"@ && key != "ImgSeqAlpha"@
            }) ==> kept(properties, tags, key)
        }),
{
    lemma_keys();
}

/// The matrix, the range and the chroma position of a frame, for every format by
/// its name: an r,g,b frame has the identity and the full range, a gray frame no
/// matrix and the full range, and a yuv frame the matrix and the range its file
/// states, or those of limited bt.601 where it states none. Only a frame with
/// fewer chroma samples than luma samples says where they sit.
pub proof fn a_frame_is_tagged_for_the_samples_it_holds(
    properties: Map<Seq<char>, PropertyView>,
    image: ImageInfo,
    index: int,
    format: PixelFormat,
    alpha_marker: Option<bool>,
    export_icc_profile: bool,
)
    ensures
        ({
            let tags = tagged(
                properties,
                image,
                index,
                format,
                alpha_marker,
                export_icc_profile,
            );
            let halved = match format {
                PixelFormat::Yuv420P8
                | PixelFormat::Yuv420P10
                | PixelFormat::Yuv422P8
                | PixelFormat::Yuv422P10 => true,
                _ => false,
            };
            let yuv = halved || match format {
                PixelFormat::Yuv444P8
                | PixelFormat::Yuv444P10
                | PixelFormat::Yuv444P12
                | PixelFormat::Yuv444P16 => true,
                _ => false,
            };
            let gray = match format {
                PixelFormat::Gray8
                | PixelFormat::Gray9
                | PixelFormat::Gray10
                | PixelFormat::Gray11
                | PixelFormat::Gray12
                | PixelFormat::Gray13
                | PixelFormat::Gray14
                | PixelFormat::Gray15
                | PixelFormat::Gray16
                | PixelFormat::Gray32F => true,
                _ => false,
            };
            &&& gray ==> kept(properties, tags, "_Matrix"@)
            &&& !gray && !yuv ==> tags.contains_pair("_Matrix"@, PropertyView::Int(0))
            &&& !yuv ==> tags.contains_pair("_Range"@, PropertyView::Int(1))
            &&& yuv ==> match image.cicp {
                Some(stated) => {
                    let code = stated.matrix as int;
                    let named = code == 0 || code == 1 || 4 <= code <= 10 || 12 <= code <= 14;
                    &&& named ==> tags.contains_pair("_Matrix"@, PropertyView::Int(code))
                    &&& !named ==> tags.contains_pair("_Matrix"@, PropertyView::Int(5))
                    &&& stated.full_range ==> tags.contains_pair("_Range"@, PropertyView::Int(1))
                    &&& !stated.full_range ==> tags.contains_pair("_Range"@, PropertyView::Int(0))
                },
                None => {
                    &&& tags.contains_pair("_Matrix"@, PropertyView::Int(5))
                    &&& tags.contains_pair("_Range"@, PropertyView::Int(0))
                },
            }
            &&& match image.chroma_location {
                Some(location) => if halved {
                    tags.contains_pair(
                        "_ChromaLocation"@,
                        PropertyView::Int(
                            match location {
                                ChromaLocation::Left => 0,
                                ChromaLocation::TopLeft => 2,
                            },
                        ),
                    )
                } else {
                    kept(properties, tags, "_ChromaLocation"@)
                },
                None => kept(properties, tags, "_ChromaLocation"@),
            }
        }),
{
    lemma_keys();
}

/// Whether a key holds in `after` what it holds in `before`, if anything.
pub open spec fn kept(
    before: Map<Seq<char>, PropertyView>,
    after: Map<Seq<char>, PropertyView>,
    key: Seq<char>,
) -> bool {
    &&& after.contains_key(key) == before.contains_key(key)
    &&& before.contains_key(key) ==> after[key] == before[key]
}

/// An r,g,b frame is always tagged with the identity and the full range, and a
/// gray frame with the full range, whatever its file states.
pub proof fn an_rgb_frame_keeps_its_matrix_and_range(
    properties: Map<Seq<char>, PropertyView>,
    image: ImageInfo,
    index: int,
    format: PixelFormat,
    alpha_marker: Option<bool>,
    export_icc_profile: bool,
)
    requires
        format.family() != ColorFamily::YUV,
    ensures
        ({
            let tags = tagged(
                properties,
                image,
                index,
                format,
                alpha_marker,
                export_icc_profile,
            );
            &&& format.family() == ColorFamily::RGB ==> tags.contains_pair(
                "_Matrix"@,
                PropertyView::Int(0),
            )
            &&& tags.contains_pair("_Range"@, PropertyView::Int(1))
        }),
{
    lemma_keys();
}

/// A yuv frame of a file that states no colour, such as a lossy webp, is tagged
/// with the matrix of bt.601 and the limited range.
pub proof fn an_untagged_yuv_frame_is_limited_bt601(
    properties: Map<Seq<char>, PropertyView>,
    image: ImageInfo,
    index: int,
    format: PixelFormat,
    alpha_marker: Option<bool>,
    export_icc_profile: bool,
)
    requires
        format.family() == ColorFamily::YUV,
        image.cicp is None,
    ensures
        ({
            let tags = tagged(
                properties,
                image,
                index,
                format,
                alpha_marker,
                export_icc_profile,
            );
            &&& tags.contains_pair("_Matrix"@, PropertyView::Int(5))
            &&& tags.contains_pair("_Range"@, PropertyView::Int(0))
        }),
{
    lemma_keys();
}

/// A yuv frame of a file that names its matrix is tagged with that matrix and the
/// range the file states.
pub proof fn a_yuv_frame_is_tagged_from_its_file(
    properties: Map<Seq<char>, PropertyView>,
    image: ImageInfo,
    index: int,
    format: PixelFormat,
    alpha_marker: Option<bool>,
    export_icc_profile: bool,
)
    requires
        format.family() == ColorFamily::YUV,
        image.cicp is Some,
        names_yuv_matrix(image.cicp.unwrap().matrix as int),
    ensures
        ({
            let stated = image.cicp.unwrap();
            let tags = tagged(
                properties,
                image,
                index,
                format,
                alpha_marker,
                export_icc_profile,
            );
            &&& tags.contains_pair("_Matrix"@, PropertyView::Int(stated.matrix as int))
            &&& tags.contains_pair("_Range"@, PropertyView::Int(stated_range(stated).number()))
        }),
{
    lemma_keys();
}

/// An ICC profile alone only affects `ImgSeqHasICC`: two images that differ in
/// nothing else are tagged alike, as long as the profile itself is not exported.
pub proof fn a_profile_alone_only_affects_one_property(
    properties: Map<Seq<char>, PropertyView>,
    plain: ImageInfo,
    profiled: ImageInfo,
    index: int,
    format: PixelFormat,
    alpha_marker: Option<bool>,
)
    requires
        profiled == (ImageInfo {
            has_icc_profile: profiled.has_icc_profile,
            icc_profile: profiled.icc_profile,
            ..plain
        }),
    ensures
        tagged(properties, plain, index, format, alpha_marker, false).remove("ImgSeqHasICC"@)
            =~= tagged(properties, profiled, index, format, alpha_marker, false).remove(
            "ImgSeqHasICC"@,
        ),
{
}

/// Only two of the chroma positions an av1 coding record can state have a property: the
/// first, between two rows of luma samples and on a column of them, and the second, on a
/// row and a column of them.
pub proof fn two_chroma_positions_have_a_property(position: int)
    ensures
        (named_chroma_location(position) == Some(ChromaLocation::Left)) == (position == 1),
        (named_chroma_location(position) == Some(ChromaLocation::TopLeft)) == (position == 2),
        (named_chroma_location(position) is None) == (position != 1 && position != 2),
{
}

} // verus!
