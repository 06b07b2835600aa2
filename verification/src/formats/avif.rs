//! avif containers, read from their own boxes.
//!
//! Every fact the probe records is in the container: `ispe` holds the size of
//! the primary item, `av1C` its bit depth, its chroma subsampling and whether it
//! is monochrome, `colr` whether an ICC profile is attached and what colour it
//! states, and `auxC` whether an auxiliary item holds alpha.
//!
//! The samples themselves are yuv, and a file whose samples the container
//! describes is handed out as the yuv format they are in. A file that states no
//! matrix the frame properties can name keeps the r,g,b its decoder produces.

use vstd::prelude::*;

use vstd::slice::slice_subrange;

use crate::bytes;
use crate::bytes::{get_be16, get_be32};
use crate::color;
use crate::color::{chroma_location, usable_matrix, Cicp};
use crate::decoder::ImageInfo;
use crate::formats::av1;
use crate::formats::av1::sequence_header_cicp;
use crate::formats::boxes;
use crate::formats::boxes::{child_boxes, BoxSpan, FTYP};
use crate::formats::meta;
use crate::formats::meta::Meta;
use crate::frame::ColorFamily;
use crate::image_types::{ColorType, Orientation};
use crate::pixel::{PixelFormat, Transform};
use crate::text;
use crate::text::path_has_extension;

verus! {

/// Size limit for the leading boxes of an avif. The metadata of a real file is
/// orders of magnitude smaller, and a file past it is left to the decoder.
pub const HEADER_LIMIT: usize = 1024 * 1024;

/// Bytes of the primary item payload read to find its sequence header.
pub const SEQUENCE_HEADER_LIMIT: usize = 4096;

/// The brand `avif`.
pub const AVIF: u32 = 0x6176_6966;

/// The brand `avis`.
pub const AVIS: u32 = 0x6176_6973;

/// The kind `ispe`.
pub const ISPE: u32 = 0x6973_7065;

/// The kind `av1C`.
pub const AV1C: u32 = 0x6176_3143;

/// The kind `colr`.
pub const COLR: u32 = 0x636f_6c72;

/// The colour type `nclx`.
pub const NCLX: u32 = 0x6e63_6c78;

/// The colour type `prof`.
pub const PROF: u32 = 0x7072_6f66;

/// The colour type `rICC`.
pub const RICC: u32 = 0x7249_4343;

/// Whether a path has an extension that holds an avif container.
pub fn has_avif_extension(path: &str) -> (avif: bool)
    ensures
        text::plain_path(path@) ==> avif == text::has_extension(path@, "avif"@),
{
    proof {
        reveal_strlit("avif");
    }
    path_has_extension(path, "avif")
}

/// Whether this module decodes `info`.
///
/// Only a file the probe described as yuv is decoded here; a file whose samples
/// the container does not name keeps the r,g,b the `image` decoder produces.
pub fn handles(info: &ImageInfo) -> (handled: bool)
    ensures
        info.format.family() != ColorFamily::YUV ==> !handled,
        text::plain_path(info.path@) ==> handled == (text::has_extension(info.path@, "avif"@)
            && info.format.family() == ColorFamily::YUV),
{
    has_avif_extension(info.path.as_str()) && info.format.color_family() == ColorFamily::YUV
}

/// Whether a brand is one of a file that can hold av1 items.
pub open spec fn avif_brand(brand: int) -> bool {
    brand == AVIF || brand == AVIS
}

/// Whether the leading boxes start with a file type that can hold av1 items: its
/// major brand or one of the compatible ones says so.
pub open spec fn branded(data: Seq<u8>) -> bool {
    match boxes::boxes_from(data, 0, data.len() as int) {
        Some(listed) => {
            let payload = boxes::payload(data, listed[0]);
            &&& listed.len() > 0
            &&& listed[0].kind == FTYP
            &&& payload.len() >= 8
            &&& (avif_brand(bytes::be32(payload, 0)) || exists|i: int|
                0 <= i && 12 + 4 * i <= payload.len() && avif_brand(
                    #[trigger] bytes::be32(payload, 8 + 4 * i),
                ))
        },
        None => false,
    }
}

/// Whether the leading boxes start with a file type that can hold av1 items.
///
/// A file that is not one of these is left to the `image` decoder, which sniffs
/// the format itself and may route it elsewhere.
pub fn has_avif_brand(data: &[u8]) -> (found: bool)
    ensures
        found == branded(data@),
{
    let listed = match child_boxes(data, 0, data.len()) {
        Some(listed) => listed,
        None => {
            return false;
        },
    };
    if listed.len() == 0 || listed[0].kind != FTYP {
        return false;
    }
    let payload = slice_subrange(data, listed[0].start, listed[0].end);
    let len: usize = payload.len();
    if len < 8 {
        return false;
    }
    match get_be32(payload, 0) {
        Some(brand) => {
            if brand == AVIF || brand == AVIS {
                return true;
            }
        },
        None => {
            return false;
        },
    }
    let mut at: usize = 8;
    let ghost mut index: int = 0;
    while len - at >= 4
        invariant
            8 <= at <= len,
            len == payload@.len(),
            at == 8 + 4 * index,
            0 <= index,
            boxes::boxes_from(data@, 0, data@.len() as int) == Some(listed@),
            listed@.len() > 0,
            listed@[0].kind == FTYP,
            payload@ == boxes::payload(data@, listed@[0]),
            forall|i: int|
                0 <= i < index ==> !avif_brand(#[trigger] bytes::be32(payload@, 8 + 4 * i)),
        decreases len - at,
    {
        match get_be32(payload, at) {
            Some(brand) => {
                assert(brand == bytes::be32(payload@, 8 + 4 * index));
                if brand == AVIF || brand == AVIS {
                    return true;
                }
            },
            None => {
                return false;
            },
        }
        at = at + 4;
        proof {
            index = index + 1;
        }
    }
    false
}

/// The colour an `nclx` payload of a `colr` box states: three code points that
/// fit in a byte, and a flag whose top bit is the full range.
pub open spec fn nclx_of(payload: Seq<u8>) -> Option<Cicp> {
    let primaries = bytes::be16(payload, 4);
    let transfer = bytes::be16(payload, 6);
    let matrix = bytes::be16(payload, 8);
    if payload.len() < 11 || bytes::be32(payload, 0) != NCLX || primaries > 255 || transfer > 255
        || matrix > 255 {
        None
    } else {
        Some(
            Cicp {
                primaries: primaries as u8,
                transfer: transfer as u8,
                matrix: matrix as u8,
                full_range: payload[10] >= 0x80,
            },
        )
    }
}

/// The colour description an `nclx` `colr` payload states.
///
/// The payload is the four byte type name, then the primaries, transfer and
/// matrix code points as big endian 16 bit numbers, then a flag byte whose top
/// bit says whether the samples use the full range. The other kinds of `colr`
/// payload hold an ICC profile, which states no codes at all. Every code point
/// fits in a byte, so one that does not is a file whose colour is not stated.
pub fn nclx_cicp(payload: &[u8]) -> (color: Option<Cicp>)
    ensures
        color == nclx_of(payload@),
{
    if payload.len() < 11 {
        return None;
    }
    match (
        get_be32(payload, 0),
        get_be16(payload, 4),
        get_be16(payload, 6),
        get_be16(payload, 8),
    ) {
        (Some(NCLX), Some(primaries), Some(transfer), Some(matrix)) => {
            if primaries > 255 || transfer > 255 || matrix > 255 {
                return None;
            }
            Some(
                Cicp {
                    primaries: primaries as u8,
                    transfer: transfer as u8,
                    matrix: matrix as u8,
                    full_range: payload[10] >= 0x80,
                },
            )
        },
        _ => None,
    }
}

/// Bit depth the flags byte of an av1 coding record describes: twelve only with
/// the high depth flag beside its own.
pub open spec fn coded_depth(flags: int) -> int {
    if flags / 0x40 % 2 == 0 {
        8
    } else if flags / 0x20 % 2 == 0 {
        10
    } else {
        12
    }
}

/// Bit depth the flags byte of an av1 coding record describes.
pub fn av1_bit_depth(flags: u8) -> (depth: u8)
    ensures
        depth == coded_depth(flags as int),
{
    if flags / 0x40 % 2 == 0 {
        8
    } else if flags / 0x20 % 2 == 0 {
        10
    } else {
        12
    }
}

/// What the item properties of the primary item state about it.
#[derive(Clone, Copy, Debug, PartialEq, Eq, Structural)]
pub struct AvifHeader {
    pub width: u32,
    pub height: u32,
    /// Bits of one sample of the primary item.
    pub depth: u8,
    /// Whether the primary item is one sample per pixel.
    pub monochrome: bool,
    /// The subsampled layout of the primary item, as the two `av1C` flags name
    /// it: 0 is 4:4:4, 1 is 4:2:2 and 2 is 4:2:0.
    pub chroma: u8,
    /// The two bit chroma sample position of the primary item, which is stated
    /// for a subsampled picture and is zero for a picture that names none.
    pub chroma_position: u8,
    pub has_icc_profile: bool,
    /// The colour description a `colr` box of the primary item states, when it
    /// holds one.
    pub cicp: Option<Cicp>,
}

/// What the properties up to one of a list state: the size, the flags of the
/// coding record, whether there is a profile, and the colour.
pub struct StatedProperties {
    pub size: Option<(u32, u32)>,
    pub flags: Option<u8>,
    pub has_icc_profile: bool,
    pub cicp: Option<Cicp>,
}

/// What a list of properties states, the later property of a kind taking the
/// place of an earlier one, unless one of them is too short for what it holds.
pub open spec fn stated_properties(data: Seq<u8>, properties: Seq<BoxSpan>) -> Option<
    StatedProperties,
>
    decreases properties.len(),
{
    if properties.len() == 0 {
        Some(StatedProperties { size: None, flags: None, has_icc_profile: false, cicp: None })
    } else {
        match stated_properties(data, properties.drop_last()) {
            None => None,
            Some(stated) => {
                let payload = boxes::payload(data, properties.last());
                let kind = properties.last().kind;
                if kind == ISPE {
                    if payload.len() < 12 {
                        None
                    } else {
                        Some(
                            StatedProperties {
                                size: Some(
                                    (
                                        bytes::be32(payload, 4) as u32,
                                        bytes::be32(payload, 8) as u32,
                                    ),
                                ),
                                ..stated
                            },
                        )
                    }
                } else if kind == AV1C {
                    if payload.len() < 3 {
                        None
                    } else {
                        Some(StatedProperties { flags: Some(payload[2]), ..stated })
                    }
                } else if kind == COLR {
                    if payload.len() < 4 {
                        None
                    } else {
                        Some(
                            StatedProperties {
                                has_icc_profile: stated.has_icc_profile || bytes::be32(
                                    payload,
                                    0,
                                ) == PROF || bytes::be32(payload, 0) == RICC,
                                cicp: match nclx_of(payload) {
                                    Some(color) => Some(color),
                                    None => stated.cicp,
                                },
                                ..stated
                            },
                        )
                    }
                } else {
                    Some(stated)
                }
            },
        }
    }
}

/// What the properties of the primary item state about it, if they state its
/// size and its coding record.
pub open spec fn header_of(data: Seq<u8>, properties: Seq<BoxSpan>) -> Option<AvifHeader> {
    match stated_properties(data, properties) {
        Some(stated) => match (stated.size, stated.flags) {
            (Some((width, height)), Some(flags)) => Some(
                AvifHeader {
                    width,
                    height,
                    depth: coded_depth(flags as int) as u8,
                    monochrome: flags as int / 0x10 % 2 == 1,
                    chroma: (flags as int / 8 % 2 + flags as int / 4 % 2) as u8,
                    chroma_position: (flags as int % 4) as u8,
                    has_icc_profile: stated.has_icc_profile,
                    cicp: stated.cicp,
                },
            ),
            _ => None,
        },
        None => None,
    }
}

impl AvifHeader {
    /// Reads the properties of the primary item.
    pub fn read(data: &[u8], properties: &Vec<BoxSpan>) -> (header: Option<AvifHeader>)
        requires
            meta::spans_lie_in(properties@, data@),
        ensures
            header == header_of(data@, properties@),
    {
        let mut size: Option<(u32, u32)> = None;
        let mut flags: Option<u8> = None;
        let mut has_icc_profile: bool = false;
        let mut cicp: Option<Cicp> = None;
        let mut at: usize = 0;
        while at < properties.len()
            invariant
                at <= properties.len(),
                meta::spans_lie_in(properties@, data@),
                stated_properties(data@, properties@) is Some ==> stated_properties(
                    data@,
                    properties@.take(at as int),
                ) is Some,
                stated_properties(data@, properties@.take(at as int)) == Some(
                    (StatedProperties { size, flags, has_icc_profile, cicp }),
                ),
            decreases properties.len() - at,
        {
            proof {
                assert(properties@.take(at + 1).drop_last() =~= properties@.take(at as int));
                assert(properties@.take(at + 1).last() == properties@[at as int]);
                lemma_prefix_states(data@, properties@, at + 1);
            }
            let span = properties[at];
            let payload = slice_subrange(data, span.start, span.end);
            if span.kind == ISPE {
                if payload.len() < 12 {
                    return None;
                }
                match (get_be32(payload, 4), get_be32(payload, 8)) {
                    (Some(width), Some(height)) => {
                        size = Some((width, height));
                    },
                    _ => {
                        return None;
                    },
                }
            } else if span.kind == AV1C {
                if payload.len() < 3 {
                    return None;
                }
                flags = Some(payload[2]);
            } else if span.kind == COLR {
                let kind: u32 = match get_be32(payload, 0) {
                    Some(kind) => kind,
                    None => {
                        return None;
                    },
                };
                has_icc_profile = has_icc_profile || kind == PROF || kind == RICC;
                // A file may hold both an opaque profile and the codes, and the
                // codes are what the frame properties are written from; an ICC
                // profile on its own is `ImgSeqHasICC`.
                match nclx_cicp(payload) {
                    Some(color) => {
                        cicp = Some(color);
                    },
                    None => {},
                }
            }
            at += 1;
        }
        assert(properties@.take(at as int) =~= properties@);
        match (size, flags) {
            (Some((width, height)), Some(flags)) => Some(
                AvifHeader {
                    width,
                    height,
                    depth: av1_bit_depth(flags),
                    monochrome: flags / 0x10 % 2 == 1,
                    // The two subsampling flags are one bit each, and their sum
                    // is the layout this module names a format by: neither is
                    // 4:4:4, the horizontal one alone is 4:2:2, and both are
                    // 4:2:0.
                    chroma: flags / 8 % 2 + flags / 4 % 2,
                    chroma_position: flags % 4,
                    has_icc_profile,
                    cicp,
                },
            ),
            _ => None,
        }
    }

    /// The colour type of the samples the file holds.
    pub open spec fn stored(self, has_alpha: bool) -> ColorType {
        match (self.monochrome, self.depth > 8, has_alpha) {
            (true, false, false) => ColorType::L8,
            (true, false, true) => ColorType::La8,
            (true, true, false) => ColorType::L16,
            (true, true, true) => ColorType::La16,
            (false, false, false) => ColorType::Rgb8,
            (false, false, true) => ColorType::Rgba8,
            (false, true, false) => ColorType::Rgb16,
            (false, true, true) => ColorType::Rgba16,
        }
    }

    /// The colour type the `image` avif decoder reports for this file.
    pub open spec fn reported(self) -> ColorType {
        if self.depth > 8 {
            ColorType::Rgba16
        } else {
            ColorType::Rgba8
        }
    }

    /// The colour type a colour image of this depth is probed as.
    pub open spec fn coloured(self, has_alpha: bool) -> ColorType {
        match (self.depth > 8, has_alpha) {
            (false, false) => ColorType::Rgb8,
            (false, true) => ColorType::Rgba8,
            (true, false) => ColorType::Rgb16,
            (true, true) => ColorType::Rgba16,
        }
    }

    /// The color type the `image` avif decoder reports for this file, whose
    /// decoder hands back four channels whatever the bitstream holds. That is
    /// what a file this module leaves to it is probed as.
    pub fn decoded_color_type(&self) -> (color_type: ColorType)
        ensures
            color_type == self.reported(),
    {
        if self.depth > 8 {
            ColorType::Rgba16
        } else {
            ColorType::Rgba8
        }
    }

    /// The color type of the samples the file holds: three channels for a colour
    /// image, and a fourth when an alpha item exists. A monochrome image holds
    /// the one sample the container says it does, beside the alpha item when
    /// there is one.
    pub fn file_color_type(&self, has_alpha: bool) -> (color_type: ColorType)
        ensures
            color_type == self.stored(has_alpha),
    {
        match (self.monochrome, self.depth > 8, has_alpha) {
            (true, false, false) => ColorType::L8,
            (true, false, true) => ColorType::La8,
            (true, true, false) => ColorType::L16,
            (true, true, true) => ColorType::La16,
            (false, false, false) => ColorType::Rgb8,
            (false, false, true) => ColorType::Rgba8,
            (false, true, false) => ColorType::Rgb16,
            (false, true, true) => ColorType::Rgba16,
        }
    }

    /// Color type a colour image of this depth is probed as, which is what the
    /// alpha item beside it decides the last channel of.
    pub fn colour_color_type(&self, has_alpha: bool) -> (color_type: ColorType)
        ensures
            color_type == self.coloured(has_alpha),
    {
        match (self.depth > 8, has_alpha) {
            (false, false) => ColorType::Rgb8,
            (false, true) => ColorType::Rgba8,
            (true, false) => ColorType::Rgb16,
            (true, true) => ColorType::Rgba16,
        }
    }
}

proof fn lemma_prefix_states(data: Seq<u8>, properties: Seq<BoxSpan>, count: int)
    requires
        0 <= count <= properties.len(),
    ensures
        stated_properties(data, properties) is Some ==> stated_properties(
            data,
            properties.take(count),
        ) is Some,
    decreases properties.len() - count,
{
    if count == properties.len() {
        assert(properties.take(count) =~= properties);
    } else {
        lemma_prefix_states(data, properties, count + 1);
        assert(properties.take(count + 1).drop_last() =~= properties.take(count));
    }
}

/// The yuv format a subsampled layout of `depth` bits is handed out as.
pub open spec fn yuv_of(chroma: int, depth: int) -> Option<PixelFormat> {
    if depth == 8 && chroma == 2 {
        Some(PixelFormat::Yuv420P8)
    } else if depth == 8 && chroma == 1 {
        Some(PixelFormat::Yuv422P8)
    } else if depth == 8 && chroma == 0 {
        Some(PixelFormat::Yuv444P8)
    } else if depth == 10 && chroma == 2 {
        Some(PixelFormat::Yuv420P10)
    } else if depth == 10 && chroma == 1 {
        Some(PixelFormat::Yuv422P10)
    } else if depth == 10 && chroma == 0 {
        Some(PixelFormat::Yuv444P10)
    } else if depth == 12 && chroma == 0 {
        Some(PixelFormat::Yuv444P12)
    } else {
        None
    }
}

/// The yuv format a subsampled layout of `depth` bits is handed out as.
///
/// A depth with no format of its own - twelve bit 4:2:0, say - keeps the r,g,b
/// the `image` decoder produces, which is why this answers `None` rather than
/// rounding the samples into a format that would misstate them.
pub fn yuv_format(chroma: u8, depth: u8) -> (format: Option<PixelFormat>)
    ensures
        format == yuv_of(chroma as int, depth as int),
{
    match (chroma, depth) {
        (2, 8) => Some(PixelFormat::Yuv420P8),
        (1, 8) => Some(PixelFormat::Yuv422P8),
        (0, 8) => Some(PixelFormat::Yuv444P8),
        (2, 10) => Some(PixelFormat::Yuv420P10),
        (1, 10) => Some(PixelFormat::Yuv422P10),
        (0, 10) => Some(PixelFormat::Yuv444P10),
        (0, 12) => Some(PixelFormat::Yuv444P12),
        _ => None,
    }
}

/// The yuv format a colour image is handed out as: one the layout and the depth
/// have, where the container states a matrix the frame properties can name.
pub open spec fn handed_out_yuv(header: AvifHeader, cicp: Option<Cicp>) -> Option<PixelFormat> {
    match cicp {
        Some(stated) => if color::names_yuv_matrix(stated.matrix as int) {
            yuv_of(header.chroma as int, header.depth as int)
        } else {
            None
        },
        None => None,
    }
}

/// The colour type an avif is probed as.
pub open spec fn probed_color_type(
    header: AvifHeader,
    has_alpha: bool,
    cicp: Option<Cicp>,
) -> ColorType {
    if !header.monochrome && handed_out_yuv(header, cicp) is Some {
        header.coloured(has_alpha)
    } else {
        header.reported()
    }
}

/// The format an avif is handed out as: the gray format of a monochrome image at
/// its depth, the yuv format of a colour image that states its matrix, and the
/// r,g,b format of any other at its depth.
pub open spec fn probed_format(
    header: AvifHeader,
    has_alpha: bool,
    cicp: Option<Cicp>,
) -> PixelFormat {
    if header.monochrome {
        PixelFormat::of_color_type(header.stored(has_alpha)).unwrap().narrowed(header.depth as u32)
    } else {
        match handed_out_yuv(header, cicp) {
            Some(format) => format,
            None => PixelFormat::of_color_type(header.reported()).unwrap().narrowed(
                header.depth as u32,
            ),
        }
    }
}

/// Whether `info` is what the container of an avif states about its image.
pub open spec fn describes(
    info: ImageInfo,
    path: Seq<char>,
    header: AvifHeader,
    has_alpha: bool,
    cicp: Option<Cicp>,
) -> bool {
    &&& info.path@ == path
    &&& info.width == header.width
    &&& info.height == header.height
    &&& info.color_type == probed_color_type(header, has_alpha, cicp)
    &&& info.original_color_type@ == (if header.monochrome {
        header.stored(has_alpha).text()
    } else {
        probed_color_type(header, has_alpha, cicp).text()
    })
    &&& info.has_icc_profile == header.has_icc_profile
    &&& info.icc_profile is None
    &&& info.cicp == cicp
    &&& info.chroma_location == (if header.monochrome {
        None
    } else {
        color::named_chroma_location(header.chroma_position as int)
    })
    &&& info.orientation == Orientation::NoTransforms
    &&& info.transform == Transform::unchanged()
    &&& info.format == probed_format(header, has_alpha, cicp)
}

/// What the leading boxes of an avif describe, before its colour is known.
pub struct AvifProbe {
    pub header: AvifHeader,
    pub has_alpha: bool,
    /// Where the start of the coded image is, for a file whose boxes state no
    /// colour, which its sequence header may state instead.
    pub coded: Option<(usize, usize)>,
}

/// What the leading boxes of an avif describe, if they describe an image this
/// module can probe.
pub open spec fn probe_of(data: Seq<u8>) -> Option<(AvifHeader, bool, meta::MetaView)> {
    match meta::meta_of(data) {
        Some(boxes) => match boxes.primary_list() {
            Some(properties) => match header_of(data, properties) {
                Some(header) => Some((header, boxes.alpha(), boxes)),
                None => None,
            },
            None => None,
        },
        None => None,
    }
}

/// Reads what the leading boxes of an avif describe.
///
/// `None` means "let the `image` decoder describe this file": a container this
/// module will not walk, or one whose primary item is not the shape a probe can
/// describe.
pub fn probe_boxes(data: &[u8]) -> (probe: Option<AvifProbe>)
    ensures
        match probe {
            Some(probe) => {
                &&& branded(data@)
                &&& probe_of(data@) is Some
                &&& probe.header == probe_of(data@)->Some_0.0
                &&& probe.has_alpha == probe_of(data@)->Some_0.1
                &&& probe.header.width != 0
                &&& probe.header.height != 0
                &&& match probe.coded {
                    Some(range) => {
                        &&& probe.header.cicp is None
                        &&& probe_of(data@)->Some_0.2.primary_range(SEQUENCE_HEADER_LIMIT as int)
                            == Ok::<(int, int), Seq<char>>((range.0 as int, range.1 as int))
                    },
                    None => probe.header.cicp is Some
                        || probe_of(data@)->Some_0.2.primary_range(SEQUENCE_HEADER_LIMIT as int)
                        is Err,
                }
            },
            None => {
                ||| !branded(data@)
                ||| probe_of(data@) is None
                ||| probe_of(data@)->Some_0.0.width == 0
                ||| probe_of(data@)->Some_0.0.height == 0
            },
        },
{
    if !has_avif_brand(data) {
        return None;
    }
    let boxes = match Meta::read(data) {
        Some(boxes) => boxes,
        None => {
            return None;
        },
    };
    let properties = match boxes.primary_properties() {
        Some(properties) => properties,
        None => {
            return None;
        },
    };
    let header = match AvifHeader::read(data, &properties) {
        Some(header) => header,
        None => {
            return None;
        },
    };
    if header.width == 0 || header.height == 0 {
        return None;
    }
    let has_alpha = boxes.has_alpha();
    let coded = match header.cicp {
        Some(_) => None,
        None => match boxes.primary_data(SEQUENCE_HEADER_LIMIT) {
            Ok(range) => Some(range),
            Err(_) => None,
        },
    };
    Some(AvifProbe { header, has_alpha, coded })
}

/// The colour an avif is tagged with: the one a `colr` box states, and the one
/// the sequence header of the coded image states when there is no such box.
pub open spec fn stated_color(header: AvifHeader, payload: Option<Seq<u8>>) -> Option<Cicp> {
    match (header.cicp, payload) {
        (Some(stated), _) => Some(stated),
        (None, Some(payload)) => av1::payload_color(payload),
        (None, None) => None,
    }
}

/// The view of an optional run of bytes.
pub open spec fn bytes_view(data: Option<&[u8]>) -> Option<Seq<u8>> {
    match data {
        Some(data) => Some(data@),
        None => None,
    }
}

/// What the container of an avif states about its image.
///
/// `payload` is the start of the coded image, for a probe that asks for it. The
/// colour the frames are tagged with is the one the `colr` box states, and the
/// sequence header of the coded image when the item has no box: `avifenc` writes
/// one, and a lot of other writers state the codes in the bitstream alone.
///
/// A file this answers with an r,g,b format is described but not decoded here,
/// and its format correction is read from the same boxes by [`output_format`].
pub fn image_info(path: &str, probe: &AvifProbe, payload: Option<&[u8]>) -> (info: ImageInfo)
    ensures
        describes(
            info,
            path@,
            probe.header,
            probe.has_alpha,
            stated_color(probe.header, bytes_view(payload)),
        ),
{
    let header = probe.header;
    let has_alpha = probe.has_alpha;
    let cicp = match (header.cicp, payload) {
        (Some(stated), _) => Some(stated),
        (None, Some(payload)) => sequence_header_cicp(payload),
        (None, None) => None,
    };
    if header.monochrome {
        // A monochrome item holds one plane, and the `image` decoder converts it
        // into the four channels it reports. The probe records the gray format
        // the samples map to, at the depth the `av1C` box states, and leaves the
        // decode to `image`.
        let stored = header.file_color_type(has_alpha);
        let word = match PixelFormat::from_color_type(stored) {
            Some(word) => word,
            None => PixelFormat::Gray8,
        };
        return ImageInfo {
            path: String::from_str(path),
            width: header.width,
            height: header.height,
            color_type: header.decoded_color_type(),
            original_color_type: String::from_str(stored.name()),
            has_icc_profile: header.has_icc_profile,
            icc_profile: None,
            cicp,
            // A single plane has no chroma to place.
            chroma_location: None,
            orientation: Orientation::NoTransforms,
            transform: Transform::identity(),
            format: word.at_depth(header.depth as u32),
        };
    }
    // The samples are yuv when the container states a matrix the frame properties
    // can name. A file that states none, states "unspecified", or states the
    // identity keeps the r,g,b the `image` decoder produces, and is still
    // described here, because the colour it states is written into the frame's
    // properties either way.
    let yuv = match cicp {
        Some(stated) => if usable_matrix(stated.matrix) {
            yuv_format(header.chroma, header.depth)
        } else {
            None
        },
        None => None,
    };
    let (format, color_type) = match yuv {
        Some(format) => (format, header.colour_color_type(has_alpha)),
        // The color type the `image` decoder reports, which is what the frame
        // request of such a file is checked against, and the depth the `av1C` box
        // states, which is what its samples are handed out at.
        None => {
            let reported = header.decoded_color_type();
            let word = match PixelFormat::from_color_type(reported) {
                Some(word) => word,
                None => PixelFormat::Rgb8,
            };
            (word.at_depth(header.depth as u32), reported)
        },
    };
    ImageInfo {
        path: String::from_str(path),
        width: header.width,
        height: header.height,
        color_type,
        original_color_type: String::from_str(color_type.name()),
        has_icc_profile: header.has_icc_profile,
        icc_profile: None,
        cicp,
        chroma_location: chroma_location(header.chroma_position),
        orientation: Orientation::NoTransforms,
        transform: Transform::identity(),
        format,
    }
}

/// The gray format of the single plane of a monochrome item.
pub open spec fn monochrome_format(data: Seq<u8>) -> Option<PixelFormat> {
    match probe_of(data) {
        Some((header, has_alpha, _)) => if header.monochrome {
            Some(
                PixelFormat::of_color_type(header.stored(has_alpha)).unwrap().narrowed(
                    header.depth as u32,
                ),
            )
        } else {
            None
        },
        None => None,
    }
}

/// Whether a decoder reports three or four channels for a file that may hold
/// one: only such a file needs its format corrected.
pub open spec fn may_correct(color_type: ColorType) -> bool {
    match PixelFormat::of_color_type(color_type) {
        Some(format) => format.family() == ColorFamily::RGB,
        None => false,
    }
}

/// Whether the boxes of a file are read for the format it is handed out as.
pub fn corrects(path: &str, color_type: ColorType) -> (read: bool)
    ensures
        !may_correct(color_type) ==> !read,
        text::plain_path(path@) ==> read == (may_correct(color_type) && text::has_extension(
            path@,
            "avif"@,
        )),
{
    // A decoder that already reports one of the monochrome color types maps to
    // the gray format on its own.
    match PixelFormat::from_color_type(color_type) {
        Some(decoded) => decoded.color_family() == ColorFamily::RGB && has_avif_extension(path),
        None => false,
    }
}

/// Format a file this module describes is handed out as, for a file whose
/// decode is left to the `image` decoder.
///
/// This reads the same boxes as [`probe_boxes`] but without asking for the
/// brand, because the files it matters for are exactly the ones that one
/// declines: a monochrome item in a container whose major brand is not `avif` is
/// described by whichever decoder `image` picks, which reports the four channels
/// it always reports, and its single plane is still the format it should be
/// handed out as.
pub fn output_format(path: &str, color_type: ColorType, data: &[u8]) -> (format: Option<
    PixelFormat,
>)
    ensures
        format is None || (may_correct(color_type) && format == monochrome_format(data@)),
        text::plain_path(path@) ==> format == (if may_correct(color_type) && text::has_extension(
            path@,
            "avif"@,
        ) {
            monochrome_format(data@)
        } else {
            None
        }),
{
    if !corrects(path, color_type) {
        return None;
    }
    let boxes = match Meta::read(data) {
        Some(boxes) => boxes,
        None => {
            return None;
        },
    };
    let properties = match boxes.primary_properties() {
        Some(properties) => properties,
        None => {
            return None;
        },
    };
    let header = match AvifHeader::read(data, &properties) {
        Some(header) => header,
        None => {
            return None;
        },
    };
    if !header.monochrome {
        return None;
    }
    match PixelFormat::from_color_type(header.file_color_type(boxes.has_alpha())) {
        Some(format) => Some(format.at_depth(header.depth as u32)),
        None => None,
    }
}

/// A file is handed out as yuv only when it states a matrix the frame properties
/// can name: one that states none, or one without a name, keeps the r,g,b or gray
/// its decoder produces.
pub proof fn a_yuv_avif_states_its_matrix(
    info: ImageInfo,
    path: Seq<char>,
    header: AvifHeader,
    has_alpha: bool,
    cicp: Option<Cicp>,
)
    requires
        describes(info, path, header, has_alpha, cicp),
        info.format.family() == ColorFamily::YUV,
    ensures
        info.cicp matches Some(stated) && color::names_yuv_matrix(stated.matrix as int),
{
}

/// Whether a property is a colour box that states code points: the letters `nclx`,
/// and three numbers that fit a byte.
pub open spec fn states_codes(data: Seq<u8>, property: BoxSpan) -> bool {
    let start = property.start as int;
    &&& property.kind == 0x636f_6c72
    &&& property.end - start >= 11
    &&& data[start] == 0x6e && data[start + 1] == 0x63 && data[start + 2] == 0x6c && data[start
        + 3] == 0x78
    &&& data[start + 4] == 0 && data[start + 6] == 0 && data[start + 8] == 0
}

/// Whether a property is a colour box that holds a profile: the letters `prof` or
/// `rICC`.
pub open spec fn holds_profile(data: Seq<u8>, property: BoxSpan) -> bool {
    let start = property.start as int;
    &&& property.kind == 0x636f_6c72
    &&& property.end - start >= 4
    &&& {
        ||| data[start] == 0x70 && data[start + 1] == 0x72 && data[start + 2] == 0x6f && data[start
            + 3] == 0x66
        ||| data[start] == 0x72 && data[start + 1] == 0x49 && data[start + 2] == 0x43 && data[start
            + 3] == 0x43
    }
}

proof fn lemma_letters(data: Seq<u8>, property: BoxSpan)
    requires
        property.start <= property.end <= data.len(),
    ensures
        property.kind == 0x636f_6c72 && property.end - property.start >= 4 ==> {
            let payload = boxes::payload(data, property);
            &&& (nclx_of(payload) is Some) == states_codes(data, property)
            &&& (bytes::be32(payload, 0) == PROF || bytes::be32(payload, 0) == RICC)
                == holds_profile(data, property)
        },
{
    let payload = boxes::payload(data, property);
    if property.kind == 0x636f_6c72 && property.end - property.start >= 4 {
        let start = property.start as int;
        assert(payload[0] == data[start]);
        assert(payload[1] == data[start + 1]);
        assert(payload[2] == data[start + 2]);
        assert(payload[3] == data[start + 3]);
        if payload.len() >= 11 {
            assert(payload[4] == data[start + 4]);
            assert(payload[5] == data[start + 5]);
            assert(payload[6] == data[start + 6]);
            assert(payload[7] == data[start + 7]);
            assert(payload[8] == data[start + 8]);
            assert(payload[9] == data[start + 9]);
            assert(payload[10] == data[start + 10]);
        }
    }
}

proof fn lemma_stated(data: Seq<u8>, properties: Seq<BoxSpan>, at: int)
    requires
        meta::spans_lie_in(properties, data),
        stated_properties(data, properties) is Some,
        0 <= at < properties.len(),
    ensures
        ({
            let stated = stated_properties(data, properties)->Some_0;
            let start = properties[at].start as int;
            &&& properties[at].kind == 0x6973_7065 && (forall|later: int|
                at < later < properties.len() ==> (#[trigger] properties[later]).kind
                    != 0x6973_7065) ==> {
                &&& start + 12 <= properties[at].end
                &&& stated.size == Some(
                    (
                        bytes::be32(data, start + 4) as u32,
                        bytes::be32(data, start + 8) as u32,
                    ),
                )
            }
            &&& properties[at].kind == 0x6176_3143 && (forall|later: int|
                at < later < properties.len() ==> (#[trigger] properties[later]).kind
                    != 0x6176_3143) ==> {
                &&& start + 3 <= properties[at].end
                &&& stated.flags == Some(data[start + 2])
            }
            &&& states_codes(data, properties[at]) && (forall|later: int|
                at < later < properties.len() ==> !states_codes(
                    data,
                    #[trigger] properties[later],
                )) ==> stated.cicp == Some(
                Cicp {
                    primaries: data[start + 5],
                    transfer: data[start + 7],
                    matrix: data[start + 9],
                    full_range: data[start + 10] >= 0x80,
                },
            )
            &&& holds_profile(data, properties[at]) ==> stated.has_icc_profile
        }),
    decreases properties.len(),
{
    let shorter = properties.drop_last();
    let last = properties.last();
    let start = properties[at].start as int;
    let payload = boxes::payload(data, last);
    assert(properties[properties.len() - 1] == last);
    lemma_letters(data, last);
    if at == properties.len() - 1 {
        if last.kind == 0x6973_7065 {
            assert(payload[4] == data[start + 4] && payload[5] == data[start + 5] && payload[6]
                == data[start + 6] && payload[7] == data[start + 7]);
            assert(payload[8] == data[start + 8] && payload[9] == data[start + 9] && payload[10]
                == data[start + 10] && payload[11] == data[start + 11]);
        }
        if states_codes(data, last) {
            assert(payload[4] == data[start + 4] && payload[5] == data[start + 5]);
            assert(payload[6] == data[start + 6] && payload[7] == data[start + 7]);
            assert(payload[8] == data[start + 8] && payload[9] == data[start + 9]);
            assert(payload[10] == data[start + 10]);
        }
    } else {
        assert(shorter[at] == properties[at]);
        assert forall|later: int| at < later < shorter.len() implies #[trigger] shorter[later]
            == properties[later] by {}
        lemma_stated(data, shorter, at);
    }
}

proof fn lemma_nothing_stated(data: Seq<u8>, properties: Seq<BoxSpan>)
    requires
        meta::spans_lie_in(properties, data),
        stated_properties(data, properties) is Some,
    ensures
        ({
            let stated = stated_properties(data, properties)->Some_0;
            &&& (forall|at: int|
                0 <= at < properties.len() ==> !states_codes(data, #[trigger] properties[at]))
                ==> stated.cicp is None
            &&& (forall|at: int|
                0 <= at < properties.len() ==> !holds_profile(data, #[trigger] properties[at]))
                ==> !stated.has_icc_profile
        }),
    decreases properties.len(),
{
    if properties.len() > 0 {
        let shorter = properties.drop_last();
        assert(properties[properties.len() - 1] == properties.last());
        assert forall|at: int| 0 <= at < shorter.len() implies #[trigger] shorter[at]
            == properties[at] by {}
        lemma_letters(data, properties.last());
        lemma_nothing_stated(data, shorter);
    }
}

/// The header of an avif is what its boxes say, bit by bit. The last `ispe` states
/// the size. The flags byte of the last `av1C` states the depth: eight bits where
/// bit six is clear, ten where it is set and bit five clear, and twelve where both
/// are set; bit four a monochrome picture, bits three and two how often the chroma
/// is halved, and the lowest two where it sits.
pub proof fn a_header_is_what_its_boxes_state(
    data: Seq<u8>,
    properties: Seq<BoxSpan>,
    header: AvifHeader,
    at: int,
)
    requires
        meta::spans_lie_in(properties, data),
        header_of(data, properties) == Some(header),
        0 <= at < properties.len(),
        forall|later: int|
            at < later < properties.len() ==> (#[trigger] properties[later]).kind
                != properties[at].kind,
    ensures
        ({
            let start = properties[at].start as int;
            let flags = data[start + 2] as int;
            &&& properties[at].kind == 0x6973_7065 ==> {
                &&& header.width == data[start + 4] * 0x100_0000 + data[start + 5] * 0x1_0000
                    + data[start + 6] * 0x100 + data[start + 7]
                &&& header.height == data[start + 8] * 0x100_0000 + data[start + 9] * 0x1_0000
                    + data[start + 10] * 0x100 + data[start + 11]
            }
            &&& properties[at].kind == 0x6176_3143 ==> {
                &&& flags / 64 % 2 == 0 ==> header.depth == 8
                &&& flags / 64 % 2 == 1 && flags / 32 % 2 == 0 ==> header.depth == 10
                &&& flags / 64 % 2 == 1 && flags / 32 % 2 == 1 ==> header.depth == 12
                &&& header.monochrome == (flags / 16 % 2 == 1)
                &&& header.chroma == flags / 8 % 2 + flags / 4 % 2
                &&& header.chroma_position == flags % 4
            }
        }),
        header.depth == 8 || header.depth == 10 || header.depth == 12,
        header.chroma <= 2,
{
    lemma_stated(data, properties, at);
}

/// The colour of an avif is the code points its last colour box with code points
/// states, and none where no box has any; it has a profile where one of its colour
/// boxes holds one.
pub proof fn a_header_has_the_colour_its_boxes_state(
    data: Seq<u8>,
    properties: Seq<BoxSpan>,
    header: AvifHeader,
    at: int,
)
    requires
        meta::spans_lie_in(properties, data),
        header_of(data, properties) == Some(header),
    ensures
        0 <= at < properties.len() && states_codes(data, properties[at]) && (forall|later: int|
            at < later < properties.len() ==> !states_codes(data, #[trigger] properties[later]))
            ==> {
            let start = properties[at].start as int;
            header.cicp == Some(
                Cicp {
                    primaries: data[start + 5],
                    transfer: data[start + 7],
                    matrix: data[start + 9],
                    full_range: data[start + 10] >= 0x80,
                },
            )
        },
        (forall|other: int|
            0 <= other < properties.len() ==> !states_codes(data, #[trigger] properties[other]))
            ==> header.cicp is None,
        0 <= at < properties.len() && holds_profile(data, properties[at])
            ==> header.has_icc_profile,
        (forall|other: int|
            0 <= other < properties.len() ==> !holds_profile(data, #[trigger] properties[other]))
            ==> !header.has_icc_profile,
{
    lemma_nothing_stated(data, properties);
    if 0 <= at < properties.len() {
        lemma_stated(data, properties, at);
    }
}

proof fn lemma_long_enough(data: Seq<u8>, properties: Seq<BoxSpan>)
    requires
        meta::spans_lie_in(properties, data),
        forall|at: int|
            0 <= at < properties.len() ==> {
                let property = #[trigger] properties[at];
                &&& property.kind == 0x6973_7065 ==> property.end - property.start >= 12
                &&& property.kind == 0x6176_3143 ==> property.end - property.start >= 3
                &&& property.kind == 0x636f_6c72 ==> property.end - property.start >= 4
            },
    ensures
        stated_properties(data, properties) is Some,
    decreases properties.len(),
{
    if properties.len() > 0 {
        let shorter = properties.drop_last();
        assert(properties[properties.len() - 1] == properties.last());
        assert forall|at: int| 0 <= at < shorter.len() implies #[trigger] shorter[at]
            == properties[at] by {}
        lemma_long_enough(data, shorter);
    }
}

/// An avif that states a size and a coding record, with no box cut short, has a
/// header.
pub proof fn a_size_and_a_coding_record_are_enough(
    data: Seq<u8>,
    properties: Seq<BoxSpan>,
    size: int,
    coding: int,
)
    requires
        meta::spans_lie_in(properties, data),
        forall|at: int|
            0 <= at < properties.len() ==> {
                let property = #[trigger] properties[at];
                &&& property.kind == 0x6973_7065 ==> property.end - property.start >= 12
                &&& property.kind == 0x6176_3143 ==> property.end - property.start >= 3
                &&& property.kind == 0x636f_6c72 ==> property.end - property.start >= 4
            },
        0 <= size < properties.len(),
        properties[size].kind == 0x6973_7065,
        0 <= coding < properties.len(),
        properties[coding].kind == 0x6176_3143,
    ensures
        header_of(data, properties) is Some,
{
    lemma_long_enough(data, properties);
    lemma_holds_both(data, properties, size, coding);
}

proof fn lemma_holds_both(data: Seq<u8>, properties: Seq<BoxSpan>, size: int, coding: int)
    requires
        stated_properties(data, properties) is Some,
    ensures
        0 <= size < properties.len() && properties[size].kind == 0x6973_7065
            ==> stated_properties(data, properties)->Some_0.size is Some,
        0 <= coding < properties.len() && properties[coding].kind == 0x6176_3143
            ==> stated_properties(data, properties)->Some_0.flags is Some,
    decreases properties.len(),
{
    if properties.len() > 0 {
        lemma_holds_both(data, properties.drop_last(), size, coding);
    }
}

/// An avif is handed out at the depth it is coded in: a monochrome picture in gray,
/// a picture that states a matrix in yuv where there is a yuv format for its layout
/// and depth, and every other in r,g,b. Everything else is as the container says.
pub proof fn an_avif_is_handed_out_at_its_own_depth(
    info: ImageInfo,
    path: Seq<char>,
    header: AvifHeader,
    has_alpha: bool,
    cicp: Option<Cicp>,
)
    requires
        describes(info, path, header, has_alpha, cicp),
        header.depth == 8 || header.depth == 10 || header.depth == 12,
        header.chroma <= 2,
    ensures
        info.path@ == path,
        info.width == header.width,
        info.height == header.height,
        info.cicp == cicp,
        info.has_icc_profile == header.has_icc_profile,
        info.orientation == Orientation::NoTransforms,
        !info.transform.transpose && !info.transform.flip_x && !info.transform.flip_y,
        info.format.bits() == header.depth,
        header.monochrome ==> info.format.family() == ColorFamily::Gray && info.chroma_location
            is None,
        !header.monochrome ==> {
            let named = cicp matches Some(stated) && (stated.matrix == 1 || 4 <= stated.matrix
                <= 10 || 12 <= stated.matrix <= 14);
            let yuv = named && (header.depth != 12 || header.chroma == 0);
            &&& yuv ==> {
                &&& info.format.family() == ColorFamily::YUV
                &&& header.chroma == 2 ==> info.format.subsampling() == (1int, 1int)
                &&& header.chroma == 1 ==> info.format.subsampling() == (1int, 0int)
                &&& header.chroma == 0 ==> info.format.subsampling() == (0int, 0int)
                &&& info.color_type == (if header.depth == 8 {
                    if has_alpha {
                        ColorType::Rgba8
                    } else {
                        ColorType::Rgb8
                    }
                } else {
                    if has_alpha {
                        ColorType::Rgba16
                    } else {
                        ColorType::Rgb16
                    }
                })
            }
            &&& !yuv ==> info.format.family() == ColorFamily::RGB
            &&& info.chroma_location == (if header.chroma_position == 1 {
                Some(color::ChromaLocation::Left)
            } else if header.chroma_position == 2 {
                Some(color::ChromaLocation::TopLeft)
            } else {
                None
            })
        },
        info.format.family() != ColorFamily::YUV ==> info.color_type == (if header.depth == 8 {
            ColorType::Rgba8
        } else {
            ColorType::Rgba16
        }),
{
}

/// The code points of a colour box come before those of the coded picture, which
/// count only where the boxes state none.
pub proof fn the_boxes_state_the_colour_before_the_picture_does(
    header: AvifHeader,
    payload: Option<Seq<u8>>,
)
    ensures
        header.cicp is Some ==> stated_color(header, payload) == header.cicp,
        header.cicp is None && payload is None ==> stated_color(header, payload) is None,
        header.cicp is None && payload is Some ==> stated_color(header, payload)
            == av1::payload_color(payload->Some_0),
{
}

/// A file is taken for an avif by its brands: its first box has to be the file type,
/// and the major brand or one of the compatible ones, four bytes each behind the minor
/// version, has to be `avif` or `avis`.
pub proof fn an_avif_is_told_by_its_brands(data: Seq<u8>, index: int)
    requires
        data.len() <= usize::MAX,
    ensures
        branded(data) ==> data.len() >= 16 && data[4] == 0x66 && data[5] == 0x74 && data[6] == 0x79
            && data[7] == 0x70,
        match boxes::boxes_from(data, 0, data.len() as int) {
            Some(listed) => {
                let first = listed[0];
                let payload = boxes::payload(data, first);
                &&& branded(data) ==> listed.len() > 0 && first.kind == 0x6674_7970 && payload.len()
                    >= 8
                &&& listed.len() > 0 && first.kind == 0x6674_7970 && payload.len() >= 8 && (
                bytes::be32(payload, 0) == 0x6176_6966 || bytes::be32(payload, 0) == 0x6176_6973)
                    ==> branded(data)
                &&& listed.len() > 0 && first.kind == 0x6674_7970 && 0 <= index && 12 + 4 * index
                    <= payload.len() && (bytes::be32(payload, 8 + 4 * index) == 0x6176_6966
                    || bytes::be32(payload, 8 + 4 * index) == 0x6176_6973) ==> branded(data)
                &&& branded(data) && bytes::be32(payload, 0) != 0x6176_6966 && bytes::be32(
                    payload,
                    0,
                ) != 0x6176_6973 ==> exists|i: int|
                    0 <= i && 12 + 4 * i <= payload.len() && (#[trigger] bytes::be32(
                        payload,
                        8 + 4 * i,
                    ) == 0x6176_6966 || bytes::be32(payload, 8 + 4 * i) == 0x6176_6973)
            },
            None => !branded(data),
        },
{
    match boxes::boxes_from(data, 0, data.len() as int) {
        Some(listed) => {
            if listed.len() > 0 {
                boxes::the_boxes_of_a_container_follow_one_another(
                    data,
                    0,
                    data.len() as int,
                    0,
                );
            }
            if 0 <= index {
                let payload = boxes::payload(data, listed[0]);
                assert(bytes::be32(payload, 8 + 4 * index) == bytes::be32(payload, 8 + 4 * index));
            }
        },
        None => {},
    }
}

/// An avif is probed from what its boxes say of the primary item, and has an alpha
/// channel where they hold one. Without a list of properties, a size or a coding record
/// it is not probed.
pub proof fn an_avif_is_probed_from_its_primary_item(data: Seq<u8>)
    ensures
        match probe_of(data) {
            Some((header, has_alpha, boxes)) => {
                &&& meta::meta_of(data) == Some(boxes)
                &&& boxes.primary_list() matches Some(properties) && header_of(data, properties)
                    == Some(header)
                &&& has_alpha == boxes.alpha()
            },
            None => match meta::meta_of(data) {
                Some(boxes) => match boxes.primary_list() {
                    Some(properties) => header_of(data, properties) is None,
                    None => true,
                },
                None => true,
            },
        },
{
}

/// The format of a file another decoder describes is corrected only from colour to the
/// gray its single plane is, at the depth it is coded in.
pub proof fn only_a_single_plane_is_corrected_to_gray(data: Seq<u8>, color_type: ColorType)
    requires
        match probe_of(data) {
            Some((header, _, _)) => header.depth == 8 || header.depth == 10 || header.depth == 12,
            None => true,
        },
    ensures
        match (monochrome_format(data), probe_of(data)) {
            (Some(format), Some((header, _, _))) => {
                &&& header.monochrome
                &&& format.family() == ColorFamily::Gray
                &&& format.bits() == header.depth
            },
            (None, Some((header, _, _))) => !header.monochrome,
            (None, None) => true,
            (Some(_), None) => false,
        },
        may_correct(color_type) == (match color_type {
            ColorType::Rgb8
            | ColorType::Rgba8
            | ColorType::Rgb16
            | ColorType::Rgba16
            | ColorType::Rgb32F
            | ColorType::Rgba32F => true,
            _ => false,
        }),
{
}

} // verus!
