//! What a JPEG 2000 file says of itself.
//!
//! JPEG 2000 has two useful forms: a bare codestream (`.j2k`/`.j2c`) and a
//! JP2-family box container (`.jp2`, `.jpf`, and `.jpx`). The SIZ and JP2 header
//! records are read directly during probing, and OpenJPEG is only entered when a
//! frame is requested.
//!
//! JPEG 2000 has no alpha convention this source can preserve. One or three
//! components are accepted; a two-component gray-plus-alpha image and images
//! with more than three components are rejected rather than silently losing a
//! channel.

use vstd::prelude::*;

use vstd::slice::slice_subrange;

use crate::bytes;
use crate::bytes::{get_be16, get_be32, get_be64};
use crate::color::{
    Cicp, ColorPrimaries, MatrixCoefficients, TransferCharacteristics, UNSPECIFIED,
};
use crate::decoder;
use crate::decoder::{image_error, ImageInfo};
use crate::error::{self, ImgSeqError};
use crate::frame::ColorFamily;
use crate::image_types::{ColorType, Orientation};
use crate::pixel::{PixelFormat, Transform};
use crate::text;
use crate::text::{decimal, path_has_extension};

verus! {

/// The kind `jp2h`.
pub const JP2H: u32 = 0x6a70_3268;

/// The kind `ihdr`.
pub const IHDR: u32 = 0x6968_6472;

/// The kind `colr`.
pub const COLR: u32 = 0x636f_6c72;

/// The kind `jp2c`.
pub const JP2C: u32 = 0x6a70_3263;

/// The colour a JP2 file enumerates.
#[derive(Clone, Copy, Debug, PartialEq, Eq, Structural)]
pub enum EnumeratedColor {
    Srgb,
    Gray,
    Sycc,
    Other,
    Unspecified,
}

/// What a codestream states of one component.
#[derive(Clone, Copy, Debug, PartialEq, Eq, Structural)]
pub struct ComponentHeader {
    pub precision: u32,
    pub signed: bool,
    pub dx: u8,
    pub dy: u8,
}

/// What a file states of its picture.
#[derive(Debug)]
pub struct Header {
    pub width: u32,
    pub height: u32,
    pub components: Vec<ComponentHeader>,
    pub color: EnumeratedColor,
    pub has_icc_profile: bool,
}

/// The model of a [`Header`].
pub struct HeaderView {
    pub width: u32,
    pub height: u32,
    pub components: Seq<ComponentHeader>,
    pub color: EnumeratedColor,
    pub has_icc_profile: bool,
}

impl View for Header {
    type V = HeaderView;

    open spec fn view(&self) -> HeaderView {
        HeaderView {
            width: self.width,
            height: self.height,
            components: self.components@,
            color: self.color,
            has_icc_profile: self.has_icc_profile,
        }
    }
}

/// What the SIZ marker of a codestream states.
#[derive(Debug)]
pub struct SizHeader {
    pub width: u32,
    pub height: u32,
    pub components: Vec<ComponentHeader>,
}

/// The model of a [`SizHeader`].
pub struct SizView {
    pub width: u32,
    pub height: u32,
    pub components: Seq<ComponentHeader>,
}

impl View for SizHeader {
    type V = SizView;

    open spec fn view(&self) -> SizView {
        SizView { width: self.width, height: self.height, components: self.components@ }
    }
}

/// What an `ihdr` box states: the depth is there when every component has the
/// same one.
#[derive(Clone, Copy, Debug, PartialEq, Eq, Structural)]
pub struct ImageHeader {
    pub width: u32,
    pub height: u32,
    pub components: u16,
    pub depth: Option<u32>,
}

/// What the boxes of a JP2 file have stated so far.
#[derive(Debug)]
pub struct Jp2State {
    pub ihdr: Option<ImageHeader>,
    pub siz: Option<SizHeader>,
    pub color: EnumeratedColor,
    pub has_icc_profile: bool,
}

/// The model of a [`Jp2State`].
pub struct Jp2View {
    pub ihdr: Option<ImageHeader>,
    pub siz: Option<SizView>,
    pub color: EnumeratedColor,
    pub has_icc_profile: bool,
}

impl View for Jp2State {
    type V = Jp2View;

    open spec fn view(&self) -> Jp2View {
        Jp2View {
            ihdr: self.ihdr,
            siz: match self.siz {
                Some(siz) => Some(siz@),
                None => None,
            },
            color: self.color,
            has_icc_profile: self.has_icc_profile,
        }
    }
}

impl Jp2View {
    /// What is stated before any box is read.
    pub open spec fn nothing() -> Jp2View {
        Jp2View {
            ihdr: None,
            siz: None,
            color: EnumeratedColor::Unspecified,
            has_icc_profile: false,
        }
    }
}

/// Whether the extension of `path` is one whose contents are JPEG 2000.
pub open spec fn jp2_path(path: Seq<char>) -> bool {
    ||| text::has_extension(path, "jp2"@)
    ||| text::has_extension(path, "j2k"@)
    ||| text::has_extension(path, "jpf"@)
    ||| text::has_extension(path, "jpx"@)
    ||| text::has_extension(path, "j2c"@)
}

/// Whether a path has one of the extensions of JPEG 2000, in any case.
pub fn has_extension(path: &str) -> (known: bool)
    ensures
        text::plain_path(path@) ==> known == jp2_path(path@),
{
    proof {
        reveal_strlit("jp2");
        reveal_strlit("j2k");
        reveal_strlit("jpf");
        reveal_strlit("jpx");
        reveal_strlit("j2c");
    }
    path_has_extension(path, "jp2") || path_has_extension(path, "j2k")
        || path_has_extension(path, "jpf") || path_has_extension(path, "jpx")
        || path_has_extension(path, "j2c")
}

/// Whether a path has a JPEG 2000 extension and should be validated by this
/// module before the general image decoder gets a chance to identify it.
pub fn owns(path: &str) -> (owned: bool)
    ensures
        text::plain_path(path@) ==> owned == jp2_path(path@),
{
    has_extension(path)
}

/// Whether this module decodes the probed image.
pub fn handles(info: &ImageInfo) -> (handled: bool)
    ensures
        text::plain_path(info.path@) ==> handled == jp2_path(info.path@),
{
    has_extension(info.path.as_str())
}

/// What a file that cannot be identified is refused with.
pub open spec fn unidentified(path: Seq<char>, detail: Seq<char>) -> Seq<char> {
    decoder::image_error_text("identify"@, path, detail)
}

/// What a file with an unsupported number of components is refused with.
pub open spec fn component_count_text(path: Seq<char>, count: nat) -> Seq<char> {
    "image '"@ + path + "' has "@ + text::decimal_text(count)
        + " JPEG 2000 components; only gray and RGB are supported"@
}

fn component_count_error(path: &str, count: u64) -> (error: ImgSeqError)
    ensures
        error@ == error::error_text(component_count_text(path@, count as nat)),
{
    let mut message = String::from_str("image '");
    message.append(path);
    message.append("' has ");
    let digits = decimal(count);
    message.append(digits.as_str());
    message.append(" JPEG 2000 components; only gray and RGB are supported");
    ImgSeqError::new(message)
}

/// Where the first SIZ marker at or after `at` is.
pub open spec fn marker_from(data: Seq<u8>, at: int) -> Option<int>
    decreases data.len() - at,
{
    if at + 2 > data.len() {
        None
    } else if data[at] == 0xff && data[at + 1] == 0x51 {
        Some(at)
    } else {
        marker_from(data, at + 1)
    }
}

/// What the three bytes at `at` state of a component.
pub open spec fn component_at(data: Seq<u8>, at: int) -> ComponentHeader {
    ComponentHeader {
        precision: (data[at] as int % 0x80 + 1) as u32,
        signed: data[at] >= 0x80,
        dx: data[at + 1],
        dy: data[at + 2],
    }
}

/// What the component list at `at` states of `count` components.
pub open spec fn components_at(data: Seq<u8>, at: int, count: int) -> Seq<ComponentHeader> {
    Seq::new(count as nat, |index: int| component_at(data, at + index * 3))
}

/// What the SIZ marker at `marker` states, or why it states nothing.
pub open spec fn siz_at(data: Seq<u8>, marker: int, path: Seq<char>) -> Result<
    SizView,
    Seq<char>,
> {
    let length = bytes::be16(data, marker + 2);
    let x_size = bytes::be32(data, marker + 6);
    let y_size = bytes::be32(data, marker + 10);
    let x_offset = bytes::be32(data, marker + 14);
    let y_offset = bytes::be32(data, marker + 18);
    let count = bytes::be16(data, marker + 38);
    let components = components_at(data, marker + 40, count);
    if data.len() - marker < 40 {
        Err(unidentified(path, "the JPEG 2000 SIZ marker is truncated"@))
    } else if length < 38 || marker + 2 + length > data.len() {
        Err(unidentified(path, "the JPEG 2000 SIZ marker has an invalid length"@))
    } else if x_size <= x_offset || y_size <= y_offset {
        Err(unidentified(path, "the JPEG 2000 SIZ dimensions are invalid"@))
    } else if count == 0 || count > 3 {
        Err(component_count_text(path, count as nat))
    } else if 40 + count * 3 > 2 + length {
        Err(unidentified(path, "the JPEG 2000 component list is truncated"@))
    } else if exists|index: int|
        0 <= index < components.len() && ((#[trigger] components[index]).dx == 0
            || components[index].dy == 0) {
        Err(unidentified(path, "the JPEG 2000 component sampling is invalid"@))
    } else {
        Ok(
            SizView {
                width: (x_size - x_offset) as u32,
                height: (y_size - y_offset) as u32,
                components,
            },
        )
    }
}

/// What the first SIZ marker of a codestream states, or why it states nothing.
pub open spec fn siz_of(data: Seq<u8>, path: Seq<char>) -> Result<SizView, Seq<char>> {
    match marker_from(data, 0) {
        Some(marker) => siz_at(data, marker, path),
        None => Err(unidentified(path, "the JPEG 2000 file has no SIZ marker"@)),
    }
}

/// Finds the first SIZ marker.
fn find_marker(data: &[u8]) -> (marker: Option<usize>)
    ensures
        match marker {
            Some(marker) => {
                &&& marker_from(data@, 0) == Some(marker as int)
                &&& marker + 2 <= data@.len()
            },
            None => marker_from(data@, 0) is None,
        },
{
    let len: usize = data.len();
    let mut at: usize = 0;
    while at < len && len - at >= 2
        invariant
            at <= len,
            len == data@.len(),
            marker_from(data@, 0) == marker_from(data@, at as int),
        decreases len - at,
    {
        if data[at] == 0xff && data[at + 1] == 0x51 {
            return Some(at);
        }
        at = at + 1;
    }
    None
}

/// Reads the component list of a SIZ marker.
fn read_components(data: &[u8], start: usize, count: usize) -> (components: Vec<ComponentHeader>)
    requires
        start + count * 3 <= data@.len(),
        count <= 3,
    ensures
        components@ == components_at(data@, start as int, count as int),
{
    let len: usize = data.len();
    let mut components: Vec<ComponentHeader> = Vec::new();
    let mut index: usize = 0;
    while index < count
        invariant
            index <= count <= 3,
            start + count * 3 <= len,
            len == data@.len(),
            components@ == components_at(data@, start as int, index as int),
        decreases count - index,
    {
        let at: usize = start + index * 3;
        let size: u8 = data[at];
        components.push(
            ComponentHeader {
                precision: (size % 0x80) as u32 + 1,
                signed: size >= 0x80,
                dx: data[at + 1],
                dy: data[at + 2],
            },
        );
        index = index + 1;
        assert(components@ =~= components_at(data@, start as int, index as int));
    }
    components
}

/// Whether every component is sampled at least once in each direction.
fn sampled(components: &Vec<ComponentHeader>) -> (sound: bool)
    ensures
        sound == !exists|index: int|
            0 <= index < components@.len() && ((#[trigger] components@[index]).dx == 0
                || components@[index].dy == 0),
{
    let mut index: usize = 0;
    while index < components.len()
        invariant
            index <= components@.len(),
            forall|before: int|
                0 <= before < index ==> (#[trigger] components@[before]).dx != 0
                    && components@[before].dy != 0,
        decreases components@.len() - index,
    {
        if components[index].dx == 0 || components[index].dy == 0 {
            return false;
        }
        index = index + 1;
    }
    true
}

/// Reads the SIZ marker of a codestream.
pub fn parse_siz(data: &[u8], path: &str) -> (siz: Result<SizHeader, ImgSeqError>)
    ensures
        match (siz, siz_of(data@, path@)) {
            (Ok(siz), Ok(expected)) => siz@ == expected,
            (Err(error), Err(message)) => error@ == error::error_text(message),
            _ => false,
        },
{
    let marker: usize = match find_marker(data) {
        Some(marker) => marker,
        None => {
            return Err(image_error("identify", path, "the JPEG 2000 file has no SIZ marker"));
        },
    };
    if data.len() - marker < 40 {
        return Err(image_error("identify", path, "the JPEG 2000 SIZ marker is truncated"));
    }
    let (length, component_count) = match (
        get_be16(data, marker + 2),
        get_be16(data, marker + 38),
    ) {
        (Some(length), Some(count)) => (length as usize, count),
        _ => (0, 0),
    };
    if length < 38 || length > data.len() - marker - 2 {
        return Err(image_error("identify", path, "the JPEG 2000 SIZ marker has an invalid length"));
    }
    let (x_size, y_size) = match (get_be32(data, marker + 6), get_be32(data, marker + 10)) {
        (Some(x_size), Some(y_size)) => (x_size, y_size),
        _ => (0, 0),
    };
    let (x_offset, y_offset) = match (get_be32(data, marker + 14), get_be32(data, marker + 18)) {
        (Some(x_offset), Some(y_offset)) => (x_offset, y_offset),
        _ => (0, 0),
    };
    if x_size <= x_offset || y_size <= y_offset {
        return Err(image_error("identify", path, "the JPEG 2000 SIZ dimensions are invalid"));
    }
    if component_count == 0 || component_count > 3 {
        return Err(component_count_error(path, component_count as u64));
    }
    let count: usize = component_count as usize;
    if 40 + count * 3 > 2 + length {
        return Err(image_error("identify", path, "the JPEG 2000 component list is truncated"));
    }
    let components = read_components(data, marker + 40, count);
    if !sampled(&components) {
        return Err(image_error("identify", path, "the JPEG 2000 component sampling is invalid"));
    }
    Ok(SizHeader { width: x_size - x_offset, height: y_size - y_offset, components })
}

/// What an `ihdr` box adds, or why it adds nothing. A depth byte of all ones
/// says that the components have their own.
pub open spec fn with_ihdr(payload: Seq<u8>, state: Jp2View, path: Seq<char>) -> Result<
    Jp2View,
    Seq<char>,
> {
    if payload.len() < 14 {
        Err(unidentified(path, "the JP2 ihdr box is truncated"@))
    } else {
        let depth = if payload[10] == 0xff {
            None
        } else {
            Some((payload[10] as int % 0x80 + 1) as u32)
        };
        let ihdr = ImageHeader {
            width: bytes::be32(payload, 4) as u32,
            height: bytes::be32(payload, 0) as u32,
            components: bytes::be16(payload, 8) as u16,
            depth,
        };
        Ok(Jp2View { ihdr: Some(ihdr), ..state })
    }
}

/// Whether `result` is the state `expected` names, or fails the way it does with
/// the state as it was.
pub open spec fn reaches(
    result: Result<(), ImgSeqError>,
    before: Jp2View,
    after: Jp2View,
    expected: Result<Jp2View, Seq<char>>,
) -> bool {
    match (result, expected) {
        (Ok(_), Ok(view)) => after == view,
        (Err(error), Err(message)) => error@ == error::error_text(message) && after == before,
        _ => false,
    }
}

/// Reads an `ihdr` box.
pub fn parse_ihdr(payload: &[u8], state: &mut Jp2State, path: &str) -> (read: Result<
    (),
    ImgSeqError,
>)
    ensures
        reaches(read, old(state)@, final(state)@, with_ihdr(payload@, old(state)@, path@)),
{
    if payload.len() < 14 {
        return Err(image_error("identify", path, "the JP2 ihdr box is truncated"));
    }
    let (height, width) = match (get_be32(payload, 0), get_be32(payload, 4)) {
        (Some(height), Some(width)) => (height, width),
        _ => (0, 0),
    };
    let components: u16 = match get_be16(payload, 8) {
        Some(components) => components,
        None => 0,
    };
    let depth: Option<u32> = match payload[10] {
        0xff => None,
        value => Some((value % 0x80) as u32 + 1),
    };
    state.ihdr = Some(ImageHeader { width, height, components, depth });
    Ok(())
}

/// What the enumerated colour number of a `colr` box names.
pub open spec fn enumerated(number: int) -> EnumeratedColor {
    if number == 16 {
        EnumeratedColor::Srgb
    } else if number == 17 {
        EnumeratedColor::Gray
    } else if number == 18 {
        EnumeratedColor::Sycc
    } else {
        EnumeratedColor::Other
    }
}

/// What a `colr` box adds, or why it adds nothing.
pub open spec fn with_colr(payload: Seq<u8>, state: Jp2View, path: Seq<char>) -> Result<
    Jp2View,
    Seq<char>,
> {
    if payload.len() < 3 {
        Err(unidentified(path, "the JP2 colr box is truncated"@))
    } else if payload[0] == 1 && payload.len() >= 7 {
        Ok(Jp2View { color: enumerated(bytes::be32(payload, 3)), ..state })
    } else if payload[0] == 2 {
        Ok(Jp2View { has_icc_profile: true, ..state })
    } else {
        Ok(Jp2View { color: EnumeratedColor::Unspecified, ..state })
    }
}

/// Reads a `colr` box.
pub fn parse_colr(payload: &[u8], state: &mut Jp2State, path: &str) -> (read: Result<
    (),
    ImgSeqError,
>)
    ensures
        reaches(read, old(state)@, final(state)@, with_colr(payload@, old(state)@, path@)),
{
    if payload.len() < 3 {
        return Err(image_error("identify", path, "the JP2 colr box is truncated"));
    }
    match (payload[0], get_be32(payload, 3)) {
        (1, Some(number)) => {
            state.color = match number {
                16 => EnumeratedColor::Srgb,
                17 => EnumeratedColor::Gray,
                18 => EnumeratedColor::Sycc,
                _ => EnumeratedColor::Other,
            };
        },
        (2, _) => {
            state.has_icc_profile = true;
        },
        _ => {
            state.color = EnumeratedColor::Unspecified;
        },
    }
    Ok(())
}

/// What a codestream box adds: the first one states the SIZ marker.
pub open spec fn with_codestream(payload: Seq<u8>, state: Jp2View, path: Seq<char>) -> Result<
    Jp2View,
    Seq<char>,
> {
    if state.siz is Some {
        Ok(state)
    } else {
        match siz_of(payload, path) {
            Ok(siz) => Ok(Jp2View { siz: Some(siz), ..state }),
            Err(message) => Err(message),
        }
    }
}

/// Where a box at `at` has its payload and its end, or why it has none. A size
/// of zero reaches to the end, and a size of one says that a longer one follows
/// the kind.
pub open spec fn box_at(data: Seq<u8>, at: int, end: int, path: Seq<char>) -> Result<
    (int, int),
    Seq<char>,
> {
    if end - at < 8 {
        Err(unidentified(path, "a JP2 box header is truncated"@))
    } else {
        let stated = bytes::be32(data, at);
        if stated == 1 && end - at < 16 {
            Err(unidentified(path, "a JP2 extended box header is truncated"@))
        } else if stated == 1 && bytes::be64(data, at + 8) > usize::MAX {
            Err(unidentified(path, "a JP2 box is too large"@))
        } else {
            let header: int = if stated == 1 {
                16
            } else {
                8
            };
            let length = if stated == 0 {
                end - at
            } else if stated == 1 {
                bytes::be64(data, at + 8)
            } else {
                stated
            };
            if length < header || length > end - at {
                Err(unidentified(path, "a JP2 box extends past the file"@))
            } else {
                Ok((at + header, at + length))
            }
        }
    }
}

/// What the boxes between `at` and `end` add, or why they add nothing.
pub open spec fn walked(
    data: Seq<u8>,
    at: int,
    end: int,
    state: Jp2View,
    path: Seq<char>,
) -> Result<Jp2View, Seq<char>>
    decreases
            (if at < end {
                end - at
            } else {
                0
            }),
{
    if at >= end {
        Ok(state)
    } else {
        match box_at(data, at, end, path) {
            Err(message) => Err(message),
            Ok((start, box_end)) => {
                let kind = bytes::be32(data, at + 4);
                let payload = data.subrange(start, box_end);
                let next = if kind == JP2H {
                    walked(data, start, box_end, state, path)
                } else if kind == IHDR {
                    with_ihdr(payload, state, path)
                } else if kind == COLR {
                    with_colr(payload, state, path)
                } else if kind == JP2C {
                    with_codestream(payload, state, path)
                } else {
                    Ok(state)
                };
                match next {
                    Err(message) => Err(message),
                    Ok(next) => walked(data, box_end, end, next, path),
                }
            },
        }
    }
}

/// The state the boxes between `at` and `end` leave: the one they add up to or,
/// where one of them fails, the one the boxes before it leave. Of a header box in
/// which one fails, the boxes before that one count too.
pub open spec fn left_by(
    data: Seq<u8>,
    at: int,
    end: int,
    state: Jp2View,
    path: Seq<char>,
) -> Jp2View
    decreases
            (if at < end {
                end - at
            } else {
                0
            }),
{
    if at >= end {
        state
    } else {
        match box_at(data, at, end, path) {
            Err(_) => state,
            Ok((start, box_end)) => {
                let kind = bytes::be32(data, at + 4);
                let payload = data.subrange(start, box_end);
                if kind == JP2H {
                    match walked(data, start, box_end, state, path) {
                        Err(_) => left_by(data, start, box_end, state, path),
                        Ok(next) => left_by(data, box_end, end, next, path),
                    }
                } else {
                    let next = if kind == IHDR {
                        with_ihdr(payload, state, path)
                    } else if kind == COLR {
                        with_colr(payload, state, path)
                    } else if kind == JP2C {
                        with_codestream(payload, state, path)
                    } else {
                        Ok(state)
                    };
                    match next {
                        Err(_) => state,
                        Ok(next) => left_by(data, box_end, end, next, path),
                    }
                }
            },
        }
    }
}

/// Reads where the box at `at` has its payload and its end.
fn read_box(data: &[u8], at: usize, end: usize, path: &str) -> (bounds: Result<
    (usize, usize),
    ImgSeqError,
>)
    requires
        at < end <= data@.len(),
    ensures
        match (bounds, box_at(data@, at as int, end as int, path@)) {
            (Ok((start, box_end)), Ok(expected)) => {
                &&& (start as int, box_end as int) == expected
                &&& at < start <= box_end <= end
                &&& at + 8 <= data@.len()
            },
            (Err(error), Err(message)) => error@ == error::error_text(message),
            _ => false,
        },
{
    if end - at < 8 {
        return Err(image_error("identify", path, "a JP2 box header is truncated"));
    }
    let stated: u32 = match get_be32(data, at) {
        Some(stated) => stated,
        None => 0,
    };
    let (header, length): (usize, usize) = match stated {
        0 => (8, end - at),
        1 => {
            if end - at < 16 {
                return Err(
                    image_error("identify", path, "a JP2 extended box header is truncated"),
                );
            }
            let long: u64 = match get_be64(data, at + 8) {
                Some(long) => long,
                None => 0,
            };
            if long > usize::MAX as u64 {
                return Err(image_error("identify", path, "a JP2 box is too large"));
            }
            (16, long as usize)
        },
        stated => (8, stated as usize),
    };
    if length < header || length > end - at {
        return Err(image_error("identify", path, "a JP2 box extends past the file"));
    }
    Ok((at + header, at + length))
}

/// Reads a codestream box.
fn parse_codestream(payload: &[u8], state: &mut Jp2State, path: &str) -> (read: Result<
    (),
    ImgSeqError,
>)
    ensures
        reaches(read, old(state)@, final(state)@, with_codestream(payload@, old(state)@, path@)),
{
    if state.siz.is_some() {
        return Ok(());
    }
    match parse_siz(payload, path) {
        Ok(siz) => {
            state.siz = Some(siz);
            Ok(())
        },
        Err(error) => Err(error),
    }
}

/// Reads the boxes between `offset` and `end` into `state`, up to the first one
/// that fails.
pub fn walk_boxes(data: &[u8], offset: usize, end: usize, state: &mut Jp2State, path: &str) -> (
    read: Result<(), ImgSeqError>)
    requires
        offset <= end <= data@.len(),
    ensures
        match (read, walked(data@, offset as int, end as int, old(state)@, path@)) {
            (Ok(_), Ok(expected)) => final(state)@ == expected,
            (Err(error), Err(message)) => error@ == error::error_text(message),
            _ => false,
        },
        final(state)@ == left_by(data@, offset as int, end as int, old(state)@, path@),
    decreases end - offset,
{
    let ghost before = state@;
    let mut at: usize = offset;
    while at < end
        invariant
            offset <= at <= end <= data@.len(),
            before == old(state)@,
            walked(data@, offset as int, end as int, before, path@) == walked(
                data@,
                at as int,
                end as int,
                state@,
                path@,
            ),
            left_by(data@, offset as int, end as int, before, path@) == left_by(
                data@,
                at as int,
                end as int,
                state@,
                path@,
            ),
        decreases end - at,
    {
        let (start, box_end) = match read_box(data, at, end, path) {
            Ok(bounds) => bounds,
            Err(error) => {
                return Err(error);
            },
        };
        let kind: u32 = match get_be32(data, at + 4) {
            Some(kind) => kind,
            None => 0,
        };
        let payload = slice_subrange(data, start, box_end);
        let read = match kind {
            JP2H => walk_boxes(data, start, box_end, state, path),
            IHDR => parse_ihdr(payload, state, path),
            COLR => parse_colr(payload, state, path),
            JP2C => parse_codestream(payload, state, path),
            _ => Ok(()),
        };
        match read {
            Ok(_) => {},
            Err(error) => {
                return Err(error);
            },
        }
        at = box_end;
    }
    Ok(())
}

/// The header a SIZ marker and the boxes around it state together, or why they
/// state none.
pub open spec fn header_of(
    siz: SizView,
    ihdr: Option<ImageHeader>,
    color: EnumeratedColor,
    has_icc_profile: bool,
    path: Seq<char>,
) -> Result<HeaderView, Seq<char>> {
    if ihdr matches Some(ihdr) && (ihdr.width != siz.width || ihdr.height != siz.height
        || ihdr.components != siz.components.len()) {
        Err(unidentified(path, "the JP2 ihdr and codestream dimensions disagree"@))
    } else if ihdr matches Some(ihdr) && ihdr.depth matches Some(depth) && exists|index: int|
        0 <= index < siz.components.len() && (#[trigger] siz.components[index]).precision
            != depth {
        Err(unidentified(path, "the JP2 ihdr and codestream precision disagree"@))
    } else {
        Ok(
            HeaderView {
                width: siz.width,
                height: siz.height,
                components: siz.components,
                color: if color != EnumeratedColor::Unspecified {
                    color
                } else if siz.components.len() == 1 {
                    EnumeratedColor::Gray
                } else {
                    EnumeratedColor::Other
                },
                has_icc_profile,
            },
        )
    }
}

/// Whether every component has the precision `depth`.
fn all_precise(components: &Vec<ComponentHeader>, depth: u32) -> (same: bool)
    ensures
        same == !exists|index: int|
            0 <= index < components@.len() && (#[trigger] components@[index]).precision != depth,
{
    let mut index: usize = 0;
    while index < components.len()
        invariant
            index <= components@.len(),
            forall|before: int|
                0 <= before < index ==> (#[trigger] components@[before]).precision == depth,
        decreases components@.len() - index,
    {
        if components[index].precision != depth {
            return false;
        }
        index = index + 1;
    }
    true
}

/// Holds a SIZ marker against what the boxes around it state.
pub fn header_from_siz(
    siz: SizHeader,
    ihdr: Option<ImageHeader>,
    color: EnumeratedColor,
    has_icc_profile: bool,
    path: &str,
) -> (header: Result<Header, ImgSeqError>)
    ensures
        match (header, header_of(siz@, ihdr, color, has_icc_profile, path@)) {
            (Ok(header), Ok(expected)) => header@ == expected,
            (Err(error), Err(message)) => error@ == error::error_text(message),
            _ => false,
        },
{
    if let Some(ihdr) = ihdr {
        if ihdr.width != siz.width || ihdr.height != siz.height || ihdr.components as usize
            != siz.components.len() {
            return Err(
                image_error("identify", path, "the JP2 ihdr and codestream dimensions disagree"),
            );
        }
        if let Some(depth) = ihdr.depth {
            if !all_precise(&siz.components, depth) {
                return Err(
                    image_error("identify", path, "the JP2 ihdr and codestream precision disagree"),
                );
            }
        }
    }
    let color = if color != EnumeratedColor::Unspecified {
        color
    } else if siz.components.len() == 1 {
        EnumeratedColor::Gray
    } else {
        EnumeratedColor::Other
    };
    Ok(
        Header {
            width: siz.width,
            height: siz.height,
            components: siz.components,
            color,
            has_icc_profile,
        },
    )
}

/// Whether a file starts the way a JP2 container does.
pub open spec fn starts_jp2(data: Seq<u8>) -> bool {
    &&& data.len() >= 12
    &&& bytes::be32(data, 0) == 0x0000_000c
    &&& bytes::be32(data, 4) == 0x6a50_2020
    &&& bytes::be32(data, 8) == 0x0d0a_870a
}

/// Whether a file starts the way a bare codestream does.
pub open spec fn starts_codestream(data: Seq<u8>) -> bool {
    &&& data.len() >= 4
    &&& bytes::be32(data, 0) == 0xff4f_ff51
}

/// The header a JP2 container states, or why it states none.
pub open spec fn jp2_header(data: Seq<u8>, path: Seq<char>) -> Result<HeaderView, Seq<char>> {
    match walked(data, 0, data.len() as int, Jp2View::nothing(), path) {
        Err(message) => Err(message),
        Ok(state) => match state.siz {
            None => Err(unidentified(path, "the JP2 file has no SIZ marker"@)),
            Some(siz) => header_of(siz, state.ihdr, state.color, state.has_icc_profile, path),
        },
    }
}

/// The header a file states, or why it states none.
pub open spec fn file_header(data: Seq<u8>, path: Seq<char>) -> Result<HeaderView, Seq<char>> {
    if starts_jp2(data) {
        jp2_header(data, path)
    } else if starts_codestream(data) {
        match siz_of(data, path) {
            Err(message) => Err(message),
            Ok(siz) => header_of(siz, None, EnumeratedColor::Unspecified, false, path),
        }
    } else {
        Err(
            unidentified(
                path,
                "the file starts with neither a JPEG 2000 codestream nor a JP2 signature"@,
            ),
        )
    }
}

/// Whether `result` is the header `expected` names, or fails the way it does.
pub open spec fn is_header(
    result: Result<Header, ImgSeqError>,
    expected: Result<HeaderView, Seq<char>>,
) -> bool {
    match (result, expected) {
        (Ok(header), Ok(view)) => header@ == view,
        (Err(error), Err(message)) => error@ == error::error_text(message),
        _ => false,
    }
}

/// Reads the boxes of a JP2 container.
pub fn parse_jp2(data: &[u8], path: &str) -> (header: Result<Header, ImgSeqError>)
    ensures
        is_header(header, jp2_header(data@, path@)),
{
    let mut state = Jp2State {
        ihdr: None,
        siz: None,
        color: EnumeratedColor::Unspecified,
        has_icc_profile: false,
    };
    match walk_boxes(data, 0, data.len(), &mut state, path) {
        Ok(_) => {},
        Err(error) => {
            return Err(error);
        },
    }
    match state.siz {
        Some(siz) => header_from_siz(siz, state.ihdr, state.color, state.has_icc_profile, path),
        None => Err(image_error("identify", path, "the JP2 file has no SIZ marker")),
    }
}

/// Reads what a file states of its picture.
pub fn parse_header(data: &[u8], path: &str) -> (header: Result<Header, ImgSeqError>)
    ensures
        is_header(header, file_header(data@, path@)),
{
    match (get_be32(data, 0), get_be32(data, 4), get_be32(data, 8)) {
        (Some(0x0000_000c), Some(0x6a50_2020), Some(0x0d0a_870a)) => {
            return parse_jp2(data, path);
        },
        (Some(0xff4f_ff51), _, _) => {},
        _ => {
            return Err(
                image_error(
                    "identify",
                    path,
                    "the file starts with neither a JPEG 2000 codestream nor a JP2 signature",
                ),
            );
        },
    }
    match parse_siz(data, path) {
        Ok(siz) => header_from_siz(siz, None, EnumeratedColor::Unspecified, false, path),
        Err(error) => Err(error),
    }
}

/// The yuv format three components of a sampling and a depth are handed out as.
pub open spec fn sycc_layout(components: Seq<ComponentHeader>, depth: u32) -> Option<
    PixelFormat,
> {
    if components.len() != 3 || components[0].dx != 1 || components[0].dy != 1
        || components[1].dx != components[2].dx || components[1].dy != components[2].dy {
        None
    } else {
        match (components[1].dx, components[1].dy, depth) {
            (2, 2, 8) => Some(PixelFormat::Yuv420P8),
            (2, 2, 10) => Some(PixelFormat::Yuv420P10),
            (2, 1, 8) => Some(PixelFormat::Yuv422P8),
            (2, 1, 10) => Some(PixelFormat::Yuv422P10),
            (1, 1, 8) => Some(PixelFormat::Yuv444P8),
            (1, 1, 10) => Some(PixelFormat::Yuv444P10),
            (1, 1, 12) => Some(PixelFormat::Yuv444P12),
            (1, 1, 16) => Some(PixelFormat::Yuv444P16),
            _ => None,
        }
    }
}

/// The yuv format an sYCC picture is handed out as, if there is one.
pub fn sycc_format(components: &Vec<ComponentHeader>, depth: u32) -> (format: Option<PixelFormat>)
    ensures
        format == sycc_layout(components@, depth),
{
    if components.len() != 3 {
        return None;
    }
    let luma = components[0];
    let cb = components[1];
    let cr = components[2];
    if luma.dx != 1 || luma.dy != 1 || cb.dx != cr.dx || cb.dy != cr.dy {
        return None;
    }
    match (cb.dx, cb.dy, depth) {
        (2, 2, 8) => Some(PixelFormat::Yuv420P8),
        (2, 2, 10) => Some(PixelFormat::Yuv420P10),
        (2, 1, 8) => Some(PixelFormat::Yuv422P8),
        (2, 1, 10) => Some(PixelFormat::Yuv422P10),
        (1, 1, 8) => Some(PixelFormat::Yuv444P8),
        (1, 1, 10) => Some(PixelFormat::Yuv444P10),
        (1, 1, 12) => Some(PixelFormat::Yuv444P12),
        (1, 1, 16) => Some(PixelFormat::Yuv444P16),
        _ => None,
    }
}

/// The gray or rgb color type a picture of `depth` bits is decoded into.
pub open spec fn word_type(gray: bool, depth: u32) -> ColorType {
    match (gray, depth <= 8) {
        (true, true) => ColorType::L8,
        (true, false) => ColorType::L16,
        (false, true) => ColorType::Rgb8,
        (false, false) => ColorType::Rgb16,
    }
}

/// The gray or rgb format a picture of `depth` bits is handed out as.
pub open spec fn word_format(gray: bool, depth: u32) -> PixelFormat {
    let word = match (gray, depth <= 8) {
        (true, true) => PixelFormat::Gray8,
        (true, false) => PixelFormat::Gray16,
        (false, true) => PixelFormat::Rgb8,
        (false, false) => PixelFormat::Rgb16,
    };
    word.narrowed(depth)
}

/// The precision of the first component.
pub open spec fn depth_of(header: HeaderView) -> u32 {
    if header.components.len() == 0 {
        0
    } else {
        header.components[0].precision
    }
}

/// Whether the components do not all have the one precision, unsigned.
pub open spec fn mixed_components(header: HeaderView) -> bool {
    ||| depth_of(header) == 0
    ||| exists|index: int|
        0 <= index < header.components.len() && ((#[trigger] header.components[index]).precision
            != depth_of(header) || header.components[index].signed)
}

/// Whether any component holds fewer samples than the picture.
pub open spec fn subsampled(components: Seq<ComponentHeader>) -> bool {
    exists|index: int|
        0 <= index < components.len() && ((#[trigger] components[index]).dx != 1
            || components[index].dy != 1)
}

/// What an image is refused with for `problem`.
pub open spec fn image_text(path: Seq<char>, problem: Seq<char>) -> Seq<char> {
    "image '"@ + path + problem
}

/// The color type and the format a picture is handed out as, or why it is not.
pub open spec fn handed_out(header: HeaderView, path: Seq<char>) -> Result<
    (ColorType, PixelFormat),
    Seq<char>,
> {
    let depth = depth_of(header);
    if mixed_components(header) {
        Err(
            image_text(
                path,
                "' has unsupported JPEG 2000 component precision or signed samples"@,
            ),
        )
    } else if header.components.len() == 1 {
        if header.color == EnumeratedColor::Sycc {
            Err(image_text(path, "' marks a single JPEG 2000 component as sYCC"@))
        } else {
            Ok((word_type(true, depth), word_format(true, depth)))
        }
    } else if header.components.len() == 3 {
        if header.color == EnumeratedColor::Gray {
            Err(image_text(path, "' marks three JPEG 2000 components as grayscale"@))
        } else if header.color == EnumeratedColor::Sycc {
            match sycc_layout(header.components, depth) {
                Some(format) => Ok((word_type(false, depth), format)),
                None => Ok((word_type(false, depth), word_format(false, depth))),
            }
        } else if subsampled(header.components) {
            Err(
                image_text(
                    path,
                    "' has subsampled JPEG 2000 components without an sYCC color declaration"@,
                ),
            )
        } else {
            Ok((word_type(false, depth), word_format(false, depth)))
        }
    } else {
        Err(component_count_text(path, header.components.len()))
    }
}

fn refused(path: &str, problem: &str) -> (error: ImgSeqError)
    ensures
        error@ == error::error_text(image_text(path@, problem@)),
{
    let mut message = String::from_str("image '");
    message.append(path);
    message.append(problem);
    ImgSeqError::new(message)
}

/// Whether every component is unsigned and has the precision `depth`.
fn all_unsigned(components: &Vec<ComponentHeader>, depth: u32) -> (same: bool)
    ensures
        same == !exists|index: int|
            0 <= index < components@.len() && ((#[trigger] components@[index]).precision != depth
                || components@[index].signed),
{
    let mut index: usize = 0;
    while index < components.len()
        invariant
            index <= components@.len(),
            forall|before: int|
                0 <= before < index ==> (#[trigger] components@[before]).precision == depth
                    && !components@[before].signed,
        decreases components@.len() - index,
    {
        if components[index].precision != depth || components[index].signed {
            return false;
        }
        index = index + 1;
    }
    true
}

fn any_subsampled(components: &Vec<ComponentHeader>) -> (any: bool)
    ensures
        any == subsampled(components@),
{
    let mut index: usize = 0;
    while index < components.len()
        invariant
            index <= components@.len(),
            forall|before: int|
                0 <= before < index ==> (#[trigger] components@[before]).dx == 1
                    && components@[before].dy == 1,
        decreases components@.len() - index,
    {
        if components[index].dx != 1 || components[index].dy != 1 {
            return true;
        }
        index = index + 1;
    }
    false
}

/// The gray or rgb color type and format of a depth.
fn word_output(gray: bool, depth: u32) -> (output: (ColorType, PixelFormat))
    ensures
        output == (word_type(gray, depth), word_format(gray, depth)),
{
    let (color_type, word) = match (gray, depth <= 8) {
        (true, true) => (ColorType::L8, PixelFormat::Gray8),
        (true, false) => (ColorType::L16, PixelFormat::Gray16),
        (false, true) => (ColorType::Rgb8, PixelFormat::Rgb8),
        (false, false) => (ColorType::Rgb16, PixelFormat::Rgb16),
    };
    (color_type, word.at_depth(depth))
}

/// The color type a picture is decoded into and the format it is handed out as.
pub fn output_format(header: &Header, path: &str) -> (output: Result<
    (ColorType, PixelFormat),
    ImgSeqError,
>)
    ensures
        match (output, handed_out(header@, path@)) {
            (Ok(output), Ok(expected)) => output == expected,
            (Err(error), Err(message)) => error@ == error::error_text(message),
            _ => false,
        },
{
    let depth: u32 = if header.components.len() == 0 {
        0
    } else {
        header.components[0].precision
    };
    if depth == 0 || !all_unsigned(&header.components, depth) {
        return Err(
            refused(path, "' has unsupported JPEG 2000 component precision or signed samples"),
        );
    }
    match header.components.len() {
        1 => {
            if header.color == EnumeratedColor::Sycc {
                return Err(refused(path, "' marks a single JPEG 2000 component as sYCC"));
            }
            Ok(word_output(true, depth))
        },
        3 => {
            if header.color == EnumeratedColor::Gray {
                return Err(refused(path, "' marks three JPEG 2000 components as grayscale"));
            }
            let output = word_output(false, depth);
            if header.color == EnumeratedColor::Sycc {
                return match sycc_format(&header.components, depth) {
                    Some(format) => Ok((output.0, format)),
                    None => Ok(output),
                };
            }
            if any_subsampled(&header.components) {
                return Err(
                    refused(
                        path,
                        "' has subsampled JPEG 2000 components without an sYCC color declaration",
                    ),
                );
            }
            Ok(output)
        },
        count => Err(component_count_error(path, count as u64)),
    }
}

/// The code points an enumerated colour stands for.
pub open spec fn color_of(color: EnumeratedColor) -> Option<Cicp> {
    match color {
        EnumeratedColor::Srgb => Some(
            Cicp { primaries: 1, transfer: 13, matrix: 0, full_range: true },
        ),
        EnumeratedColor::Gray => Some(
            Cicp {
                primaries: UNSPECIFIED,
                transfer: 13,
                matrix: UNSPECIFIED,
                full_range: true,
            },
        ),
        EnumeratedColor::Sycc => Some(
            Cicp { primaries: 1, transfer: 13, matrix: 6, full_range: true },
        ),
        EnumeratedColor::Other | EnumeratedColor::Unspecified => None,
    }
}

/// The colour description an enumerated colour stands for.
pub fn cicp(color: EnumeratedColor) -> (cicp: Option<Cicp>)
    ensures
        cicp == color_of(color),
{
    match color {
        EnumeratedColor::Srgb => Some(
            Cicp { primaries: 1, transfer: 13, matrix: 0, full_range: true },
        ),
        EnumeratedColor::Gray => Some(
            Cicp {
                primaries: UNSPECIFIED,
                transfer: 13,
                matrix: UNSPECIFIED,
                full_range: true,
            },
        ),
        EnumeratedColor::Sycc => Some(
            Cicp { primaries: 1, transfer: 13, matrix: 6, full_range: true },
        ),
        EnumeratedColor::Other | EnumeratedColor::Unspecified => None,
    }
}

/// What a probe of a file finds, or why it finds nothing.
pub open spec fn probed(data: Seq<u8>, path: Seq<char>) -> Result<
    (HeaderView, ColorType, PixelFormat),
    Seq<char>,
> {
    match file_header(data, path) {
        Err(message) => Err(message),
        Ok(header) => match handed_out(header, path) {
            Err(message) => Err(message),
            Ok((color_type, format)) => Ok((header, color_type, format)),
        },
    }
}

/// Whether `info` is what a probe records of a header.
pub open spec fn records(
    info: ImageInfo,
    path: Seq<char>,
    header: HeaderView,
    color_type: ColorType,
    format: PixelFormat,
) -> bool {
    &&& info.path@ == path
    &&& info.width == header.width
    &&& info.height == header.height
    &&& info.color_type == color_type
    &&& info.original_color_type@ == color_type.text()
    &&& info.has_icc_profile == header.has_icc_profile
    &&& info.icc_profile is None
    &&& info.cicp == color_of(header.color)
    &&& info.chroma_location is None
    &&& info.orientation == Orientation::NoTransforms
    &&& info.transform == Transform::unchanged()
    &&& info.format == format
}

/// Probes one JPEG 2000 image without asking OpenJPEG to decode its pixels.
pub fn image_info(path: &str, data: &[u8]) -> (info: Result<ImageInfo, ImgSeqError>)
    ensures
        match (info, probed(data@, path@)) {
            (Ok(info), Ok((header, color_type, format))) => records(
                info,
                path@,
                header,
                color_type,
                format,
            ),
            (Err(error), Err(message)) => error@ == error::error_text(message),
            _ => false,
        },
{
    let header = match parse_header(data, path) {
        Ok(header) => header,
        Err(error) => {
            return Err(error);
        },
    };
    let (color_type, format) = match output_format(&header, path) {
        Ok(output) => output,
        Err(error) => {
            return Err(error);
        },
    };
    Ok(
        ImageInfo {
            path: String::from_str(path),
            width: header.width,
            height: header.height,
            color_type,
            original_color_type: String::from_str(color_type.name()),
            has_icc_profile: header.has_icc_profile,
            icc_profile: None,
            cicp: cicp(header.color),
            chroma_location: None,
            orientation: Orientation::NoTransforms,
            transform: Transform::identity(),
            format,
        },
    )
}

proof fn lemma_first_marker(data: Seq<u8>, at: int, marker: int)
    requires
        0 <= at <= marker,
        marker + 2 <= data.len(),
        data[marker] == 0xff && data[marker + 1] == 0x51,
        forall|i: int| at <= i < marker ==> !(#[trigger] data[i] == 0xff && data[i + 1] == 0x51),
    ensures
        marker_from(data, at) == Some(marker),
    decreases marker - at,
{
    if at < marker {
        assert(!(data[at] == 0xff && data[at + 1] == 0x51));
        lemma_first_marker(data, at + 1, marker);
    }
}

/// A codestream states its picture behind the first SIZ marker. It does so just
/// when the whole marker is there, its size is more than its offset, and it lists
/// one to three components that each have a sampling. The size is what remains of
/// the stated one behind the offset, and every component has its three bytes: the
/// precision less one below the bit of a signed one, and the two samplings.
pub proof fn a_codestream_states_its_picture_behind_the_marker(
    data: Seq<u8>,
    marker: int,
    path: Seq<char>,
)
    requires
        0 <= marker,
        marker + 2 <= data.len(),
        data[marker] == 0xff && data[marker + 1] == 0x51,
        forall|i: int| 0 <= i < marker ==> !(#[trigger] data[i] == 0xff && data[i + 1] == 0x51),
    ensures
        ({
            let length = bytes::be16(data, marker + 2);
            let count = bytes::be16(data, marker + 38);
            &&& (siz_of(data, path) is Ok) == ({
                &&& marker + 40 <= data.len()
                &&& 38 <= length
                &&& marker + 2 + length <= data.len()
                &&& bytes::be32(data, marker + 14) < bytes::be32(data, marker + 6)
                &&& bytes::be32(data, marker + 18) < bytes::be32(data, marker + 10)
                &&& 1 <= count <= 3
                &&& 38 + 3 * count <= length
                &&& forall|i: int|
                    0 <= i < count ==> #[trigger] data[marker + 41 + 3 * i] != 0 && data[marker
                        + 42 + 3 * i] != 0
            })
            &&& match siz_of(data, path) {
                Ok(siz) => {
                    &&& siz.width + bytes::be32(data, marker + 14) == bytes::be32(data, marker + 6)
                    &&& siz.height + bytes::be32(data, marker + 18) == bytes::be32(
                        data,
                        marker + 10,
                    )
                    &&& siz.components.len() == count
                    &&& forall|i: int|
                        0 <= i < count ==> {
                            let component = #[trigger] siz.components[i];
                            &&& component.precision + (if component.signed {
                                127int
                            } else {
                                -1
                            }) == data[marker + 40 + 3 * i]
                            &&& 1 <= component.precision <= 128
                            &&& component.dx == data[marker + 41 + 3 * i]
                            &&& component.dy == data[marker + 42 + 3 * i]
                        }
                },
                Err(_) => true,
            }
        }),
{
    lemma_first_marker(data, 0, marker);
    let count = bytes::be16(data, marker + 38);
    let components = components_at(data, marker + 40, count);
    assert forall|i: int| 0 <= i < count implies (#[trigger] components[i]).dx == data[marker + 41
        + 3 * i] && components[i].dy == data[marker + 42 + 3 * i] by {
        assert(marker + 40 + i * 3 + 1 == marker + 41 + 3 * i);
        assert(marker + 40 + i * 3 + 2 == marker + 42 + 3 * i);
    }
    if exists|i: int|
        0 <= i < components.len() && ((#[trigger] components[i]).dx == 0 || components[i].dy == 0) {
        let i = choose|i: int|
            0 <= i < components.len() && ((#[trigger] components[i]).dx == 0 || components[i].dy
                == 0);
        assert(data[marker + 41 + 3 * i] == 0 || data[marker + 42 + 3 * i] == 0);
    } else {
        assert forall|i: int| 0 <= i < count implies #[trigger] data[marker + 41 + 3 * i] != 0
            && data[marker + 42 + 3 * i] != 0 by {
            assert(components[i].dx != 0 && components[i].dy != 0);
        }
    }
}

/// An `ihdr` box states the height before the width, then the components and the
/// depth all of them have, less one, unless the byte of it has every bit set. It
/// leaves what the other boxes state alone, and only a short box is refused.
pub proof fn an_image_header_is_its_bytes(payload: Seq<u8>, state: Jp2View, path: Seq<char>)
    ensures
        (with_ihdr(payload, state, path) is Ok) == (payload.len() >= 14),
        match with_ihdr(payload, state, path) {
            Ok(next) => {
                &&& next.ihdr matches Some(header) && header.height == bytes::be32(payload, 0)
                    && header.width == bytes::be32(payload, 4) && header.components == bytes::be16(
                    payload,
                    8,
                ) && (match header.depth {
                    None => payload[10] == 0xff,
                    Some(depth) => payload[10] != 0xff && (depth == payload[10] + 1 || depth + 0x80
                        == payload[10] + 1) && 1 <= depth <= 0x80,
                })
                &&& next.siz == state.siz
                &&& next.color == state.color
                &&& next.has_icc_profile == state.has_icc_profile
            },
            Err(_) => true,
        },
{
}

/// A `colr` box of the first method names its colour with a number, one of the
/// second holds a profile, and neither touches what the other boxes state.
pub proof fn a_colour_box_names_a_colour_or_holds_a_profile(
    payload: Seq<u8>,
    state: Jp2View,
    path: Seq<char>,
)
    ensures
        (with_colr(payload, state, path) is Ok) == (payload.len() >= 3),
        match with_colr(payload, state, path) {
            Ok(next) => {
                &&& next.ihdr == state.ihdr
                &&& next.siz == state.siz
                &&& payload[0] == 2 ==> next.has_icc_profile && next.color == state.color
                &&& payload[0] != 2 ==> next.has_icc_profile == state.has_icc_profile
                &&& payload[0] == 1 && payload.len() >= 7 ==> {
                    &&& (next.color == EnumeratedColor::Srgb) == (bytes::be32(payload, 3) == 16)
                    &&& (next.color == EnumeratedColor::Gray) == (bytes::be32(payload, 3) == 17)
                    &&& (next.color == EnumeratedColor::Sycc) == (bytes::be32(payload, 3) == 18)
                    &&& next.color != EnumeratedColor::Unspecified
                }
                &&& payload[0] != 2 && (payload[0] != 1 || payload.len() < 7) ==> next.color
                    == EnumeratedColor::Unspecified
            },
            Err(_) => true,
        },
{
}

/// Where a box ends: a size of zero reaches to the end of what holds the box, a
/// size of one is followed by a longer one behind the kind, and any other is the
/// length itself. A box that is longer than what holds it, or shorter than its own
/// header, is refused.
pub proof fn a_box_is_as_long_as_it_says(data: Seq<u8>, at: int, end: int, path: Seq<char>)
    requires
        0 <= at < end <= data.len(),
        end <= usize::MAX,
    ensures
        match box_at(data, at, end, path) {
            Ok((start, stop)) => {
                &&& start <= stop <= end
                &&& if bytes::be32(data, at) == 0 {
                    start == at + 8 && stop == end
                } else if bytes::be32(data, at) == 1 {
                    start == at + 16 && stop == at + bytes::be64(data, at + 8)
                } else {
                    start == at + 8 && stop == at + bytes::be32(data, at)
                }
            },
            Err(_) => {
                ||| end < at + 8
                ||| bytes::be32(data, at) == 1 && (end < at + 16 || bytes::be64(data, at + 8) < 16
                    || bytes::be64(data, at + 8) > end - at)
                ||| 1 < bytes::be32(data, at) < 8
                ||| bytes::be32(data, at) > end - at
            },
        },
{
}

/// The boxes of a container count in turn: the four kinds that are read add what
/// they state, those inside a `jp2h` box as if they stood in its place, and a box
/// of any other kind adds nothing.
pub proof fn a_container_is_read_box_by_box(
    data: Seq<u8>,
    at: int,
    end: int,
    state: Jp2View,
    path: Seq<char>,
)
    requires
        0 <= at < end <= data.len(),
        box_at(data, at, end, path) is Ok,
    ensures
        ({
            let (start, stop) = box_at(data, at, end, path)->Ok_0;
            let payload = data.subrange(start, stop);
            let kind = data.subrange(at + 4, at + 8);
            let next = if kind == seq![0x6au8, 0x70, 0x32, 0x68] {
                walked(data, start, stop, state, path)
            } else if kind == seq![0x69u8, 0x68, 0x64, 0x72] {
                with_ihdr(payload, state, path)
            } else if kind == seq![0x63u8, 0x6f, 0x6c, 0x72] {
                with_colr(payload, state, path)
            } else if kind == seq![0x6au8, 0x70, 0x32, 0x63] && state.siz is None {
                match siz_of(payload, path) {
                    Ok(siz) => Ok(
                        Jp2View {
                            ihdr: state.ihdr,
                            siz: Some(siz),
                            color: state.color,
                            has_icc_profile: state.has_icc_profile,
                        },
                    ),
                    Err(message) => Err(message),
                }
            } else {
                Ok(state)
            };
            match next {
                Ok(next) => walked(data, at, end, state, path) == walked(
                    data,
                    stop,
                    end,
                    next,
                    path,
                ),
                Err(message) => walked(data, at, end, state, path)
                    == Err::<Jp2View, Seq<char>>(message),
            }
        }),
        walked(data, end, end, state, path) == Ok::<Jp2View, Seq<char>>(state),
{
    let kind = data.subrange(at + 4, at + 8);
    assert(kind[0] == data[at + 4] && kind[1] == data[at + 5]);
    assert(kind[2] == data[at + 6] && kind[3] == data[at + 7]);
    lemma_kind(kind, seq![0x6au8, 0x70, 0x32, 0x68]);
    lemma_kind(kind, seq![0x69u8, 0x68, 0x64, 0x72]);
    lemma_kind(kind, seq![0x63u8, 0x6f, 0x6c, 0x72]);
    lemma_kind(kind, seq![0x6au8, 0x70, 0x32, 0x63]);
    assert(bytes::be32(kind, 0) == bytes::be32(data, at + 4));
}

proof fn lemma_kind(kind: Seq<u8>, letters: Seq<u8>)
    requires
        kind.len() == 4,
        letters.len() == 4,
    ensures
        (kind == letters) == (bytes::be32(kind, 0) == bytes::be32(letters, 0)),
{
    if bytes::be32(kind, 0) == bytes::be32(letters, 0) {
        assert(kind =~= letters);
    }
}

/// A file is told by its first bytes: the signature box of a container, or the
/// first two markers of a bare codestream, and nothing else is read.
pub proof fn a_file_is_told_by_its_first_bytes(data: Seq<u8>, path: Seq<char>)
    ensures
        starts_jp2(data) == (data.len() >= 12 && data.take(12) == seq![
            0x00u8,
            0x00,
            0x00,
            0x0c,
            0x6a,
            0x50,
            0x20,
            0x20,
            0x0d,
            0x0a,
            0x87,
            0x0a,
        ]),
        starts_codestream(data) == (data.len() >= 4 && data.take(4) == seq![
            0xffu8,
            0x4f,
            0xff,
            0x51,
        ]),
        file_header(data, path) is Ok ==> starts_jp2(data) || starts_codestream(data),
{
    if data.len() >= 4 {
        let first = data.take(4);
        let codestream = seq![0xffu8, 0x4f, 0xff, 0x51];
        lemma_kind(first, codestream);
        assert(bytes::be32(first, 0) == bytes::be32(data, 0));
    }
    if data.len() >= 12 {
        let signature = seq![
            0x00u8,
            0x00,
            0x00,
            0x0c,
            0x6a,
            0x50,
            0x20,
            0x20,
            0x0d,
            0x0a,
            0x87,
            0x0a,
        ];
        let first = data.take(12);
        assert(bytes::be32(first, 0) == bytes::be32(data, 0));
        assert(bytes::be32(first, 4) == bytes::be32(data, 4));
        assert(bytes::be32(first, 8) == bytes::be32(data, 8));
        if starts_jp2(data) {
            assert(first =~= signature);
        } else if first == signature {
            assert(bytes::be32(signature, 0) == 0x0000_000c);
            assert(bytes::be32(signature, 4) == 0x6a50_2020);
            assert(bytes::be32(signature, 8) == 0x0d0a_870a);
        }
    }
}

/// A header is what the codestream states, and an `ihdr` box may only say the same:
/// another size, another number of components or another depth is refused. The
/// colour is the enumerated one, and where there is none a single component is
/// gray.
pub proof fn a_header_agrees_with_its_codestream(
    siz: SizView,
    ihdr: Option<ImageHeader>,
    color: EnumeratedColor,
    has_icc_profile: bool,
    path: Seq<char>,
)
    ensures
        (header_of(siz, ihdr, color, has_icc_profile, path) is Ok) == (match ihdr {
            None => true,
            Some(stated) => {
                &&& stated.width == siz.width
                &&& stated.height == siz.height
                &&& stated.components == siz.components.len()
                &&& match stated.depth {
                    None => true,
                    Some(depth) => forall|i: int|
                        0 <= i < siz.components.len() ==> (#[trigger] siz.components[i]).precision
                            == depth,
                }
            },
        }),
        match header_of(siz, ihdr, color, has_icc_profile, path) {
            Ok(header) => {
                &&& header.width == siz.width
                &&& header.height == siz.height
                &&& header.components == siz.components
                &&& header.has_icc_profile == has_icc_profile
                &&& color != EnumeratedColor::Unspecified ==> header.color == color
                &&& color == EnumeratedColor::Unspecified ==> (header.color
                    == EnumeratedColor::Gray) == (siz.components.len() == 1) && header.color
                    != EnumeratedColor::Sycc && header.color != EnumeratedColor::Srgb
                    && header.color != EnumeratedColor::Unspecified
            },
            Err(_) => true,
        },
{
}

/// A picture is handed out as its components are: one as gray, three as r,g,b, and
/// three of an sYCC picture as yuv where their sampling is one a format has, with
/// the chroma planes halved the way the last two components are. The depth is the
/// precision all of them have, as far as a sample of the format can hold it.
pub proof fn a_picture_is_handed_out_as_its_components_are(header: HeaderView, path: Seq<char>)
    ensures
        match handed_out(header, path) {
            Ok((color_type, format)) => {
                let depth = header.components[0].precision as int;
                &&& depth > 0
                &&& forall|i: int|
                    0 <= i < header.components.len() ==> (#[trigger] header.components[i]).precision
                        == depth && !header.components[i].signed
                &&& !format.float()
                &&& header.components.len() == 1 || header.components.len() == 3
                &&& (format.family() == ColorFamily::Gray) == (header.components.len() == 1)
                &&& format.family() != ColorFamily::YUV ==> format.bits() == (if depth <= 8 {
                    8int
                } else if depth <= 16 {
                    depth
                } else {
                    16
                })
                &&& format.family() == ColorFamily::YUV ==> {
                    &&& header.color == EnumeratedColor::Sycc
                    &&& format.bits() == depth
                    &&& header.components[0].dx == 1 && header.components[0].dy == 1
                    &&& header.components[1].dx == header.components[2].dx
                        == format.subsampling().0 + 1
                    &&& header.components[1].dy == header.components[2].dy
                        == format.subsampling().1 + 1
                }
                &&& color_type == (match (header.components.len() == 1, depth <= 8) {
                    (true, true) => ColorType::L8,
                    (true, false) => ColorType::L16,
                    (false, true) => ColorType::Rgb8,
                    (false, false) => ColorType::Rgb16,
                })
            },
            Err(_) => true,
        },
{
}

/// Which pictures are handed out: those of one or three unsigned components of one
/// precision whose colour fits their number, and whose samplings are all one unless
/// the colour is sYCC.
pub proof fn a_picture_is_refused_for_its_components_alone(header: HeaderView, path: Seq<char>)
    ensures
        (handed_out(header, path) is Ok) == ({
            &&& header.components.len() == 1 && header.color != EnumeratedColor::Sycc
                || header.components.len() == 3 && header.color != EnumeratedColor::Gray
            &&& header.components[0].precision > 0
            &&& forall|i: int|
                0 <= i < header.components.len() ==> (#[trigger] header.components[i]).precision
                    == header.components[0].precision && !header.components[i].signed
            &&& header.components.len() == 3 && header.color != EnumeratedColor::Sycc ==> forall|
                i: int,
            |
                0 <= i < header.components.len() ==> (#[trigger] header.components[i]).dx == 1
                    && header.components[i].dy == 1
        }),
        header.components.len() == 3 && header.color == EnumeratedColor::Sycc && handed_out(
            header,
            path,
        ) is Ok ==> {
            let depth = header.components[0].precision;
            let luma = header.components[0];
            let chroma = header.components[1];
            let format = handed_out(header, path)->Ok_0.1;
            (format.family() == ColorFamily::YUV) == ({
                &&& luma.dx == 1 && luma.dy == 1
                &&& header.components[2].dx == chroma.dx && header.components[2].dy == chroma.dy
                &&& {
                    ||| chroma.dx == 1 && chroma.dy == 1 && (depth == 8 || depth == 10 || depth
                        == 12 || depth == 16)
                    ||| chroma.dx == 2 && (chroma.dy == 1 || chroma.dy == 2) && (depth == 8
                        || depth == 10)
                }
            })
        },
{
}

/// An enumerated colour has the codes of the properties it stands for: sRGB the
/// bt.709 primaries, the sRGB curve and the identity, gray the curve alone, and sYCC
/// the same primaries and curve with the bt.601 matrix. All of them are full range.
pub proof fn an_enumerated_colour_has_the_codes_it_stands_for(color: EnumeratedColor)
    ensures
        match color_of(color) {
            Some(stated) => {
                &&& color == EnumeratedColor::Srgb || color == EnumeratedColor::Gray || color
                    == EnumeratedColor::Sycc
                &&& stated.full_range
                &&& stated.transfer == TransferCharacteristics::Iec6196621.number()
                &&& stated.primaries == (if color == EnumeratedColor::Gray {
                    2
                } else {
                    ColorPrimaries::Bt709.number()
                })
                &&& stated.matrix == (if color == EnumeratedColor::Gray {
                    2
                } else if color == EnumeratedColor::Srgb {
                    MatrixCoefficients::Rgb.number()
                } else {
                    MatrixCoefficients::St170M.number()
                })
            },
            None => color == EnumeratedColor::Other || color == EnumeratedColor::Unspecified,
        },
{
}

/// A probe records what the header states and nothing of its own: the size, the
/// colour, and whether there is a profile, which is never handed out. Nothing is
/// turned.
pub proof fn a_probe_records_its_header(
    info: ImageInfo,
    path: Seq<char>,
    data: Seq<u8>,
    header: HeaderView,
    color_type: ColorType,
    format: PixelFormat,
)
    requires
        records(info, path, header, color_type, format),
        probed(data, path) == Ok::<(HeaderView, ColorType, PixelFormat), Seq<char>>(
            (header, color_type, format),
        ),
    ensures
        file_header(data, path) == Ok::<HeaderView, Seq<char>>(header),
        handed_out(header, path) == Ok::<(ColorType, PixelFormat), Seq<char>>((color_type, format)),
        info.path@ == path,
        info.width == header.width,
        info.height == header.height,
        info.format == format,
        info.color_type == color_type,
        info.original_color_type@ == color_type.text(),
        info.has_icc_profile == header.has_icc_profile,
        info.icc_profile is None,
        info.cicp == color_of(header.color),
        info.chroma_location is None,
        info.orientation == Orientation::NoTransforms,
        !info.transform.transpose && !info.transform.flip_x && !info.transform.flip_y,
{
}

/// A container is read from its first byte to its last, with nothing stated before, and
/// has to hold a codestream; a bare codestream is read as it is, with no box around it.
pub proof fn a_file_is_read_from_its_start_to_its_end(data: Seq<u8>, path: Seq<char>)
    ensures
        ({
            let nothing = Jp2View {
                ihdr: None,
                siz: None,
                color: EnumeratedColor::Unspecified,
                has_icc_profile: false,
            };
            match file_header(data, path) {
                Ok(header) => if starts_jp2(data) {
                    walked(data, 0, data.len() as int, nothing, path) matches Ok(state) && (
                    state.siz matches Some(siz) && header_of(
                        siz,
                        state.ihdr,
                        state.color,
                        state.has_icc_profile,
                        path,
                    ) == Ok::<HeaderView, Seq<char>>(header))
                } else {
                    siz_of(data, path) matches Ok(siz) && header_of(
                        siz,
                        None,
                        EnumeratedColor::Unspecified,
                        false,
                        path,
                    ) == Ok::<HeaderView, Seq<char>>(header)
                },
                Err(_) => {
                    ||| !starts_jp2(data) && !starts_codestream(data)
                    ||| starts_jp2(data) && (match walked(
                        data,
                        0,
                        data.len() as int,
                        nothing,
                        path,
                    ) {
                        Ok(state) => match state.siz {
                            Some(siz) => header_of(
                                siz,
                                state.ihdr,
                                state.color,
                                state.has_icc_profile,
                                path,
                            ) is Err,
                            None => true,
                        },
                        Err(_) => true,
                    })
                    ||| !starts_jp2(data) && (match siz_of(data, path) {
                        Ok(siz) => header_of(
                            siz,
                            None,
                            EnumeratedColor::Unspecified,
                            false,
                            path,
                        ) is Err,
                        Err(_) => true,
                    })
                },
            }
        }),
{
}

/// Boxes that can all be read leave what they add up to, and a box that cannot be told
/// from its header leaves what was stated before it.
pub proof fn the_boxes_leave_what_they_add_up_to(
    data: Seq<u8>,
    at: int,
    end: int,
    state: Jp2View,
    path: Seq<char>,
)
    ensures
        walked(data, at, end, state, path) matches Ok(next) ==> left_by(data, at, end, state, path)
            == next,
        at < end && box_at(data, at, end, path) is Err ==> left_by(data, at, end, state, path)
            == state,
    decreases
            (if at < end {
                end - at
            } else {
                0
            }),
{
    if at < end {
        match box_at(data, at, end, path) {
            Ok((start, stop)) => {
                let kind = bytes::be32(data, at + 4);
                let payload = data.subrange(start, stop);
                let next = if kind == JP2H {
                    walked(data, start, stop, state, path)
                } else if kind == IHDR {
                    with_ihdr(payload, state, path)
                } else if kind == COLR {
                    with_colr(payload, state, path)
                } else if kind == JP2C {
                    with_codestream(payload, state, path)
                } else {
                    Ok(state)
                };
                match next {
                    Ok(next) => the_boxes_leave_what_they_add_up_to(data, stop, end, next, path),
                    Err(_) => {},
                }
            },
            Err(_) => {},
        }
    }
}

/// A step that fails leaves the state as it was and says why, and one that does not
/// leaves the state it is to reach; so does a header that is read.
pub proof fn a_step_reaches_its_state_or_leaves_the_old_one(
    result: Result<(), ImgSeqError>,
    header: Result<Header, ImgSeqError>,
    before: Jp2View,
    after: Jp2View,
    expected: Result<Jp2View, Seq<char>>,
    stated: Result<HeaderView, Seq<char>>,
)
    ensures
        reaches(result, before, after, expected) ==> {
            &&& (result is Ok) == (expected is Ok)
            &&& expected matches Ok(view) ==> after == view
            &&& expected is Err ==> after == before && result->Err_0@ == error::error_text(
                expected->Err_0,
            )
        },
        is_header(header, stated) ==> {
            &&& (header is Ok) == (stated is Ok)
            &&& stated matches Ok(view) ==> header->Ok_0@ == view
            &&& stated is Err ==> header->Err_0@ == error::error_text(stated->Err_0)
        },
{
}

} // verus!
