//! JPEG 2000 decoding through the `jpeg2k` crate and its vendored OpenJPEG.

use vstd::prelude::*;

use jpeg2k::{Image, ImagePixelData};
use vstd::arithmetic::power2::{lemma2_to64, lemma_pow2_pos, pow2};

use crate::decoder;
use crate::decoder::{changed, image_error, ImageInfo, Pixels};
use crate::error::{self, ImgSeqError};
use crate::formats::jp2;
use crate::formats::jp2::{output_format, parse_header, Header};
use crate::frame::{ByteOrder, ColorFamily};
use crate::image_types::ColorType;
use crate::picture;
use crate::pixel::samples;
use crate::pixel::PixelFormat;
use crate::text;
use crate::text::decimal;

verus! {

/// The colour space OpenJPEG gives a decoded page.
#[derive(Clone, Copy, Debug, PartialEq, Eq, Structural)]
pub enum PageColor {
    Unknown,
    Unspecified,
    SRGB,
    Gray,
    SYCC,
    EYCC,
    CMYK,
}

impl PageColor {
    pub open spec fn text(self) -> Seq<char> {
        match self {
            PageColor::Unknown => "Unknown"@,
            PageColor::Unspecified => "Unspecified"@,
            PageColor::SRGB => "SRGB"@,
            PageColor::Gray => "Gray"@,
            PageColor::SYCC => "SYCC"@,
            PageColor::EYCC => "EYCC"@,
            PageColor::CMYK => "CMYK"@,
        }
    }
}

/// The size and the colour space of a decoded page.
pub struct PageView {
    pub width: u32,
    pub height: u32,
    pub space: PageColor,
}

/// One decoded component.
pub struct ComponentView {
    pub width: u32,
    pub height: u32,
    pub precision: u32,
    pub signed: bool,
    pub alpha: bool,
    pub samples: Seq<i32>,
}

/// `jpeg2k::Image`, a page OpenJPEG has decoded.
#[verifier::external_type_specification]
#[verifier::external_body]
pub struct ExImage(jpeg2k::Image);

/// The components a decoded page holds.
pub uninterp spec fn components_of(image: jpeg2k::Image) -> Seq<ComponentView>;

/// The size and the colour space a decoded page was made with.
pub uninterp spec fn page_of(image: jpeg2k::Image) -> PageView;

/// What OpenJPEG decodes a file into, or the words it refuses it with.
pub uninterp spec fn openjpeg_decoded(data: Seq<u8>) -> Result<
    (PageView, Seq<ComponentView>),
    Seq<char>,
>;

/// `jpeg2k::Image::from_bytes`: decodes a file. The page, or the words of the
/// error, depend on the bytes alone.
#[verifier::external_body]
fn open_image(data: &[u8]) -> (image: Result<jpeg2k::Image, String>)
    ensures
        match image {
            Ok(image) => openjpeg_decoded(data@) == Ok::<(PageView, Seq<ComponentView>), Seq<char>>(
                (page_of(image), components_of(image)),
            ),
            Err(message) => openjpeg_decoded(data@) == Err::<
                (PageView, Seq<ComponentView>),
                Seq<char>,
            >(message@),
        },
{
    Image::from_bytes(data).map_err(|error| error.to_string())
}

/// `jpeg2k::Image::orig_width`: the width of the page.
pub assume_specification[ jpeg2k::Image::orig_width ](image: &jpeg2k::Image) -> (width: u32)
    ensures
        width == page_of(*image).width,
;

/// `jpeg2k::Image::orig_height`: the height of the page.
pub assume_specification[ jpeg2k::Image::orig_height ](image: &jpeg2k::Image) -> (height: u32)
    ensures
        height == page_of(*image).height,
;

/// `jpeg2k::Image::num_components`: how many components the page holds.
pub assume_specification[ jpeg2k::Image::num_components ](image: &jpeg2k::Image) -> (count: u32)
    ensures
        count == components_of(*image).len(),
;

/// `jpeg2k::Image::color_space`: the colour space of the page.
#[verifier::external_body]
fn color_space(image: &jpeg2k::Image) -> (space: PageColor)
    ensures
        space == page_of(*image).space,
{
    match image.color_space() {
        jpeg2k::ColorSpace::Unknown => PageColor::Unknown,
        jpeg2k::ColorSpace::Unspecified => PageColor::Unspecified,
        jpeg2k::ColorSpace::SRGB => PageColor::SRGB,
        jpeg2k::ColorSpace::Gray => PageColor::Gray,
        jpeg2k::ColorSpace::SYCC => PageColor::SYCC,
        jpeg2k::ColorSpace::EYCC => PageColor::EYCC,
        jpeg2k::ColorSpace::CMYK => PageColor::CMYK,
    }
}

/// `jpeg2k::ImageComponent::width`: the width of one of the components.
#[verifier::external_body]
fn component_width(image: &jpeg2k::Image, index: usize) -> (width: u32)
    requires
        index < components_of(*image).len(),
    ensures
        width == components_of(*image)[index as int].width,
{
    image.components()[index].width()
}

/// `jpeg2k::ImageComponent::height`: the height of one of the components.
#[verifier::external_body]
fn component_height(image: &jpeg2k::Image, index: usize) -> (height: u32)
    requires
        index < components_of(*image).len(),
    ensures
        height == components_of(*image)[index as int].height,
{
    image.components()[index].height()
}

/// `jpeg2k::ImageComponent::precision`: the bits of the samples of one of the
/// components.
#[verifier::external_body]
fn component_precision(image: &jpeg2k::Image, index: usize) -> (precision: u32)
    requires
        index < components_of(*image).len(),
    ensures
        precision == components_of(*image)[index as int].precision,
{
    image.components()[index].precision()
}

/// `jpeg2k::ImageComponent::is_signed`: whether the samples of one of the
/// components are signed.
#[verifier::external_body]
fn component_signed(image: &jpeg2k::Image, index: usize) -> (signed: bool)
    requires
        index < components_of(*image).len(),
    ensures
        signed == components_of(*image)[index as int].signed,
{
    image.components()[index].is_signed()
}

/// An unsigned sample of `precision` bits scaled to the range of `bits` bits.
pub open spec fn scaled(sample: i32, precision: u32, bits: nat) -> int {
    let raw = if sample < 0 {
        sample + 0x1_0000_0000
    } else {
        sample as int
    };
    raw * (pow2(bits) - 1) / (pow2(precision as nat) - 1) % pow2(bits) as int
}

/// Whether a component has samples, and they can be counted and scaled.
pub open spec fn scalable(component: ComponentView) -> bool {
    &&& 1 <= component.precision <= 30
    &&& 0 < component.width
    &&& 0 < component.height
    &&& component.width * component.height <= u32::MAX
}

/// The samples of a component scaled to the range of `bits` bits.
pub open spec fn scaled_samples(component: ComponentView, bits: nat) -> Seq<int> {
    Seq::new(
        (component.width * component.height) as nat,
        |index: int| scaled(component.samples[index], component.precision, bits),
    )
}

/// `jpeg2k::ImageComponent::data_u8`: the samples of one of the components,
/// scaled to eight bits.
#[verifier::external_body]
fn scaled_bytes(image: &jpeg2k::Image, index: usize) -> (values: Vec<u8>)
    requires
        index < components_of(*image).len(),
        scalable(components_of(*image)[index as int]),
        !components_of(*image)[index as int].signed,
    ensures
        values@.map_values(|value: u8| value as int) == scaled_samples(
            components_of(*image)[index as int],
            8,
        ),
{
    image.components()[index].data_u8().collect()
}

/// `jpeg2k::ImageComponent::data_u16`: the samples of one of the components,
/// scaled to sixteen bits.
#[verifier::external_body]
fn scaled_words(image: &jpeg2k::Image, index: usize) -> (values: Vec<u16>)
    requires
        index < components_of(*image).len(),
        scalable(components_of(*image)[index as int]),
        !components_of(*image)[index as int].signed,
    ensures
        values@.map_values(|value: u16| value as int) == scaled_samples(
            components_of(*image)[index as int],
            16,
        ),
{
    image.components()[index].data_u16().collect()
}

/// Interleaved samples OpenJPEG hands over, with the layout they are in.
#[derive(Debug)]
pub enum PagePixels {
    Bytes(ColorType, Vec<u8>),
    Words(ColorType, Vec<u16>),
}

impl PagePixels {
    /// The layout of the samples.
    pub open spec fn kind(self) -> ColorType {
        match self {
            PagePixels::Bytes(kind, _) => kind,
            PagePixels::Words(kind, _) => kind,
        }
    }

    /// The samples.
    pub open spec fn values(self) -> Seq<int> {
        match self {
            PagePixels::Bytes(_, values) => values@.map_values(|value: u8| value as int),
            PagePixels::Words(_, values) => values@.map_values(|value: u16| value as int),
        }
    }
}

/// The smaller of two numbers.
pub open spec fn least(left: int, right: int) -> int {
    if left <= right {
        left
    } else {
        right
    }
}

/// The samples of three components one after the other, as far as all three go.
pub open spec fn zipped(components: Seq<ComponentView>, bits: nat) -> Seq<int> {
    let red = scaled_samples(components[0], bits);
    let green = scaled_samples(components[1], bits);
    let blue = scaled_samples(components[2], bits);
    let count = least(red.len() as int, least(green.len() as int, blue.len() as int));
    Seq::new(
        (count * 3) as nat,
        |index: int|
            if index % 3 == 0 {
                red[index / 3]
            } else if index % 3 == 1 {
                green[index / 3]
            } else {
                blue[index / 3]
            },
    )
}

/// Whether any component has more than sixteen bits.
pub open spec fn deep(components: Seq<ComponentView>) -> bool {
    exists|index: int|
        0 <= index < components.len() && (#[trigger] components[index]).precision > 16
}

/// Whether any component has more than eight bits.
pub open spec fn wide(components: Seq<ComponentView>) -> bool {
    exists|index: int|
        0 <= index < components.len() && (#[trigger] components[index]).precision > 8
}

/// Whether any component is an alpha channel.
pub open spec fn has_alpha(components: Seq<ComponentView>) -> bool {
    exists|index: int| 0 <= index < components.len() && (#[trigger] components[index]).alpha
}

/// Whether OpenJPEG interleaves the samples of a colour space.
pub open spec fn interleaves(space: PageColor) -> bool {
    space == PageColor::Unknown || space == PageColor::Unspecified || space == PageColor::SRGB
        || space == PageColor::Gray
}

/// Whether every component of a page has samples that can be counted and scaled.
pub open spec fn all_scalable(components: Seq<ComponentView>) -> bool {
    forall|index: int| 0 <= index < components.len() ==> scalable(#[trigger] components[index])
}

/// Whether every component of a page is unsigned.
pub open spec fn all_unsigned(components: Seq<ComponentView>) -> bool {
    forall|index: int| 0 <= index < components.len() ==> !(#[trigger] components[index]).signed
}

/// The interleaved samples of a page of one or three components, or the words
/// OpenJPEG refuses it with.
pub open spec fn interleaved_page(space: PageColor, components: Seq<ComponentView>) -> Result<
    (ColorType, Seq<int>),
    Seq<char>,
> {
    if !interleaves(space) {
        Err("Unsupported color space: "@ + space.text())
    } else if deep(components) || (components.len() == 3 && has_alpha(components)) {
        Err("Unsupported components"@)
    } else if components.len() == 1 {
        if wide(components) {
            Ok((ColorType::L16, scaled_samples(components[0], 16)))
        } else {
            Ok((ColorType::L8, scaled_samples(components[0], 8)))
        }
    } else {
        if wide(components) {
            Ok((ColorType::Rgb16, zipped(components, 16)))
        } else {
            Ok((ColorType::Rgb8, zipped(components, 8)))
        }
    }
}

/// `jpeg2k::Image::get_pixels` without a default for the alpha channel: the
/// samples of one or three unsigned components, interleaved. More than sixteen
/// bits, an alpha channel among three components and a colour space that is
/// neither gray nor rgb are refused.
#[verifier::external_body]
fn page_pixels(image: &jpeg2k::Image) -> (pixels: Result<PagePixels, String>)
    requires
        components_of(*image).len() == 1 || components_of(*image).len() == 3,
        all_unsigned(components_of(*image)),
        interleaves(page_of(*image).space) ==> deep(components_of(*image)) || all_scalable(
            components_of(*image),
        ),
    ensures
        match (pixels, interleaved_page(page_of(*image).space, components_of(*image))) {
            (Ok(pixels), Ok((kind, values))) => pixels.kind() == kind && pixels.values() == values
                && (pixels is Words <==> (kind == ColorType::L16 || kind == ColorType::Rgb16)),
            (Err(message), Err(expected)) => message@ == expected,
            _ => false,
        },
{
    Ok(match image.get_pixels(None).map_err(|error| error.to_string())?.data {
        ImagePixelData::L8(values) => PagePixels::Bytes(ColorType::L8, values),
        ImagePixelData::La8(values) => PagePixels::Bytes(ColorType::La8, values),
        ImagePixelData::Rgb8(values) => PagePixels::Bytes(ColorType::Rgb8, values),
        ImagePixelData::Rgba8(values) => PagePixels::Bytes(ColorType::Rgba8, values),
        ImagePixelData::L16(values) => PagePixels::Words(ColorType::L16, values),
        ImagePixelData::La16(values) => PagePixels::Words(ColorType::La16, values),
        ImagePixelData::Rgb16(values) => PagePixels::Words(ColorType::Rgb16, values),
        ImagePixelData::Rgba16(values) => PagePixels::Words(ColorType::Rgba16, values),
    })
}

/// Decodes a file with OpenJPEG.
pub fn open(data: &[u8], path: &str) -> (image: Result<jpeg2k::Image, ImgSeqError>)
    ensures
        match (image, openjpeg_decoded(data@)) {
            (Ok(image), Ok(decoded)) => decoded == (page_of(image), components_of(image)),
            (Err(error), Err(message)) => error@ == error::error_text(
                decoder::image_error_text("decode"@, path@, message),
            ),
            _ => false,
        },
{
    match open_image(data) {
        Ok(image) => Ok(image),
        Err(message) => Err(image_error("decode", path, message.as_str())),
    }
}

/// Whether a decoded component is the one the header states.
pub open spec fn as_stated(component: ComponentView, expected: jp2::ComponentHeader) -> bool {
    &&& component.precision == expected.precision
    &&& component.signed == expected.signed
    &&& component.width != 0
    &&& component.height != 0
}

/// Why a decoded page is not the one the header states, if it is not.
pub open spec fn page_problem(
    page: PageView,
    components: Seq<ComponentView>,
    header: jp2::HeaderView,
    path: Seq<char>,
) -> Option<Seq<char>> {
    if page.width != header.width || page.height != header.height || components.len()
        != header.components.len() {
        Some(
            decoder::image_error_text(
                "decode"@,
                path,
                "OpenJPEG returned dimensions or components different from the header"@,
            ),
        )
    } else if exists|index: int|
        0 <= index < components.len() && !as_stated(
            #[trigger] components[index],
            header.components[index],
        ) {
        Some(
            decoder::image_error_text(
                "decode"@,
                path,
                "OpenJPEG returned component metadata different from the header"@,
            ),
        )
    } else {
        None
    }
}

/// Holds a decoded page against the header of its file.
pub fn check_decoded_header(image: &jpeg2k::Image, header: &Header, path: &str) -> (checked: Result<
    (),
    ImgSeqError,
>)
    ensures
        match (checked, page_problem(page_of(*image), components_of(*image), header@, path@)) {
            (Ok(_), None) => true,
            (Err(error), Some(message)) => error@ == error::error_text(message),
            _ => false,
        },
{
    if image.orig_width() != header.width || image.orig_height() != header.height
        || image.num_components() as usize != header.components.len() {
        return Err(
            image_error(
                "decode",
                path,
                "OpenJPEG returned dimensions or components different from the header",
            ),
        );
    }
    let mut index: usize = 0;
    while index < header.components.len()
        invariant
            index <= header.components@.len(),
            components_of(*image).len() == header.components@.len(),
            page_of(*image).width == header.width,
            page_of(*image).height == header.height,
            forall|before: int|
                0 <= before < index ==> as_stated(
                    #[trigger] components_of(*image)[before],
                    header.components@[before],
                ),
        decreases header.components@.len() - index,
    {
        let expected = header.components[index];
        if component_precision(image, index) != expected.precision || component_signed(image, index)
            != expected.signed || component_width(image, index) == 0 || component_height(
            image,
            index,
        ) == 0 {
            assert(!as_stated(components_of(*image)[index as int], header.components@[index as int]));
            return Err(
                image_error(
                    "decode",
                    path,
                    "OpenJPEG returned component metadata different from the header",
                ),
            );
        }
        index = index + 1;
    }
    Ok(())
}

/// Sixteen bit samples as the bytes they are stored as.
pub open spec fn stored_words(values: Seq<int>, order: ByteOrder) -> Seq<u8> {
    samples::packed(
        values.len() as int,
        2,
        |index: int| samples::word_bytes(values[index], order),
    )
}

/// Stores sixteen bit samples as bytes.
pub fn u16_bytes(values: &Vec<u16>, order: ByteOrder) -> (bytes: Vec<u8>)
    ensures
        bytes@ == stored_words(values@.map_values(|value: u16| value as int), order),
{
    let ghost numbers = values@.map_values(|value: u16| value as int);
    let mut bytes: Vec<u8> = Vec::new();
    let mut index: usize = 0;
    while index < values.len()
        invariant
            index <= values@.len(),
            numbers == values@.map_values(|value: u16| value as int),
            bytes@ == stored_words(numbers.take(index as int), order),
        decreases values@.len() - index,
    {
        let value: u16 = values[index];
        let low: u8 = (value % 256) as u8;
        let high: u8 = (value / 256) as u8;
        match order {
            ByteOrder::Little => {
                bytes.push(low);
                bytes.push(high);
            },
            ByteOrder::Big => {
                bytes.push(high);
                bytes.push(low);
            },
        }
        index = index + 1;
        assert(bytes@ =~= stored_words(numbers.take(index as int), order));
    }
    assert(numbers.take(index as int) =~= numbers);
    bytes
}

/// A list of numbers with a comma between each and the next.
pub open spec fn listed(values: Seq<int>) -> Seq<char>
    decreases values.len(),
{
    if values.len() == 0 {
        Seq::empty()
    } else if values.len() == 1 {
        text::decimal_text(values[0] as nat)
    } else {
        listed(values.drop_last()) + ", "@ + text::decimal_text(values.last() as nat)
    }
}

/// What samples in another layout than the expected one are refused with.
pub open spec fn layout_text(kind: ColorType, values: Seq<int>, expected: ColorType) -> Seq<char> {
    "OpenJPEG returned "@ + kind.text() + "(["@ + listed(values) + "]), expected "@
        + expected.text()
}

/// Appends a number to a list of numbers.
fn append_number(list: String, first: bool, value: u64) -> (longer: String)
    ensures
        longer@ == (if first {
            list@ + text::decimal_text(value as nat)
        } else {
            list@ + ", "@ + text::decimal_text(value as nat)
        }),
{
    let mut longer = list;
    if !first {
        longer.append(", ");
    }
    let digits = decimal(value);
    longer.append(digits.as_str());
    longer
}

fn list_bytes(values: &Vec<u8>) -> (list: String)
    ensures
        list@ == listed(values@.map_values(|value: u8| value as int)),
{
    let ghost numbers = values@.map_values(|value: u8| value as int);
    let mut list = String::new();
    let mut index: usize = 0;
    while index < values.len()
        invariant
            index <= values@.len(),
            numbers == values@.map_values(|value: u8| value as int),
            list@ == listed(numbers.take(index as int)),
        decreases values@.len() - index,
    {
        let ghost before = numbers.take(index as int);
        list = append_number(list, index == 0, values[index] as u64);
        index = index + 1;
        assert(numbers.take(index as int).drop_last() =~= before);
        assert(index == 1 ==> list@ =~= text::decimal_text(numbers[0] as nat));
    }
    assert(numbers.take(index as int) =~= numbers);
    list
}

fn list_words(values: &Vec<u16>) -> (list: String)
    ensures
        list@ == listed(values@.map_values(|value: u16| value as int)),
{
    let ghost numbers = values@.map_values(|value: u16| value as int);
    let mut list = String::new();
    let mut index: usize = 0;
    while index < values.len()
        invariant
            index <= values@.len(),
            numbers == values@.map_values(|value: u16| value as int),
            list@ == listed(numbers.take(index as int)),
        decreases values@.len() - index,
    {
        let ghost before = numbers.take(index as int);
        list = append_number(list, index == 0, values[index] as u64);
        index = index + 1;
        assert(numbers.take(index as int).drop_last() =~= before);
        assert(index == 1 ==> list@ =~= text::decimal_text(numbers[0] as nat));
    }
    assert(numbers.take(index as int) =~= numbers);
    list
}

/// The buffer interleaved samples are written from, or why there is none: they
/// have to be in the layout `color_type` names.
pub open spec fn page_buffer(
    kind: ColorType,
    values: Seq<int>,
    words: bool,
    color_type: ColorType,
    order: ByteOrder,
) -> Result<Seq<u8>, Seq<char>> {
    let known = color_type == ColorType::L8 || color_type == ColorType::Rgb8 || color_type
        == ColorType::L16 || color_type == ColorType::Rgb16;
    if kind != color_type || !known || words != (kind == ColorType::L16 || kind
        == ColorType::Rgb16) {
        Err(layout_text(kind, values, color_type))
    } else if words {
        Ok(stored_words(values, order))
    } else {
        Ok(values.map_values(|value: int| value as u8))
    }
}

/// Takes interleaved samples as the buffer of an image of `color_type`.
pub fn take_pixels(pixels: PagePixels, color_type: ColorType, order: ByteOrder, path: &str) -> (
    buffer: Result<Vec<u8>, ImgSeqError>)
    ensures
        match (
            buffer,
            page_buffer(pixels.kind(), pixels.values(), pixels is Words, color_type, order),
        ) {
            (Ok(buffer), Ok(expected)) => buffer@ == expected,
            (Err(error), Err(message)) => error@ == error::error_text(
                decoder::image_error_text("decode"@, path@, message),
            ),
            _ => false,
        },
{
    let (kind, list) = match pixels {
        PagePixels::Bytes(kind, values) => {
            if kind == color_type && (kind == ColorType::L8 || kind == ColorType::Rgb8) {
                assert(values@ =~= values@.map_values(|value: u8| value as int).map_values(
                    |value: int| value as u8,
                ));
                return Ok(values);
            }
            (kind, list_bytes(&values))
        },
        PagePixels::Words(kind, values) => {
            if kind == color_type && (kind == ColorType::L16 || kind == ColorType::Rgb16) {
                return Ok(u16_bytes(&values, order));
            }
            (kind, list_words(&values))
        },
    };
    let mut message = String::from_str("OpenJPEG returned ");
    message.append(kind.name());
    message.append("([");
    message.append(list.as_str());
    message.append("]), expected ");
    message.append(color_type.name());
    Err(image_error("decode", path, message.as_str()))
}

/// One plane of an sYCC page, at the size it is stored in.
#[derive(Debug)]
pub struct SyccPlane {
    pub width: u32,
    pub height: u32,
    pub values: Vec<u16>,
}

/// What a page is decoded into: pixels, or the planes of an sYCC page whose
/// sampling or depth has no yuv format, which are converted to rgb. Their values
/// fill sixteen bits when `wide` is set, and eight otherwise.
#[derive(Debug)]
pub enum PageContents {
    Ready(Pixels),
    Sycc { wide: bool, planes: Vec<SyccPlane> },
}

/// Whether `planes` are the planes of the components of an sYCC page.
pub open spec fn sycc_planes_of(
    planes: Seq<SyccPlane>,
    wide: bool,
    components: Seq<ComponentView>,
) -> bool {
    &&& planes.len() == 3
    &&& forall|index: int|
        0 <= index < 3 ==> {
            &&& (#[trigger] planes[index]).width == components[index].width
            &&& planes[index].height == components[index].height
            &&& planes[index].values@.map_values(|value: u16| value as int) == scaled_samples(
                components[index],
                if wide {
                    16
                } else {
                    8
                },
            )
        }
}

/// Reads one plane of an sYCC page.
fn sycc_plane(image: &jpeg2k::Image, index: usize, wide: bool) -> (plane: SyccPlane)
    requires
        index < components_of(*image).len(),
        scalable(components_of(*image)[index as int]),
        !components_of(*image)[index as int].signed,
    ensures
        plane.width == components_of(*image)[index as int].width,
        plane.height == components_of(*image)[index as int].height,
        plane.values@.map_values(|value: u16| value as int) == scaled_samples(
            components_of(*image)[index as int],
            if wide {
                16
            } else {
                8
            },
        ),
{
    let width: u32 = component_width(image, index);
    let height: u32 = component_height(image, index);
    if wide {
        return SyccPlane { width, height, values: scaled_words(image, index) };
    }
    let bytes = scaled_bytes(image, index);
    let mut values: Vec<u16> = Vec::new();
    let mut at: usize = 0;
    while at < bytes.len()
        invariant
            at <= bytes@.len(),
            values@.len() == at,
            forall|before: int| 0 <= before < at ==> values@[before] == bytes@[before],
        decreases bytes@.len() - at,
    {
        values.push(bytes[at] as u16);
        at = at + 1;
    }
    proof {
        let expected = scaled_samples(components_of(*image)[index as int], 8);
        let narrow = bytes@.map_values(|value: u8| value as int);
        let wider = values@.map_values(|value: u16| value as int);
        assert(wider =~= narrow);
    }
    SyccPlane { width, height, values }
}

/// Reads the planes of an sYCC page whose sampling or depth has no yuv format.
/// The JP2 enumerated colour space uses full-range sRGB/BT.601 coefficients;
/// supported layouts stay planar and never enter this conversion.
pub fn decode_sycc(image: &jpeg2k::Image, color_type: ColorType, path: &str) -> (planes: Result<
    PageContents,
    ImgSeqError,
>)
    requires
        all_unsigned(components_of(*image)),
        components_of(*image).len() == 3 && !any_empty(components_of(*image)) ==> all_scalable(
            components_of(*image),
        ),
    ensures
        sycc_outcome(planes, components_of(*image), color_type, path@),
{
    if image.num_components() != 3 {
        return Err(
            image_error("decode", path, "OpenJPEG returned an invalid sYCC component count"),
        );
    }
    let wide = color_type == ColorType::Rgb16;
    if holds_nothing(image) {
        return Err(image_error("decode", path, "OpenJPEG returned an invalid sYCC plane"));
    }
    let mut planes: Vec<SyccPlane> = Vec::new();
    let mut index: usize = 0;
    while index < 3
        invariant
            index <= 3,
            planes@.len() == index,
            components_of(*image).len() == 3,
            all_unsigned(components_of(*image)),
            all_scalable(components_of(*image)),
            wide == (color_type == ColorType::Rgb16),
            forall|before: int|
                0 <= before < index ==> {
                    &&& (#[trigger] planes@[before]).width == components_of(*image)[before].width
                    &&& planes@[before].height == components_of(*image)[before].height
                    &&& planes@[before].values@.map_values(|value: u16| value as int)
                        == scaled_samples(
                        components_of(*image)[before],
                        if wide {
                            16
                        } else {
                            8
                        },
                    )
                },
        decreases 3 - index,
    {
        planes.push(sycc_plane(image, index, wide));
        index = index + 1;
    }
    Ok(PageContents::Sycc { wide, planes })
}

/// Whether any component holds no sample.
pub open spec fn any_empty(components: Seq<ComponentView>) -> bool {
    exists|index: int|
        0 <= index < components.len() && ((#[trigger] components[index]).width == 0
            || components[index].height == 0)
}

/// Whether any component of a page holds no sample.
fn holds_nothing(image: &jpeg2k::Image) -> (empty: bool)
    ensures
        empty == any_empty(components_of(*image)),
{
    let count: usize = image.num_components() as usize;
    let mut index: usize = 0;
    while index < count
        invariant
            index <= count,
            count == components_of(*image).len(),
            forall|before: int|
                0 <= before < index ==> (#[trigger] components_of(*image)[before]).width != 0
                    && components_of(*image)[before].height != 0,
        decreases count - index,
    {
        if component_width(image, index) == 0 || component_height(image, index) == 0 {
            assert(components_of(*image)[index as int].width == 0 || components_of(
                *image,
            )[index as int].height == 0);
            return true;
        }
        index = index + 1;
    }
    false
}

/// What reading the planes of an sYCC page comes to.
pub open spec fn sycc_outcome(
    planes: Result<PageContents, ImgSeqError>,
    components: Seq<ComponentView>,
    color_type: ColorType,
    path: Seq<char>,
) -> bool {
    if components.len() != 3 {
        error::fails_with(
            planes,
            decoder::image_error_text(
                "decode"@,
                path,
                "OpenJPEG returned an invalid sYCC component count"@,
            ),
        )
    } else if any_empty(components) {
        error::fails_with(
            planes,
            decoder::image_error_text("decode"@, path, "OpenJPEG returned an invalid sYCC plane"@),
        )
    } else {
        planes matches Ok(PageContents::Sycc { wide, planes }) && wide == (color_type
            == ColorType::Rgb16) && sycc_planes_of(planes@, wide, components)
    }
}

/// Where the sample of an sYCC plane of `width`x`height` for the point `x`, `y`
/// of a picture of `full_width`x`full_height` is.
pub open spec fn sycc_sample_at(
    width: int,
    height: int,
    x: int,
    y: int,
    full_width: int,
    full_height: int,
) -> int {
    least(y * height / full_height, height - 1) * width + least(x * width / full_width, width - 1)
}

/// Finds the sample of an sYCC plane for a point of the picture.
pub fn sycc_sample(
    width: u32,
    height: u32,
    x: u32,
    y: u32,
    full_width: u32,
    full_height: u32,
) -> (index: u64)
    requires
        0 < width,
        0 < height,
        x < full_width,
        y < full_height,
    ensures
        index == sycc_sample_at(
            width as int,
            height as int,
            x as int,
            y as int,
            full_width as int,
            full_height as int,
        ),
        index < width * height,
{
    proof {
        assert(x * width <= 0xffff_ffff * 0xffff_ffff) by (nonlinear_arith)
            requires
                0 <= x <= 0xffff_ffff,
                0 <= width <= 0xffff_ffff,
        ;
        assert(y * height <= 0xffff_ffff * 0xffff_ffff) by (nonlinear_arith)
            requires
                0 <= y <= 0xffff_ffff,
                0 <= height <= 0xffff_ffff,
        ;
        assert(0 <= x * width / full_width as int && 0 <= y * height / full_height as int)
            by (nonlinear_arith)
            requires
                0 <= x,
                0 <= width,
                0 <= y,
                0 <= height,
                0 < full_width,
                0 < full_height,
        ;
    }
    let across: u64 = x as u64 * width as u64 / full_width as u64;
    let down: u64 = y as u64 * height as u64 / full_height as u64;
    let column: u64 = if across <= width as u64 - 1 {
        across
    } else {
        width as u64 - 1
    };
    let row: u64 = if down <= height as u64 - 1 {
        down
    } else {
        height as u64 - 1
    };
    proof {
        assert(row * width + column < width * height && row * width <= 0xffff_ffff * 0xffff_ffff)
            by (nonlinear_arith)
            requires
                0 <= row <= height - 1,
                0 <= column <= width - 1,
                height <= 0xffff_ffff,
                width <= 0xffff_ffff,
        ;
    }
    row * width as u64 + column
}

/// What interleaving the samples of a page comes to.
pub open spec fn interleaved_outcome(
    contents: Result<PageContents, ImgSeqError>,
    space: PageColor,
    components: Seq<ComponentView>,
    color_type: ColorType,
    order: ByteOrder,
    path: Seq<char>,
) -> bool {
    if space == PageColor::SYCC {
        sycc_outcome(contents, components, color_type, path)
    } else {
        match interleaved_page(space, components) {
            Err(message) => error::fails_with(
                contents,
                decoder::image_error_text("decode"@, path, message),
            ),
            Ok((kind, values)) => {
                let words = kind == ColorType::L16 || kind == ColorType::Rgb16;
                match page_buffer(kind, values, words, color_type, order) {
                    Err(message) => error::fails_with(
                        contents,
                        decoder::image_error_text("decode"@, path, message),
                    ),
                    Ok(buffer) => {
                        contents matches Ok(
                            PageContents::Ready(Pixels::Interleaved { color_type: kept, buffer: held }),
                        ) && kept == color_type && held@ == buffer
                    },
                }
            },
        }
    }
}

/// Whether the samples that interleaving a page reads can be counted and scaled.
pub open spec fn interleaves_soundly(space: PageColor, components: Seq<ComponentView>) -> bool {
    if space == PageColor::SYCC {
        components.len() == 3 && !any_empty(components) ==> all_scalable(components)
    } else {
        interleaves(space) ==> deep(components) || all_scalable(components)
    }
}

/// Decodes a page into one interleaved buffer, or the planes it is converted
/// from.
pub fn decode_interleaved(
    image: &jpeg2k::Image,
    color_type: ColorType,
    order: ByteOrder,
    path: &str,
) -> (contents: Result<PageContents, ImgSeqError>)
    requires
        components_of(*image).len() == 1 || components_of(*image).len() == 3,
        all_unsigned(components_of(*image)),
        interleaves_soundly(page_of(*image).space, components_of(*image)),
    ensures
        interleaved_outcome(
            contents,
            page_of(*image).space,
            components_of(*image),
            color_type,
            order,
            path@,
        ),
{
    if color_space(image) == PageColor::SYCC {
        return decode_sycc(image, color_type, path);
    }
    let pixels = match page_pixels(image) {
        Ok(pixels) => pixels,
        Err(message) => {
            return Err(image_error("decode", path, message.as_str()));
        },
    };
    match take_pixels(pixels, color_type, order, path) {
        Ok(buffer) => Ok(PageContents::Ready(Pixels::Interleaved { color_type, buffer })),
        Err(error) => Err(error),
    }
}

/// How far a sample scaled to sixteen bits is above the depth `bits`.
pub open spec fn depth_step(bits: int) -> int {
    pow2((16 - bits) as nat) as int
}

/// The bytes of the plane a component of a yuv page is handed out as: eight bit
/// samples as they are, and deeper ones right aligned at the depth the format
/// names.
pub open spec fn coded_plane(
    component: ComponentView,
    format: PixelFormat,
    order: ByteOrder,
) -> Seq<u8> {
    if format.word() == 1 {
        scaled_samples(component, 8).map_values(|value: int| value as u8)
    } else {
        stored_words(
            scaled_samples(component, 16).map_values(|value: int| value / depth_step(format.bits())),
            order,
        )
    }
}

/// What decoding a yuv page comes to.
pub open spec fn yuv_outcome(
    contents: Result<PageContents, ImgSeqError>,
    space: PageColor,
    components: Seq<ComponentView>,
    format: PixelFormat,
    order: ByteOrder,
    path: Seq<char>,
) -> bool {
    if space != PageColor::SYCC {
        error::fails_with(
            contents,
            decoder::image_error_text(
                "decode"@,
                path,
                "OpenJPEG did not preserve the declared sYCC color space"@,
            ),
        )
    } else if components.len() != 3 {
        error::fails_with(
            contents,
            decoder::image_error_text(
                "decode"@,
                path,
                "OpenJPEG returned a non-RGB component count"@,
            ),
        )
    } else {
        contents matches Ok(PageContents::Ready(Pixels::Planar { planes, alpha })) && {
            &&& alpha is None
            &&& planes@.len() == 3
            &&& forall|index: int|
                0 <= index < 3 ==> (#[trigger] planes@[index])@ == coded_plane(
                    components[index],
                    format,
                    order,
                )
        }
    }
}

/// Moves samples scaled to sixteen bits down to the depth they were stored at.
fn right_aligned(values: Vec<u16>, bits: i32) -> (aligned: Vec<u16>)
    requires
        8 <= bits <= 16,
    ensures
        aligned@.map_values(|value: u16| value as int) == values@.map_values(
            |value: u16| value as int,
        ).map_values(|value: int| value / depth_step(bits as int)),
{
    proof {
        lemma2_to64();
    }
    let step: u16 = match 16 - bits {
        0 => 1,
        1 => 2,
        2 => 4,
        3 => 8,
        4 => 16,
        5 => 32,
        6 => 64,
        7 => 128,
        _ => 256,
    };
    assert(step == depth_step(bits as int));
    let mut aligned: Vec<u16> = Vec::new();
    let mut index: usize = 0;
    while index < values.len()
        invariant
            index <= values@.len(),
            aligned@.len() == index,
            step == depth_step(bits as int),
            0 < step,
            forall|before: int|
                0 <= before < index ==> #[trigger] aligned@[before] == values@[before] as int
                    / depth_step(bits as int),
        decreases values@.len() - index,
    {
        aligned.push(values[index] / step);
        index = index + 1;
    }
    assert(aligned@.map_values(|value: u16| value as int) =~= values@.map_values(
        |value: u16| value as int,
    ).map_values(|value: int| value / depth_step(bits as int)));
    aligned
}

/// Decodes a page into its coded yuv planes.
pub fn decode_yuv(image: &jpeg2k::Image, format: PixelFormat, order: ByteOrder, path: &str) -> (
    contents: Result<PageContents, ImgSeqError>)
    requires
        format.family() == ColorFamily::YUV,
        all_unsigned(components_of(*image)),
        page_of(*image).space == PageColor::SYCC && components_of(*image).len() == 3
            ==> all_scalable(components_of(*image)),
    ensures
        yuv_outcome(
            contents,
            page_of(*image).space,
            components_of(*image),
            format,
            order,
            path@,
        ),
{
    if color_space(image) != PageColor::SYCC {
        return Err(
            image_error("decode", path, "OpenJPEG did not preserve the declared sYCC color space"),
        );
    }
    if image.num_components() != 3 {
        return Err(image_error("decode", path, "OpenJPEG returned a non-RGB component count"));
    }
    let one_byte = format.bytes_per_sample() == 1;
    let bits: i32 = format.bits_per_sample();
    let mut planes: Vec<Vec<u8>> = Vec::new();
    let mut index: usize = 0;
    while index < 3
        invariant
            index <= 3,
            planes@.len() == index,
            components_of(*image).len() == 3,
            all_unsigned(components_of(*image)),
            all_scalable(components_of(*image)),
            one_byte == (format.word() == 1),
            bits == format.bits(),
            8 <= bits <= 16,
            forall|before: int|
                0 <= before < index ==> (#[trigger] planes@[before])@ == coded_plane(
                    components_of(*image)[before],
                    format,
                    order,
                ),
        decreases 3 - index,
    {
        let ghost component = components_of(*image)[index as int];
        let plane = if one_byte {
            let values = scaled_bytes(image, index);
            assert(values@ =~= values@.map_values(|value: u8| value as int).map_values(
                |value: int| value as u8,
            ));
            values
        } else {
            u16_bytes(&right_aligned(scaled_words(image, index), bits), order)
        };
        assert(plane@ == coded_plane(component, format, order));
        planes.push(plane);
        index = index + 1;
    }
    Ok(PageContents::Ready(Pixels::Planar { planes, alpha: None }))
}

/// Whether every component of a page has samples that can be counted and scaled.
fn fits(image: &jpeg2k::Image) -> (fit: bool)
    ensures
        fit == all_scalable(components_of(*image)),
{
    let count: usize = image.num_components() as usize;
    let mut index: usize = 0;
    while index < count
        invariant
            index <= count,
            count == components_of(*image).len(),
            forall|before: int|
                0 <= before < index ==> scalable(#[trigger] components_of(*image)[before]),
        decreases count - index,
    {
        let precision: u32 = component_precision(image, index);
        let width: u32 = component_width(image, index);
        let height: u32 = component_height(image, index);
        assert(width * height <= 0xffff_ffff * 0xffff_ffff) by (nonlinear_arith)
            requires
                0 <= width <= 0xffff_ffff,
                0 <= height <= 0xffff_ffff,
        ;
        if precision < 1 || precision > 30 || width == 0 || height == 0 || width as u64
            * height as u64 > u32::MAX as u64 {
            assert(!scalable(components_of(*image)[index as int]));
            return false;
        }
        index = index + 1;
    }
    true
}

/// Whether any component of a page has more than sixteen bits.
fn is_deep(image: &jpeg2k::Image) -> (is: bool)
    ensures
        is == deep(components_of(*image)),
{
    let count: usize = image.num_components() as usize;
    let mut index: usize = 0;
    while index < count
        invariant
            index <= count,
            count == components_of(*image).len(),
            forall|before: int|
                0 <= before < index ==> (#[trigger] components_of(*image)[before]).precision <= 16,
        decreases count - index,
    {
        if component_precision(image, index) > 16 {
            assert(components_of(*image)[index as int].precision > 16);
            return true;
        }
        index = index + 1;
    }
    false
}

/// Whether the samples that decoding a page reads can be counted and scaled.
pub open spec fn decodes_soundly(
    space: PageColor,
    components: Seq<ComponentView>,
    format: PixelFormat,
) -> bool {
    if format.family() == ColorFamily::YUV {
        space == PageColor::SYCC && components.len() == 3 ==> all_scalable(components)
    } else {
        interleaves_soundly(space, components)
    }
}

/// What decoding a page that was read from a file with `header` comes to.
/// Nothing comes of a page whose samples cannot be counted or scaled.
pub open spec fn page_outcome(
    contents: Option<Result<PageContents, ImgSeqError>>,
    page: PageView,
    components: Seq<ComponentView>,
    header: jp2::HeaderView,
    color_type: ColorType,
    format: PixelFormat,
    order: ByteOrder,
    path: Seq<char>,
) -> bool {
    match page_problem(page, components, header, path) {
        Some(message) => contents matches Some(contents) && error::fails_with(contents, message),
        None => if !decodes_soundly(page.space, components, format) {
            contents is None
        } else if format.family() == ColorFamily::YUV {
            contents matches Some(contents) && yuv_outcome(
                contents,
                page.space,
                components,
                format,
                order,
                path,
            )
        } else {
            contents matches Some(contents) && interleaved_outcome(
                contents,
                page.space,
                components,
                color_type,
                order,
                path,
            )
        },
    }
}

/// Decodes a page that was read from a file with `header`. There is no answer
/// for a page with more samples than can be counted, or with deeper samples than
/// can be scaled.
pub fn decode_page(
    image: &jpeg2k::Image,
    header: &Header,
    color_type: ColorType,
    format: PixelFormat,
    order: ByteOrder,
    path: &str,
) -> (contents: Option<Result<PageContents, ImgSeqError>>)
    requires
        jp2::handed_out(header@, path@) == Ok::<(ColorType, PixelFormat), Seq<char>>(
            (color_type, format),
        ),
    ensures
        page_outcome(
            contents,
            page_of(*image),
            components_of(*image),
            header@,
            color_type,
            format,
            order,
            path@,
        ),
{
    match check_decoded_header(image, header, path) {
        Ok(_) => {},
        Err(error) => {
            return Some(Err(error));
        },
    }
    proof {
        assert forall|index: int| 0 <= index < components_of(*image).len() implies !(
        #[trigger] components_of(*image)[index]).signed && components_of(*image)[index].width != 0
            && components_of(*image)[index].height != 0 by {
            assert(as_stated(components_of(*image)[index], header@.components[index]));
            assert(!header@.components[index].signed);
        }
    }
    let space = color_space(image);
    if format.color_family() == ColorFamily::YUV {
        if space == PageColor::SYCC && image.num_components() == 3 && !fits(image) {
            return None;
        }
        return Some(decode_yuv(image, format, order, path));
    }
    let sound = match space {
        PageColor::SYCC => image.num_components() != 3 || fits(image),
        PageColor::EYCC | PageColor::CMYK => true,
        _ => is_deep(image) || fits(image),
    };
    if !sound {
        return None;
    }
    Some(decode_interleaved(image, color_type, order, path))
}

/// Reads the header of a file that is decoded, and checks that it still describes
/// the image its probe recorded.
pub fn check_header(info: &ImageInfo, data: &[u8]) -> (checked: Result<Header, ImgSeqError>)
    ensures
        match jp2::probed(data@, info.path@) {
            Err(message) => error::fails_with(checked, message),
            Ok((header, color_type, format)) => if header.width != info.width || header.height
                != info.height || color_type != info.color_type || format != info.format {
                error::fails_with(
                    checked,
                    decoder::changed_text(*info, header.width, header.height, color_type, format),
                )
            } else {
                checked matches Ok(checked) && checked@ == header
            },
        },
{
    let path = info.path.as_str();
    let header = match parse_header(data, path) {
        Ok(header) => header,
        Err(error) => {
            return Err(error);
        },
    };
    let (color_type, format) = match output_format(&header, path) {
        Ok(output) => output,
        Err(error) => {
            return Err(error);
        },
    };
    if header.width != info.width || header.height != info.height || color_type != info.color_type
        || format != info.format {
        return Err(changed(info, header.width, header.height, color_type, format));
    }
    Ok(header)
}

/// What decoding a file that was probed as `info` comes to.
pub open spec fn file_outcome(
    contents: Option<Result<PageContents, ImgSeqError>>,
    info: ImageInfo,
    data: Seq<u8>,
    order: ByteOrder,
) -> bool {
    match jp2::probed(data, info.path@) {
        Err(message) => contents matches Some(contents) && error::fails_with(contents, message),
        Ok((header, color_type, format)) => if header.width != info.width || header.height
            != info.height || color_type != info.color_type || format != info.format {
            contents matches Some(contents) && error::fails_with(
                contents,
                decoder::changed_text(info, header.width, header.height, color_type, format),
            )
        } else {
            match openjpeg_decoded(data) {
                Err(message) => contents matches Some(contents) && error::fails_with(
                    contents,
                    decoder::image_error_text("decode"@, info.path@, message),
                ),
                Ok((page, components)) => page_outcome(
                    contents,
                    page,
                    components,
                    header,
                    color_type,
                    format,
                    order,
                    info.path@,
                ),
            }
        },
    }
}

/// Decodes a JPEG 2000 image into an interleaved buffer or its coded yuv planes.
/// There is no answer for a page with more samples than can be counted, or with
/// deeper samples than can be scaled.
pub fn decode(info: &ImageInfo, data: &[u8], order: ByteOrder) -> (contents: Option<
    Result<PageContents, ImgSeqError>,
>)
    ensures
        file_outcome(contents, *info, data@, order),
{
    let path = info.path.as_str();
    let header = match check_header(info, data) {
        Ok(header) => header,
        Err(error) => {
            return Some(Err(error));
        },
    };
    let image = match open(data, path) {
        Ok(image) => image,
        Err(error) => {
            return Some(Err(error));
        },
    };
    decode_page(&image, &header, info.color_type, info.format, order, path)
}

/// A sample of a depth between eight and sixteen bits that was scaled to sixteen
/// bits and right aligned again is the sample the file stores.
pub proof fn a_right_aligned_sample_is_the_stored_one(sample: i32, precision: u32)
    requires
        8 <= precision <= 16,
        0 <= sample < pow2(precision as nat),
    ensures
        scaled(sample, precision, 16) / depth_step(precision as int) == sample,
{
    lemma2_to64();
    lemma_pow2_pos(precision as nat);
    let step = depth_step(precision as int);
    let top = pow2(precision as nat) - 1;
    lemma_pow2_pos((16 - precision) as nat);
    vstd::arithmetic::power2::lemma_pow2_adds(precision as nat, (16 - precision) as nat);
    assert(pow2(precision as nat) * step == 0x1_0000);
    let whole = sample * 0xffff / top;
    assert(pow2(precision as nat) >= 2) by {
        vstd::arithmetic::power2::lemma_pow2_strictly_increases(0, precision as nat);
    }
    assert(sample * step <= whole < sample * step + step) by (nonlinear_arith)
        requires
            0 <= sample <= top,
            0 < top,
            0 < step,
            (top + 1) * step == 0x1_0000,
            whole == sample * 0xffff / top,
    {
        let rest = sample * (step - 1);
        assert(sample * 0xffff == sample * step * top + rest) by (nonlinear_arith)
            requires
                (top + 1) * step == 0x1_0000,
                rest == sample * (step - 1),
        ;
        assert(0 <= rest <= top * (step - 1)) by (nonlinear_arith)
            requires
                rest == sample * (step - 1),
                0 <= sample <= top,
                0 < step,
        ;
        vstd::arithmetic::div_mod::lemma_fundamental_div_mod(sample * 0xffff, top);
        vstd::arithmetic::div_mod::lemma_mod_bound(sample * 0xffff, top);
        let left = (sample * 0xffff) % top;
        assert(top * whole + left == sample * step * top + rest);
        assert(sample * step <= whole) by (nonlinear_arith)
            requires
                top * whole + left == sample * step * top + rest,
                0 <= left < top,
                0 <= rest,
                0 < top,
        ;
        assert(whole < sample * step + step) by (nonlinear_arith)
            requires
                top * whole + left == sample * step * top + rest,
                0 <= left < top,
                rest <= top * (step - 1),
                0 < top,
        ;
    }
    assert(whole < 0x1_0000) by (nonlinear_arith)
        requires
            whole < sample * step + step,
            sample <= top,
            0 < step,
            (top + 1) * step == 0x1_0000,
    ;
    assert(0 <= whole) by (nonlinear_arith)
        requires
            sample * step <= whole,
            0 <= sample,
            0 < step,
    ;
    assert(whole % 0x1_0000 == whole);
    assert(whole / step == sample) by {
        vstd::arithmetic::div_mod::lemma_fundamental_div_mod_converse(
            whole,
            step,
            sample as int,
            whole - sample * step,
        );
    }
}

/// An eight bit sample is decoded as the sample the file stores.
pub proof fn an_eight_bit_sample_is_the_stored_one(sample: i32)
    requires
        0 <= sample < 0x100,
    ensures
        scaled(sample, 8, 8) == sample,
{
    lemma2_to64();
    assert(sample * 255 / 255 == sample);
}

proof fn lemma_stored_word(values: Seq<int>, order: ByteOrder, index: int)
    requires
        0 <= index < values.len(),
        0 <= values[index] < 0x1_0000,
    ensures
        stored_words(values, order).len() == 2 * values.len(),
        picture::read_as(
            order,
            stored_words(values, order)[2 * index],
            stored_words(values, order)[2 * index + 1],
        ) == values[index],
{
    let words = stored_words(values, order);
    assert(words[2 * index] == samples::word_bytes(values[index], order)[0]) by {
        samples::lemma_sample_byte(index, 0, 2);
    }
    assert(words[2 * index + 1] == samples::word_bytes(values[index], order)[1]) by {
        samples::lemma_sample_byte(index, 1, 2);
    }
}

proof fn lemma_scaled_bound(sample: i32, precision: u32, bits: nat)
    requires
        bits == 8 || bits == 16,
    ensures
        0 <= scaled(sample, precision, bits) < pow2(bits),
{
    lemma2_to64();
    let raw = if sample < 0 {
        sample + 0x1_0000_0000
    } else {
        sample as int
    };
    vstd::arithmetic::div_mod::lemma_mod_bound(
        raw * (pow2(bits) - 1) / (pow2(precision as nat) - 1),
        pow2(bits) as int,
    );
}

/// A yuv page is handed out as it is stored: plane by plane in the order of its
/// components, and in every plane each sample with the number the file has for it,
/// in a byte or in two of the order of the machine.
pub proof fn a_yuv_page_is_handed_out_as_it_is_stored(
    planes: Vec<Vec<u8>>,
    alpha: Option<Vec<u8>>,
    page: PageView,
    components: Seq<ComponentView>,
    header: jp2::HeaderView,
    color_type: ColorType,
    format: PixelFormat,
    order: ByteOrder,
    path: Seq<char>,
    plane: int,
    index: int,
)
    requires
        page_outcome(
            Some(Ok(PageContents::Ready(Pixels::Planar { planes, alpha }))),
            page,
            components,
            header,
            color_type,
            format,
            order,
            path,
        ),
        format.family() == ColorFamily::YUV,
        0 <= plane < 3,
        0 <= index < components[plane].width * components[plane].height,
        components[plane].precision == format.bits(),
        0 <= components[plane].samples[index] < pow2(format.bits() as nat),
    ensures
        alpha is None,
        planes@.len() == 3,
        page.space == PageColor::SYCC,
        planes@[plane]@.len() == components[plane].width * components[plane].height
            * format.word(),
        format.bits() == 8 ==> planes@[plane]@[index] == components[plane].samples[index],
        format.bits() > 8 ==> picture::read_as(
            order,
            planes@[plane]@[2 * index],
            planes@[plane]@[2 * index + 1],
        ) == components[plane].samples[index],
{
    lemma2_to64();
    let component = components[plane];
    assert(planes@[plane]@ == coded_plane(component, format, order));
    let sample = component.samples[index];
    if format.word() == 1 {
        an_eight_bit_sample_is_the_stored_one(sample);
        assert(scaled_samples(component, 8)[index] == sample);
    } else {
        let values = scaled_samples(component, 16).map_values(
            |value: int| value / depth_step(format.bits()),
        );
        a_right_aligned_sample_is_the_stored_one(sample, component.precision);
        assert(values[index] == sample);
        assert(pow2(format.bits() as nat) <= 0x1_0000);
        lemma_stored_word(values, order, index);
    }
}

/// A page without a yuv format is handed out pixel by pixel: a pixel has the
/// samples of the components in their order, each scaled to the whole range of a
/// byte, or of a word where any component is deeper than a byte.
pub proof fn an_interleaved_page_has_its_components_side_by_side(
    kind: ColorType,
    buffer: Vec<u8>,
    page: PageView,
    components: Seq<ComponentView>,
    header: jp2::HeaderView,
    color_type: ColorType,
    format: PixelFormat,
    order: ByteOrder,
    path: Seq<char>,
    pixel: int,
    channel: int,
)
    requires
        page_outcome(
            Some(Ok(PageContents::Ready(Pixels::Interleaved { color_type: kind, buffer }))),
            page,
            components,
            header,
            color_type,
            format,
            order,
            path,
        ),
        components.len() == 1 || components.len() == 3,
        0 <= channel < components.len(),
        0 <= pixel,
        forall|i: int|
            0 <= i < components.len() ==> pixel < #[trigger] components[i].width
                * components[i].height,
    ensures
        kind == color_type,
        format.family() != ColorFamily::YUV,
        page.space != PageColor::SYCC,
        kind == ColorType::L8 || kind == ColorType::L16 <==> components.len() == 1,
        kind == ColorType::L8 || kind == ColorType::Rgb8 <==> forall|i: int|
            0 <= i < components.len() ==> (#[trigger] components[i]).precision <= 8,
        ({
            let at = pixel * components.len() + channel;
            let component = components[channel];
            if kind == ColorType::L8 || kind == ColorType::Rgb8 {
                buffer@[at] == scaled(component.samples[pixel], component.precision, 8)
            } else {
                picture::read_as(order, buffer@[2 * at], buffer@[2 * at + 1]) == scaled(
                    component.samples[pixel],
                    component.precision,
                    16,
                )
            }
        }),
{
    lemma2_to64();
    let component = components[channel];
    let bits: nat = if wide(components) {
        16
    } else {
        8
    };
    assert(components[0].width * components[0].height > pixel);
    let values = if components.len() == 1 {
        scaled_samples(components[0], bits)
    } else {
        zipped(components, bits)
    };
    let at = pixel * components.len() + channel;
    if components.len() == 3 {
        assert(components[1].width * components[1].height > pixel);
        assert(components[2].width * components[2].height > pixel);
        assert(at == pixel * 3 + channel);
        assert(at / 3 == pixel && at % 3 == channel);
    } else {
        assert(at == pixel);
    }
    assert(0 <= at < values.len());
    assert(values[at] == scaled(component.samples[pixel], component.precision, bits));
    lemma_scaled_bound(component.samples[pixel], component.precision, bits);
    if wide(components) {
        lemma_stored_word(values, order, at);
    }
}

/// Scaling keeps the ends of the range where they are and the order of the samples
/// as it is: nothing is darker than zero, and the largest sample of a precision is
/// the largest of the range it is scaled to.
pub proof fn scaling_keeps_the_ends_and_the_order(
    sample: i32,
    other: i32,
    precision: u32,
    bits: nat,
)
    requires
        1 <= precision <= 30,
        bits == 8 || bits == 16,
        0 <= sample <= other < pow2(precision as nat),
    ensures
        scaled(0, precision, bits) == 0,
        sample == pow2(precision as nat) - 1 ==> scaled(sample, precision, bits) == pow2(bits) - 1,
        scaled(sample, precision, bits) <= scaled(other, precision, bits),
        precision == bits ==> scaled(sample, precision, bits) == sample,
{
    lemma2_to64();
    vstd::arithmetic::power2::lemma_pow2_strictly_increases(0, precision as nat);
    let top = pow2(precision as nat) - 1;
    let most = pow2(bits) - 1;
    assert(0 < top);
    let low = sample * most / top;
    let high = other * most / top;
    assert(0 <= low <= high <= most) by {
        assert(0 <= sample * most <= other * most <= top * most) by (nonlinear_arith)
            requires
                0 <= sample <= other <= top,
                0 <= most,
        ;
        vstd::arithmetic::div_mod::lemma_div_is_ordered(0, sample * most, top);
        vstd::arithmetic::div_mod::lemma_div_is_ordered(sample * most, other * most, top);
        vstd::arithmetic::div_mod::lemma_div_is_ordered(other * most, top * most, top);
        vstd::arithmetic::div_mod::lemma_div_multiples_vanish(most, top);
        vstd::arithmetic::mul::lemma_mul_is_commutative(top, most);
        vstd::arithmetic::div_mod::lemma_div_basics(top);
    }
    vstd::arithmetic::div_mod::lemma_small_mod(low as nat, pow2(bits));
    vstd::arithmetic::div_mod::lemma_small_mod(high as nat, pow2(bits));
    assert(0 * most == 0);
    vstd::arithmetic::div_mod::lemma_div_basics(top);
    assert(scaled(0, precision, bits) == 0);
    if sample == top {
        vstd::arithmetic::div_mod::lemma_div_multiples_vanish(most, top);
    }
    if precision == bits {
        vstd::arithmetic::div_mod::lemma_div_multiples_vanish(sample as int, top);
        vstd::arithmetic::mul::lemma_mul_is_commutative(sample as int, top);
    }
}

/// The sample of an sYCC plane for a point of the picture lies in the plane. In a
/// plane of the size of the picture it is the sample of the point itself, and in one
/// of just half the size that of the pair of columns or rows the point is in.
pub proof fn an_sycc_plane_is_read_where_the_point_is(
    width: int,
    height: int,
    x: int,
    y: int,
    full_width: int,
    full_height: int,
)
    requires
        0 < width,
        0 < height,
        0 <= x < full_width,
        0 <= y < full_height,
    ensures
        ({
            let at = sycc_sample_at(width, height, x, y, full_width, full_height);
            &&& 0 <= at < width * height
            &&& width == full_width ==> at % width == x
            &&& height == full_height ==> at / width == y
            &&& full_width == 2 * width ==> at % width == x / 2
            &&& full_height == 2 * height ==> at / width == y / 2
        }),
{
    let row = least(y * height / full_height, height - 1);
    let column = least(x * width / full_width, width - 1);
    assert(0 <= y * height && 0 <= x * width) by (nonlinear_arith)
        requires
            0 <= x,
            0 <= y,
            0 < width,
            0 < height,
    ;
    vstd::arithmetic::div_mod::lemma_div_pos_is_pos(y * height, full_height);
    vstd::arithmetic::div_mod::lemma_div_pos_is_pos(x * width, full_width);
    assert(0 <= row < height && 0 <= column < width);
    vstd::arithmetic::div_mod::lemma_fundamental_div_mod_converse(
        row * width + column,
        width,
        row,
        column,
    );
    assert(0 <= row * width + column < width * height) by (nonlinear_arith)
        requires
            0 <= row < height,
            0 <= column < width,
    ;
    if width == full_width {
        vstd::arithmetic::div_mod::lemma_div_multiples_vanish(x, width);
        vstd::arithmetic::mul::lemma_mul_is_commutative(x, width);
    }
    if height == full_height {
        vstd::arithmetic::div_mod::lemma_div_multiples_vanish(y, height);
        vstd::arithmetic::mul::lemma_mul_is_commutative(y, height);
    }
    if full_width == 2 * width {
        lemma_half(x, width);
    }
    if full_height == 2 * height {
        lemma_half(y, height);
    }
}

proof fn lemma_half(position: int, size: int)
    requires
        0 <= position < 2 * size,
    ensures
        position * size / (2 * size) == position / 2,
{
    let half = position / 2;
    let rest = (position % 2) * size;
    assert(position * size == half * (2 * size) + rest) by (nonlinear_arith)
        requires
            position == 2 * half + position % 2,
            rest == (position % 2) * size,
    ;
    assert(0 <= rest < 2 * size) by (nonlinear_arith)
        requires
            rest == (position % 2) * size,
            0 <= position % 2 <= 1,
            0 < size,
    ;
    vstd::arithmetic::div_mod::lemma_fundamental_div_mod_converse(
        position * size,
        2 * size,
        half,
        rest,
    );
}

/// A decoded page is accepted just when it is the one the header describes: the same
/// size, and component for component the same precision and sign, with samples in
/// each.
pub proof fn a_page_is_the_one_its_header_describes(
    page: PageView,
    components: Seq<ComponentView>,
    header: jp2::HeaderView,
    path: Seq<char>,
)
    ensures
        (page_problem(page, components, header, path) is None) == ({
            &&& page.width == header.width
            &&& page.height == header.height
            &&& components.len() == header.components.len()
            &&& forall|i: int|
                0 <= i < components.len() ==> {
                    &&& (#[trigger] components[i]).precision == header.components[i].precision
                    &&& components[i].signed == header.components[i].signed
                    &&& components[i].width != 0
                    &&& components[i].height != 0
                }
        }),
{
    if page_problem(page, components, header, path) is None {
        assert forall|i: int| 0 <= i < components.len() implies {
            &&& (#[trigger] components[i]).precision == header.components[i].precision
            &&& components[i].signed == header.components[i].signed
            &&& components[i].width != 0
            &&& components[i].height != 0
        } by {
            assert(as_stated(components[i], header.components[i]));
        }
    }
}

/// A file is decoded only as what it was probed as: one whose size, colour type or
/// format is another by now is refused, whatever OpenJPEG makes of it.
pub proof fn a_file_that_changed_is_refused(
    contents: Option<Result<PageContents, ImgSeqError>>,
    info: ImageInfo,
    data: Seq<u8>,
    order: ByteOrder,
)
    requires
        file_outcome(contents, info, data, order),
        contents matches Some(Ok(_)),
    ensures
        match jp2::probed(data, info.path@) {
            Ok((header, color_type, format)) => {
                &&& header.width == info.width
                &&& header.height == info.height
                &&& color_type == info.color_type
                &&& format == info.format
                &&& openjpeg_decoded(data) is Ok
            },
            Err(_) => false,
        },
{
}

/// Whether every component of a page has one to thirty bits and a number of samples that
/// can be counted.
pub open spec fn countable(components: Seq<ComponentView>) -> bool {
    forall|i: int|
        0 <= i < components.len() ==> {
            &&& 1 <= (#[trigger] components[i]).precision
            &&& components[i].precision <= 30
            &&& components[i].width >= 1
            &&& components[i].height >= 1
            &&& components[i].width * components[i].height <= 0xffff_ffff
        }
}

/// Nothing comes of a page only where some component has no samples, or too many of them
/// or too deep to be scaled; a page that is not the one of its header is refused with
/// words all the same.
pub proof fn nothing_comes_only_of_a_page_that_cannot_be_counted(
    contents: Option<Result<PageContents, ImgSeqError>>,
    page: PageView,
    components: Seq<ComponentView>,
    header: jp2::HeaderView,
    color_type: ColorType,
    format: PixelFormat,
    order: ByteOrder,
    path: Seq<char>,
)
    requires
        page_outcome(contents, page, components, header, color_type, format, order, path),
    ensures
        countable(components) ==> contents is Some,
        page_problem(page, components, header, path) is Some ==> (contents matches Some(Err(_))),
        contents matches Some(Ok(_)) ==> page_problem(page, components, header, path) is None,
        contents matches Some(Ok(_)) && (page.space == PageColor::SYCC || components.len() == 1)
            ==> countable(components),
{
    if countable(components) {
        assert forall|i: int| 0 <= i < components.len() implies scalable(
            #[trigger] components[i],
        ) by {}
    }
    if contents matches Some(Ok(_)) && (page.space == PageColor::SYCC || components.len() == 1) {
        assert(all_scalable(components));
        assert forall|i: int| 0 <= i < components.len() implies {
            &&& 1 <= (#[trigger] components[i]).precision
            &&& components[i].precision <= 30
            &&& components[i].width >= 1
            &&& components[i].height >= 1
            &&& components[i].width * components[i].height <= 0xffff_ffff
        } by {
            assert(scalable(components[i]));
        }
    }
}

/// A page is handed out where nothing speaks against it: as r,g,b or gray in a colour
/// space that is one or none at all, of at most sixteen bits, without alpha among three
/// components and in the colour type its depth asks for; and as yuv in an sYCC space. A
/// deeper one, or one in any other space, is refused.
pub proof fn a_page_is_handed_out_where_nothing_speaks_against_it(
    contents: Result<PageContents, ImgSeqError>,
    page: PageView,
    components: Seq<ComponentView>,
    header: jp2::HeaderView,
    color_type: ColorType,
    format: PixelFormat,
    order: ByteOrder,
    path: Seq<char>,
)
    requires
        page_outcome(Some(contents), page, components, header, color_type, format, order, path),
        page_problem(page, components, header, path) is None,
        components.len() == 1 || components.len() == 3,
    ensures
        format.family() == ColorFamily::YUV ==> (contents is Ok) == (page.space == PageColor::SYCC
            && components.len() == 3),
        format.family() != ColorFamily::YUV && page.space != PageColor::SYCC ==> (contents is Ok)
            == ({
            &&& page.space != PageColor::EYCC && page.space != PageColor::CMYK
            &&& forall|i: int|
                0 <= i < components.len() ==> (#[trigger] components[i]).precision <= 16
            &&& components.len() == 3 ==> forall|i: int|
                0 <= i < components.len() ==> !(#[trigger] components[i]).alpha
            &&& color_type == (match (components.len() == 1, forall|i: int|
                0 <= i < components.len() ==> (#[trigger] components[i]).precision <= 8) {
                (true, true) => ColorType::L8,
                (true, false) => ColorType::L16,
                (false, true) => ColorType::Rgb8,
                (false, false) => ColorType::Rgb16,
            })
        }),
        format.family() != ColorFamily::YUV && page.space == PageColor::SYCC && components.len()
            == 3 ==> contents is Ok,
{
    assert(!any_empty(components));
}

/// An sYCC page without a yuv format is handed out as its three planes, each with the
/// samples of its component scaled to the whole range of a byte, or of a word.
pub proof fn an_sycc_page_is_handed_out_as_its_planes(
    wide: bool,
    planes: Vec<SyccPlane>,
    page: PageView,
    components: Seq<ComponentView>,
    header: jp2::HeaderView,
    color_type: ColorType,
    format: PixelFormat,
    order: ByteOrder,
    path: Seq<char>,
    plane: int,
    index: int,
)
    requires
        page_outcome(
            Some(Ok(PageContents::Sycc { wide, planes })),
            page,
            components,
            header,
            color_type,
            format,
            order,
            path,
        ),
        0 <= plane < 3,
        0 <= index < components[plane].width * components[plane].height,
    ensures
        page.space == PageColor::SYCC,
        format.family() != ColorFamily::YUV,
        wide == (color_type == ColorType::Rgb16),
        planes@.len() == 3,
        planes@[plane].width == components[plane].width,
        planes@[plane].height == components[plane].height,
        planes@[plane].values@.len() == components[plane].width * components[plane].height,
        planes@[plane].values@[index] == scaled(
            components[plane].samples[index],
            components[plane].precision,
            if wide {
                16
            } else {
                8
            },
        ),
{
    let bits: nat = if wide {
        16
    } else {
        8
    };
    let values = planes@[plane].values@.map_values(|value: u16| value as int);
    assert(values == scaled_samples(components[plane], bits));
    assert(values.len() == planes@[plane].values@.len());
    assert(values[index] == planes@[plane].values@[index] as int);
}

} // verus!
