//! What is known of an image before and after it is decoded.

use vstd::prelude::*;

use crate::color::{ChromaLocation, Cicp};
use crate::error::{self, ImgSeqError};
use crate::formats::avif;
use crate::formats::heif;
use crate::formats::jp2;
use crate::formats::jxl;
use crate::formats::webp;
use crate::frame::ColorFamily;
use crate::image_types::{ColorType, Orientation};
use crate::pixel::planar;
use crate::pixel::planar::append_size;
use crate::pixel::transform;
use crate::pixel::{PixelFormat, Transform};
use crate::text;

verus! {

/// What a probe records of one image.
pub struct ImageInfo {
    pub path: String,
    pub width: u32,
    pub height: u32,
    pub color_type: ColorType,
    /// The name of the layout the file itself stores.
    pub original_color_type: String,
    pub has_icc_profile: bool,
    /// The profile itself, for the decoders that hand it over.
    pub icc_profile: Option<Vec<u8>>,
    /// The colour the container states.
    pub cicp: Option<Cicp>,
    /// Where the container says the chroma samples sit.
    pub chroma_location: Option<ChromaLocation>,
    /// The exif orientation the file states, which is reported as a property
    /// whatever the caller asked for.
    pub orientation: Orientation,
    /// The rearrangement the pixels are written with, which is the identity
    /// when the file states no orientation or the caller turned rotation off.
    pub transform: Transform,
    pub format: PixelFormat,
}

impl ImageInfo {
    /// Width this image is handed out as, which is its height for an
    /// orientation that transposes the picture.
    pub fn output_width(&self) -> (width: u32)
        ensures
            width == self.transform.size(self.width as int, self.height as int).0,
    {
        orientation_size(self.transform, self.width, self.height).0
    }

    /// Height this image is handed out as.
    pub fn output_height(&self) -> (height: u32)
        ensures
            height == self.transform.size(self.width as int, self.height as int).1,
    {
        orientation_size(self.transform, self.width, self.height).1
    }
}

#[derive(Clone, Copy, Debug)]
pub struct DecodeTimings {
    pub open: std::time::Duration,
    pub metadata: std::time::Duration,
    pub buffer: std::time::Duration,
    pub read: std::time::Duration,
}

/// Pixels of one decoded image, in whichever layout its format decodes to.
#[derive(Debug)]
pub enum Pixels {
    /// One buffer holding every channel of `color_type`, interleaved.
    Interleaved { color_type: ColorType, buffer: Vec<u8> },
    /// One tightly packed buffer per plane of the frame format, and one for the
    /// alpha plane when the file has one.
    Planar { planes: Vec<Vec<u8>>, alpha: Option<Vec<u8>> },
}

pub struct DecodedImage {
    pub width: u32,
    pub height: u32,
    /// The format the probe recorded for this image, which is the format of the
    /// frame it is written into.
    pub format: PixelFormat,
    /// How the samples are rearranged as they are written, from the probe.
    pub transform: Transform,
    pub pixels: Pixels,
    pub timings: DecodeTimings,
}

impl DecodedImage {
    /// Width of the frame these pixels are written into, which is the stored
    /// height for an orientation that transposes the picture.
    pub fn output_width(&self) -> (width: u32)
        ensures
            width == self.transform.size(self.width as int, self.height as int).0,
    {
        orientation_size(self.transform, self.width, self.height).0
    }

    /// Height of the frame these pixels are written into.
    pub fn output_height(&self) -> (height: u32)
        ensures
            height == self.transform.size(self.width as int, self.height as int).1,
    {
        orientation_size(self.transform, self.width, self.height).1
    }
}

/// Size `width`x`height` is handed out as under `transform`.
///
/// The probe and the decode result answer the same question, and the frame the
/// pixels are written into is this size rather than the size the file holds.
pub fn orientation_size(transform: Transform, width: u32, height: u32) -> (size: (u32, u32))
    ensures
        (size.0 as int, size.1 as int) == transform.size(width as int, height as int),
{
    if transform.transposes() {
        (height, width)
    } else {
        (width, height)
    }
}

/// What every decoder path reports when `action` fails on an image.
pub open spec fn image_error_text(action: Seq<char>, path: Seq<char>, detail: Seq<char>) -> Seq<
    char,
> {
    "failed to "@ + action + " image '"@ + path + "': "@ + detail
}

/// Builds the error every decoder path reports, so the format modules word
/// theirs the same way.
pub fn image_error(action: &str, path: &str, detail: &str) -> (error: ImgSeqError)
    ensures
        error@ == error::error_text(image_error_text(action@, path@, detail@)),
{
    let mut message = String::from_str("failed to ");
    message.append(action);
    message.append(" image '");
    message.append(path);
    message.append("': ");
    message.append(detail);
    ImgSeqError::new(message)
}

/// What a file that is no longer the one the probe read is refused with.
pub open spec fn changed_text(
    info: ImageInfo,
    width: u32,
    height: u32,
    color_type: ColorType,
    format: PixelFormat,
) -> Seq<char> {
    "image '"@ + info.path@ + "' changed after probing (was "@ + planar::size_text(
        info.width as int,
        info.height as int,
    ) + " "@ + info.color_type.text() + " "@ + info.format.text() + ", now "@ + planar::size_text(
        width as int,
        height as int,
    ) + " "@ + color_type.text() + " "@ + format.text() + ")"@
}

/// Builds the error for a file that changed after it was probed.
pub fn changed(
    info: &ImageInfo,
    width: u32,
    height: u32,
    color_type: ColorType,
    format: PixelFormat,
) -> (error: ImgSeqError)
    ensures
        error@ == error::error_text(changed_text(*info, width, height, color_type, format)),
{
    let mut message = String::from_str("image '");
    message.append(info.path.as_str());
    message.append("' changed after probing (was ");
    let mut message = append_size(message, info.width as usize, info.height as usize);
    message.append(" ");
    message.append(info.color_type.name());
    message.append(" ");
    message.append(info.format.name());
    message.append(", now ");
    let mut message = append_size(message, width as usize, height as usize);
    message.append(" ");
    message.append(color_type.name());
    message.append(" ");
    message.append(format.name());
    message.append(")");
    ImgSeqError::new(message)
}

/// Which part of the library describes or decodes a file.
#[derive(Clone, Copy, Debug, PartialEq, Eq, Structural)]
pub enum Route {
    Jxl,
    Jp2,
    Heif,
    Avif,
    Webp,
    /// The general decoder of the common formats.
    General,
}

/// Which part describes a file of a path: a file a format module can describe
/// from its container skips the general decoder.
pub open spec fn probe_route(path: Seq<char>) -> Route {
    if text::has_extension(path, "jxl"@) {
        Route::Jxl
    } else if jp2::jp2_path(path) {
        Route::Jp2
    } else if heif::heif_path(path) {
        Route::Heif
    } else if text::has_extension(path, "avif"@) {
        Route::Avif
    } else {
        Route::General
    }
}

/// Picks the part that describes a file. A heif or avif file that its module
/// declines to describe is left to the general decoder.
pub fn prober(path: &str) -> (route: Route)
    ensures
        text::plain_path(path@) ==> route == probe_route(path@),
{
    if jxl::owns(path) {
        Route::Jxl
    } else if jp2::owns(path) {
        Route::Jp2
    } else if heif::has_heif_extension(path) {
        Route::Heif
    } else if avif::has_avif_extension(path) {
        Route::Avif
    } else {
        Route::General
    }
}

/// Which part decodes a probed image.
pub open spec fn decode_route(info: ImageInfo) -> Route {
    if text::has_extension(info.path@, "jxl"@) {
        Route::Jxl
    } else if jp2::jp2_path(info.path@) {
        Route::Jp2
    } else if heif::heif_path(info.path@) && info.format.family() != ColorFamily::RGB {
        Route::Heif
    } else if text::has_extension(info.path@, "avif"@) && info.format.family()
        == ColorFamily::YUV {
        Route::Avif
    } else if text::has_extension(info.path@, "webp"@) {
        Route::Webp
    } else {
        Route::General
    }
}

/// Picks the part that decodes a probed image.
pub fn format_decoder(info: &ImageInfo) -> (route: Route)
    ensures
        text::plain_path(info.path@) ==> route == decode_route(*info),
{
    if jxl::handles(info) {
        Route::Jxl
    } else if jp2::handles(info) {
        Route::Jp2
    } else if heif::handles(info) {
        Route::Heif
    } else if avif::handles(info) {
        Route::Avif
    } else if webp::handles(info) {
        Route::Webp
    } else {
        Route::General
    }
}

/// What the general decoder reports of a file it has opened.
pub struct DecoderFacts {
    pub width: u32,
    pub height: u32,
    pub color_type: ColorType,
    /// The name of the layout the file itself stores.
    pub original_color_type: String,
    pub icc_profile: Option<Vec<u8>>,
    pub orientation: Orientation,
}

/// What an image of a color type without a format is refused with.
pub open spec fn color_text(color_type: ColorType, path: Seq<char>) -> Seq<char> {
    "unsupported color type "@ + color_type.text() + " in image '"@ + path + "'"@
}

/// The format an image is handed out as: the one a format module decodes it
/// into, or the one its color type suggests.
pub open spec fn format_of(color_type: ColorType, corrected: Option<PixelFormat>) -> Option<
    PixelFormat,
> {
    match corrected {
        Some(format) => Some(format),
        None => PixelFormat::of_color_type(color_type),
    }
}

/// Whether `info` is what a probe records of what the general decoder reports.
pub open spec fn records(
    info: ImageInfo,
    path: Seq<char>,
    facts: DecoderFacts,
    cicp: Option<Cicp>,
    apply_rotation: bool,
) -> bool {
    &&& info.path@ == path
    &&& info.width == facts.width
    &&& info.height == facts.height
    &&& info.color_type == facts.color_type
    &&& info.original_color_type == facts.original_color_type
    &&& info.has_icc_profile == facts.icc_profile is Some
    &&& info.icc_profile == facts.icc_profile
    &&& info.cicp == cicp
    &&& info.chroma_location is None
    &&& info.orientation == facts.orientation
    &&& info.transform == (if apply_rotation {
        Transform::of_orientation(facts.orientation)
    } else {
        Transform::unchanged()
    })
}

/// Records what the general decoder reports of a file. `corrected` is the format
/// a format module decodes the file into, when it is not the one the color type
/// suggests, and `cicp` the colour its container states.
pub fn probe(
    path: &str,
    facts: DecoderFacts,
    corrected: Option<PixelFormat>,
    cicp: Option<Cicp>,
    apply_rotation: bool,
) -> (info: Result<ImageInfo, ImgSeqError>)
    ensures
        match format_of(facts.color_type, corrected) {
            Some(format) => info matches Ok(info) && info.format == format && records(
                info,
                path@,
                facts,
                cicp,
                apply_rotation,
            ),
            None => error::fails_with(info, color_text(facts.color_type, path@)),
        },
{
    let format = match corrected {
        Some(format) => format,
        None => match PixelFormat::from_color_type(facts.color_type) {
            Some(format) => format,
            None => {
                let mut message = String::from_str("unsupported color type ");
                message.append(facts.color_type.name());
                message.append(" in image '");
                message.append(path);
                message.append("'");
                return Err(ImgSeqError::new(message));
            },
        },
    };
    Ok(
        ImageInfo {
            path: String::from_str(path),
            width: facts.width,
            height: facts.height,
            color_type: facts.color_type,
            original_color_type: facts.original_color_type,
            has_icc_profile: facts.icc_profile.is_some(),
            icc_profile: facts.icc_profile,
            cicp,
            chroma_location: None,
            orientation: facts.orientation,
            transform: if apply_rotation {
                Transform::from_orientation(facts.orientation)
            } else {
                Transform::identity()
            },
            format,
        },
    )
}

/// Rotation turns the picture and never the code that is reported: with rotation
/// on, a picture is shown the way its orientation describes, which swaps width
/// and height for the codes from five to eight, and with rotation off the stored
/// picture is handed out at the stored size.
pub proof fn rotation_never_changes_the_reported_code(
    info: ImageInfo,
    path: Seq<char>,
    facts: DecoderFacts,
    cicp: Option<Cicp>,
    apply_rotation: bool,
    x: int,
    y: int,
)
    requires
        records(info, path, facts, cicp, apply_rotation),
    ensures
        info.orientation == facts.orientation,
        ({
            let stored = (facts.width as int, facts.height as int);
            let shown = info.transform.size(info.width as int, info.height as int);
            &&& shown == (if apply_rotation && facts.orientation.exif() >= 5 {
                (stored.1, stored.0)
            } else {
                stored
            })
            &&& !apply_rotation ==> info.transform.source(x, y, shown.0, shown.1) == (x, y)
        }),
{
    transform::the_last_four_orientations_swap_the_size(facts.orientation);
}

/// What an image the general decoder no longer reports the way the probe did is
/// refused with.
pub open spec fn reopened_text(
    info: ImageInfo,
    width: u32,
    height: u32,
    color_type: ColorType,
) -> Seq<char> {
    "image '"@ + info.path@ + "' changed after probing (was "@ + planar::size_text(
        info.width as int,
        info.height as int,
    ) + " "@ + info.color_type.text() + ", now "@ + planar::size_text(
        width as int,
        height as int,
    ) + " "@ + color_type.text() + ")"@
}

/// What a decode that does not fit the memory of this machine is refused with.
pub open spec fn platform_text(path: Seq<char>) -> Seq<char> {
    "decoded image '"@ + path + "' is too large for this platform"@
}

/// The buffer an image is decoded into by the general decoder, or why there is
/// none.
pub open spec fn decode_size(
    info: ImageInfo,
    width: u32,
    height: u32,
    color_type: ColorType,
    total_bytes: u64,
) -> Result<int, Seq<char>> {
    if width != info.width || height != info.height || color_type != info.color_type {
        Err(reopened_text(info, width, height, color_type))
    } else if total_bytes > usize::MAX {
        Err(platform_text(info.path@))
    } else {
        Ok(total_bytes as int)
    }
}

/// Holds what the general decoder reports of a reopened file against the probe,
/// and sizes the buffer it decodes into.
pub fn decode_plan(
    info: &ImageInfo,
    width: u32,
    height: u32,
    color_type: ColorType,
    total_bytes: u64,
) -> (size: Result<usize, ImgSeqError>)
    ensures
        match (size, decode_size(*info, width, height, color_type, total_bytes)) {
            (Ok(size), Ok(expected)) => size == expected,
            (Err(error), Err(message)) => error@ == error::error_text(message),
            _ => false,
        },
{
    if width != info.width || height != info.height || color_type != info.color_type {
        let mut message = String::from_str("image '");
        message.append(info.path.as_str());
        message.append("' changed after probing (was ");
        let mut message = append_size(message, info.width as usize, info.height as usize);
        message.append(" ");
        message.append(info.color_type.name());
        message.append(", now ");
        let mut message = append_size(message, width as usize, height as usize);
        message.append(" ");
        message.append(color_type.name());
        message.append(")");
        return Err(ImgSeqError::new(message));
    }
    if total_bytes > usize::MAX as u64 {
        let mut message = String::from_str("decoded image '");
        message.append(info.path.as_str());
        message.append("' is too large for this platform");
        return Err(ImgSeqError::new(message));
    }
    Ok(total_bytes as usize)
}

/// Puts what a decode produced together with what the probe recorded.
pub fn decoded(info: &ImageInfo, pixels: Pixels, timings: DecodeTimings) -> (image: DecodedImage)
    ensures
        image.width == info.width,
        image.height == info.height,
        image.format == info.format,
        image.transform == info.transform,
        image.pixels == pixels,
        image.timings == timings,
{
    DecodedImage {
        width: info.width,
        height: info.height,
        format: info.format,
        transform: info.transform,
        pixels,
        timings,
    }
}

/// The extension of a file decides which part decodes it, and the format its probe
/// recorded only whether a heif or an avif is one of those its own part hands out:
/// a webp is always decoded by its own part, a file of another extension by the
/// general decoder, and a yuv format is never left to the general decoder where
/// the extension has a part of its own.
pub proof fn a_format_with_its_own_decoder_is_decoded_by_it(info: ImageInfo)
    ensures
        ({
            let path = info.path@;
            let jp2 = {
                ||| text::has_extension(path, "jp2"@)
                ||| text::has_extension(path, "j2k"@)
                ||| text::has_extension(path, "jpf"@)
                ||| text::has_extension(path, "jpx"@)
                ||| text::has_extension(path, "j2c"@)
            };
            let heif = {
                ||| text::has_extension(path, "heic"@)
                ||| text::has_extension(path, "heics"@)
                ||| text::has_extension(path, "heif"@)
                ||| text::has_extension(path, "hif"@)
            };
            let route = decode_route(info);
            &&& text::has_extension(path, "webp"@) ==> route == Route::Webp
            &&& text::has_extension(path, "jxl"@) ==> route == Route::Jxl
            &&& jp2 ==> route == Route::Jp2
            &&& heif && info.format.family() != ColorFamily::RGB ==> route == Route::Heif
            &&& text::has_extension(path, "avif"@) && info.format.family() == ColorFamily::YUV
                ==> route == Route::Avif
            &&& heif && info.format.family() == ColorFamily::RGB ==> route == Route::General
            &&& text::has_extension(path, "avif"@) && info.format.family() != ColorFamily::YUV
                ==> route == Route::General
            &&& !text::has_extension(path, "jxl"@) && !jp2 && !heif && !text::has_extension(
                path,
                "avif"@,
            ) && !text::has_extension(path, "webp"@) ==> route == Route::General
            &&& info.format.family() == ColorFamily::YUV && (text::has_extension(path, "jxl"@)
                || jp2 || heif || text::has_extension(path, "avif"@) || text::has_extension(
                path,
                "webp"@,
            )) ==> route != Route::General
        }),
{
    lemma_extensions_differ(info.path@);
}

/// The extension of a file decides which part describes it, and every extension
/// without a container this library reads itself is left to the general decoder.
pub proof fn a_container_of_its_own_is_described_by_its_part(path: Seq<char>)
    ensures
        ({
            let jp2 = {
                ||| text::has_extension(path, "jp2"@)
                ||| text::has_extension(path, "j2k"@)
                ||| text::has_extension(path, "jpf"@)
                ||| text::has_extension(path, "jpx"@)
                ||| text::has_extension(path, "j2c"@)
            };
            let heif = {
                ||| text::has_extension(path, "heic"@)
                ||| text::has_extension(path, "heics"@)
                ||| text::has_extension(path, "heif"@)
                ||| text::has_extension(path, "hif"@)
            };
            let route = probe_route(path);
            &&& text::has_extension(path, "jxl"@) ==> route == Route::Jxl
            &&& jp2 ==> route == Route::Jp2
            &&& heif ==> route == Route::Heif
            &&& text::has_extension(path, "avif"@) ==> route == Route::Avif
            &&& !text::has_extension(path, "jxl"@) && !jp2 && !heif && !text::has_extension(
                path,
                "avif"@,
            ) ==> route == Route::General
        }),
{
    lemma_extensions_differ(path);
}

proof fn lemma_other_extension(path: Seq<char>, left: Seq<char>, right: Seq<char>)
    requires
        text::has_extension(path, left),
        left.len() != right.len() || exists|at: int|
            0 <= at < left.len() && text::lower(#[trigger] left[at]) != text::lower(right[at]),
    ensures
        !text::has_extension(path, right),
{
    let found = text::extension_text(path)->Some_0;
    if text::same_text(found, right) {
        assert(left.len() == right.len());
        let at = choose|at: int|
            0 <= at < left.len() && text::lower(#[trigger] left[at]) != text::lower(right[at]);
        assert(text::lower(found[at]) == text::lower(left[at]));
        assert(text::lower(found[at]) == text::lower(right[at]));
    }
}

proof fn lemma_extensions_differ(path: Seq<char>)
    ensures
        !(text::has_extension(path, "jxl"@) && text::has_extension(path, "jp2"@)),
        !(text::has_extension(path, "jxl"@) && text::has_extension(path, "j2k"@)),
        !(text::has_extension(path, "jxl"@) && text::has_extension(path, "jpf"@)),
        !(text::has_extension(path, "jxl"@) && text::has_extension(path, "jpx"@)),
        !(text::has_extension(path, "jxl"@) && text::has_extension(path, "j2c"@)),
        !(text::has_extension(path, "jxl"@) && text::has_extension(path, "heic"@)),
        !(text::has_extension(path, "jxl"@) && text::has_extension(path, "heics"@)),
        !(text::has_extension(path, "jxl"@) && text::has_extension(path, "heif"@)),
        !(text::has_extension(path, "jxl"@) && text::has_extension(path, "hif"@)),
        !(text::has_extension(path, "jxl"@) && text::has_extension(path, "avif"@)),
        !(text::has_extension(path, "jxl"@) && text::has_extension(path, "webp"@)),
        !(text::has_extension(path, "jp2"@) && text::has_extension(path, "heic"@)),
        !(text::has_extension(path, "jp2"@) && text::has_extension(path, "heics"@)),
        !(text::has_extension(path, "jp2"@) && text::has_extension(path, "heif"@)),
        !(text::has_extension(path, "jp2"@) && text::has_extension(path, "hif"@)),
        !(text::has_extension(path, "j2k"@) && text::has_extension(path, "heic"@)),
        !(text::has_extension(path, "j2k"@) && text::has_extension(path, "heics"@)),
        !(text::has_extension(path, "j2k"@) && text::has_extension(path, "heif"@)),
        !(text::has_extension(path, "j2k"@) && text::has_extension(path, "hif"@)),
        !(text::has_extension(path, "jpf"@) && text::has_extension(path, "heic"@)),
        !(text::has_extension(path, "jpf"@) && text::has_extension(path, "heics"@)),
        !(text::has_extension(path, "jpf"@) && text::has_extension(path, "heif"@)),
        !(text::has_extension(path, "jpf"@) && text::has_extension(path, "hif"@)),
        !(text::has_extension(path, "jpx"@) && text::has_extension(path, "heic"@)),
        !(text::has_extension(path, "jpx"@) && text::has_extension(path, "heics"@)),
        !(text::has_extension(path, "jpx"@) && text::has_extension(path, "heif"@)),
        !(text::has_extension(path, "jpx"@) && text::has_extension(path, "hif"@)),
        !(text::has_extension(path, "j2c"@) && text::has_extension(path, "heic"@)),
        !(text::has_extension(path, "j2c"@) && text::has_extension(path, "heics"@)),
        !(text::has_extension(path, "j2c"@) && text::has_extension(path, "heif"@)),
        !(text::has_extension(path, "j2c"@) && text::has_extension(path, "hif"@)),
        !(text::has_extension(path, "jp2"@) && text::has_extension(path, "avif"@)),
        !(text::has_extension(path, "j2k"@) && text::has_extension(path, "avif"@)),
        !(text::has_extension(path, "jpf"@) && text::has_extension(path, "avif"@)),
        !(text::has_extension(path, "jpx"@) && text::has_extension(path, "avif"@)),
        !(text::has_extension(path, "j2c"@) && text::has_extension(path, "avif"@)),
        !(text::has_extension(path, "jp2"@) && text::has_extension(path, "webp"@)),
        !(text::has_extension(path, "j2k"@) && text::has_extension(path, "webp"@)),
        !(text::has_extension(path, "jpf"@) && text::has_extension(path, "webp"@)),
        !(text::has_extension(path, "jpx"@) && text::has_extension(path, "webp"@)),
        !(text::has_extension(path, "j2c"@) && text::has_extension(path, "webp"@)),
        !(text::has_extension(path, "heic"@) && text::has_extension(path, "avif"@)),
        !(text::has_extension(path, "heics"@) && text::has_extension(path, "avif"@)),
        !(text::has_extension(path, "heif"@) && text::has_extension(path, "avif"@)),
        !(text::has_extension(path, "hif"@) && text::has_extension(path, "avif"@)),
        !(text::has_extension(path, "heic"@) && text::has_extension(path, "webp"@)),
        !(text::has_extension(path, "heics"@) && text::has_extension(path, "webp"@)),
        !(text::has_extension(path, "heif"@) && text::has_extension(path, "webp"@)),
        !(text::has_extension(path, "hif"@) && text::has_extension(path, "webp"@)),
        !(text::has_extension(path, "avif"@) && text::has_extension(path, "webp"@)),
{
    reveal_strlit("jxl");
    reveal_strlit("jp2");
    reveal_strlit("j2k");
    reveal_strlit("jpf");
    reveal_strlit("jpx");
    reveal_strlit("j2c");
    reveal_strlit("heic");
    reveal_strlit("heics");
    reveal_strlit("heif");
    reveal_strlit("hif");
    reveal_strlit("avif");
    reveal_strlit("webp");
    if text::has_extension(path, "jxl"@) {
        assert(text::lower("jxl"@[1]) != text::lower("jp2"@[1]));
        lemma_other_extension(path, "jxl"@, "jp2"@);
    }
    if text::has_extension(path, "jxl"@) {
        assert(text::lower("jxl"@[1]) != text::lower("j2k"@[1]));
        lemma_other_extension(path, "jxl"@, "j2k"@);
    }
    if text::has_extension(path, "jxl"@) {
        assert(text::lower("jxl"@[1]) != text::lower("jpf"@[1]));
        lemma_other_extension(path, "jxl"@, "jpf"@);
    }
    if text::has_extension(path, "jxl"@) {
        assert(text::lower("jxl"@[1]) != text::lower("jpx"@[1]));
        lemma_other_extension(path, "jxl"@, "jpx"@);
    }
    if text::has_extension(path, "jxl"@) {
        assert(text::lower("jxl"@[1]) != text::lower("j2c"@[1]));
        lemma_other_extension(path, "jxl"@, "j2c"@);
    }
    if text::has_extension(path, "jxl"@) {
        lemma_other_extension(path, "jxl"@, "heic"@);
    }
    if text::has_extension(path, "jxl"@) {
        lemma_other_extension(path, "jxl"@, "heics"@);
    }
    if text::has_extension(path, "jxl"@) {
        lemma_other_extension(path, "jxl"@, "heif"@);
    }
    if text::has_extension(path, "jxl"@) {
        assert(text::lower("jxl"@[0]) != text::lower("hif"@[0]));
        lemma_other_extension(path, "jxl"@, "hif"@);
    }
    if text::has_extension(path, "jxl"@) {
        lemma_other_extension(path, "jxl"@, "avif"@);
    }
    if text::has_extension(path, "jxl"@) {
        lemma_other_extension(path, "jxl"@, "webp"@);
    }
    if text::has_extension(path, "jp2"@) {
        lemma_other_extension(path, "jp2"@, "heic"@);
    }
    if text::has_extension(path, "jp2"@) {
        lemma_other_extension(path, "jp2"@, "heics"@);
    }
    if text::has_extension(path, "jp2"@) {
        lemma_other_extension(path, "jp2"@, "heif"@);
    }
    if text::has_extension(path, "jp2"@) {
        assert(text::lower("jp2"@[0]) != text::lower("hif"@[0]));
        lemma_other_extension(path, "jp2"@, "hif"@);
    }
    if text::has_extension(path, "j2k"@) {
        lemma_other_extension(path, "j2k"@, "heic"@);
    }
    if text::has_extension(path, "j2k"@) {
        lemma_other_extension(path, "j2k"@, "heics"@);
    }
    if text::has_extension(path, "j2k"@) {
        lemma_other_extension(path, "j2k"@, "heif"@);
    }
    if text::has_extension(path, "j2k"@) {
        assert(text::lower("j2k"@[0]) != text::lower("hif"@[0]));
        lemma_other_extension(path, "j2k"@, "hif"@);
    }
    if text::has_extension(path, "jpf"@) {
        lemma_other_extension(path, "jpf"@, "heic"@);
    }
    if text::has_extension(path, "jpf"@) {
        lemma_other_extension(path, "jpf"@, "heics"@);
    }
    if text::has_extension(path, "jpf"@) {
        lemma_other_extension(path, "jpf"@, "heif"@);
    }
    if text::has_extension(path, "jpf"@) {
        assert(text::lower("jpf"@[0]) != text::lower("hif"@[0]));
        lemma_other_extension(path, "jpf"@, "hif"@);
    }
    if text::has_extension(path, "jpx"@) {
        lemma_other_extension(path, "jpx"@, "heic"@);
    }
    if text::has_extension(path, "jpx"@) {
        lemma_other_extension(path, "jpx"@, "heics"@);
    }
    if text::has_extension(path, "jpx"@) {
        lemma_other_extension(path, "jpx"@, "heif"@);
    }
    if text::has_extension(path, "jpx"@) {
        assert(text::lower("jpx"@[0]) != text::lower("hif"@[0]));
        lemma_other_extension(path, "jpx"@, "hif"@);
    }
    if text::has_extension(path, "j2c"@) {
        lemma_other_extension(path, "j2c"@, "heic"@);
    }
    if text::has_extension(path, "j2c"@) {
        lemma_other_extension(path, "j2c"@, "heics"@);
    }
    if text::has_extension(path, "j2c"@) {
        lemma_other_extension(path, "j2c"@, "heif"@);
    }
    if text::has_extension(path, "j2c"@) {
        assert(text::lower("j2c"@[0]) != text::lower("hif"@[0]));
        lemma_other_extension(path, "j2c"@, "hif"@);
    }
    if text::has_extension(path, "jp2"@) {
        lemma_other_extension(path, "jp2"@, "avif"@);
    }
    if text::has_extension(path, "j2k"@) {
        lemma_other_extension(path, "j2k"@, "avif"@);
    }
    if text::has_extension(path, "jpf"@) {
        lemma_other_extension(path, "jpf"@, "avif"@);
    }
    if text::has_extension(path, "jpx"@) {
        lemma_other_extension(path, "jpx"@, "avif"@);
    }
    if text::has_extension(path, "j2c"@) {
        lemma_other_extension(path, "j2c"@, "avif"@);
    }
    if text::has_extension(path, "jp2"@) {
        lemma_other_extension(path, "jp2"@, "webp"@);
    }
    if text::has_extension(path, "j2k"@) {
        lemma_other_extension(path, "j2k"@, "webp"@);
    }
    if text::has_extension(path, "jpf"@) {
        lemma_other_extension(path, "jpf"@, "webp"@);
    }
    if text::has_extension(path, "jpx"@) {
        lemma_other_extension(path, "jpx"@, "webp"@);
    }
    if text::has_extension(path, "j2c"@) {
        lemma_other_extension(path, "j2c"@, "webp"@);
    }
    if text::has_extension(path, "heic"@) {
        assert(text::lower("heic"@[0]) != text::lower("avif"@[0]));
        lemma_other_extension(path, "heic"@, "avif"@);
    }
    if text::has_extension(path, "heics"@) {
        lemma_other_extension(path, "heics"@, "avif"@);
    }
    if text::has_extension(path, "heif"@) {
        assert(text::lower("heif"@[0]) != text::lower("avif"@[0]));
        lemma_other_extension(path, "heif"@, "avif"@);
    }
    if text::has_extension(path, "hif"@) {
        lemma_other_extension(path, "hif"@, "avif"@);
    }
    if text::has_extension(path, "heic"@) {
        assert(text::lower("heic"@[0]) != text::lower("webp"@[0]));
        lemma_other_extension(path, "heic"@, "webp"@);
    }
    if text::has_extension(path, "heics"@) {
        lemma_other_extension(path, "heics"@, "webp"@);
    }
    if text::has_extension(path, "heif"@) {
        assert(text::lower("heif"@[0]) != text::lower("webp"@[0]));
        lemma_other_extension(path, "heif"@, "webp"@);
    }
    if text::has_extension(path, "hif"@) {
        lemma_other_extension(path, "hif"@, "webp"@);
    }
    if text::has_extension(path, "avif"@) {
        assert(text::lower("avif"@[0]) != text::lower("webp"@[0]));
        lemma_other_extension(path, "avif"@, "webp"@);
    }
}

/// A probe records the facts of the decoder as they are: the size the file holds,
/// its colour type, the profile if there is one, the colour of the container, and
/// the orientation, which turns the picture only where rotation is asked for. The
/// format is the one a format module corrects it to, or else the one of the colour
/// type.
pub proof fn a_probe_records_what_the_decoder_reports(
    info: ImageInfo,
    path: Seq<char>,
    facts: DecoderFacts,
    corrected: Option<PixelFormat>,
    cicp: Option<Cicp>,
    apply_rotation: bool,
    x: int,
    y: int,
    width: int,
    height: int,
)
    requires
        records(info, path, facts, cicp, apply_rotation),
    ensures
        info.path@ == path,
        info.width == facts.width,
        info.height == facts.height,
        info.color_type == facts.color_type,
        info.original_color_type@ == facts.original_color_type@,
        info.cicp == cicp,
        info.orientation == facts.orientation,
        info.has_icc_profile == info.icc_profile is Some,
        match (facts.icc_profile, info.icc_profile) {
            (Some(stated), Some(held)) => stated@ == held@,
            (None, None) => true,
            _ => false,
        },
        corrected is Some ==> format_of(facts.color_type, corrected) == corrected,
        corrected is None ==> match format_of(facts.color_type, corrected) {
            Some(format) => facts.color_type != ColorType::Unknown && format.family()
                != ColorFamily::YUV,
            None => facts.color_type == ColorType::Unknown,
        },
        ({
            let (column, row) = info.transform.source(x, y, width, height);
            if !apply_rotation {
                column == x && row == y && !info.transform.transpose
            } else {
                match facts.orientation {
                    Orientation::NoTransforms => column == x && row == y,
                    Orientation::FlipHorizontal => column == width - 1 - x && row == y,
                    Orientation::Rotate180 => column == width - 1 - x && row == height - 1 - y,
                    Orientation::FlipVertical => column == x && row == height - 1 - y,
                    Orientation::Rotate90FlipH => column == y && row == x,
                    Orientation::Rotate90 => column == y && row == width - 1 - x,
                    Orientation::Rotate270FlipH => column == height - 1 - y && row == width - 1
                        - x,
                    Orientation::Rotate270 => column == height - 1 - y && row == x,
                }
            }
        }),
{
}

/// A file is decoded by the general decoder only while it still reports what was probed,
/// and then into as many bytes as the decoder asks for.
pub proof fn a_file_is_decoded_while_it_is_the_probed_one(
    info: ImageInfo,
    width: u32,
    height: u32,
    color_type: ColorType,
    total_bytes: u64,
)
    ensures
        match decode_size(info, width, height, color_type, total_bytes) {
            Ok(size) => {
                &&& width == info.width
                &&& height == info.height
                &&& color_type == info.color_type
                &&& size == total_bytes
            },
            Err(_) => width != info.width || height != info.height || color_type
                != info.color_type || total_bytes > usize::MAX,
        },
{
}

} // verus!
