//! Turning the coded items of an avif into the planes of a frame.

use vstd::prelude::*;

use crate::decoder;
use crate::decoder::{image_error, ImageInfo};
use crate::error::{self, ImgSeqError};
use crate::formats::avif;
use crate::formats::avif::{yuv_format, AvifHeader};
use crate::formats::meta;
use crate::formats::meta::Meta;
use crate::formats::rows;
use crate::formats::rows::pack_rows;
use crate::frame::ColorFamily;
use crate::image_types::ColorType;
use crate::pixel::layout;
use crate::pixel::pixel_format;
use crate::pixel::pixel_format::alpha_channel;
use crate::pixel::planar;
use crate::pixel::PixelFormat;
use crate::text;
use crate::text::decimal;

verus! {

/// How the planes of a coded picture are sampled.
#[derive(Clone, Copy, Debug, PartialEq, Eq, Structural)]
pub enum PixelLayout {
    /// One plane of luma.
    I400,
    I420,
    I422,
    I444,
}

impl PixelLayout {
    /// The name a message gives this layout.
    pub open spec fn text(self) -> Seq<char> {
        match self {
            PixelLayout::I400 => "I400"@,
            PixelLayout::I420 => "I420"@,
            PixelLayout::I422 => "I422"@,
            PixelLayout::I444 => "I444"@,
        }
    }

    /// The name a message gives this layout.
    pub fn name(self) -> (name: &'static str)
        ensures
            name@ == self.text(),
    {
        match self {
            PixelLayout::I400 => "I400",
            PixelLayout::I420 => "I420",
            PixelLayout::I422 => "I422",
            PixelLayout::I444 => "I444",
        }
    }
}

/// One plane of a coded picture: its rows, each `stride` bytes after the one
/// before it.
pub struct CodedPlane<'a> {
    pub stride: usize,
    pub data: &'a [u8],
}

/// A coded picture, as its decoder hands it over.
pub struct CodedPicture<'a> {
    pub width: u32,
    pub height: u32,
    pub layout: PixelLayout,
    /// Bits of one sample, where the decoder states them.
    pub depth: Option<usize>,
    pub planes: Vec<CodedPlane<'a>>,
}

/// The layout dav1d reports for a format this module hands out.
pub open spec fn layout_of(format: PixelFormat) -> PixelLayout {
    match format {
        PixelFormat::Yuv422P8 | PixelFormat::Yuv422P10 => PixelLayout::I422,
        PixelFormat::Yuv444P8 | PixelFormat::Yuv444P10 | PixelFormat::Yuv444P12 => {
            PixelLayout::I444
        },
        _ => PixelLayout::I420,
    }
}

/// The layout dav1d reports for a format this module hands out.
pub fn expected_layout(format: PixelFormat) -> (layout: PixelLayout)
    ensures
        layout == layout_of(format),
{
    match format {
        PixelFormat::Yuv422P8 | PixelFormat::Yuv422P10 => PixelLayout::I422,
        PixelFormat::Yuv444P8 | PixelFormat::Yuv444P10 | PixelFormat::Yuv444P12 => {
            PixelLayout::I444
        },
        _ => PixelLayout::I420,
    }
}

/// The number of bits a format names.
pub fn nominal_depth(format: PixelFormat) -> (depth: usize)
    ensures
        depth == format.bits(),
{
    format.bits_per_sample() as usize
}

/// An optional name as a message writes it.
pub open spec fn optional_name(name: Option<Seq<char>>) -> Seq<char> {
    match name {
        Some(name) => "Some(\""@ + name + "\")"@,
        None => "None"@,
    }
}

/// An optional number as a message writes it.
pub open spec fn optional_number(number: Option<usize>) -> Seq<char> {
    match number {
        Some(number) => "Some("@ + text::decimal_text(number as nat) + ")"@,
        None => "None"@,
    }
}

/// What an avif whose boxes describe another image than its probe is refused
/// with.
pub open spec fn changed_text(info: ImageInfo, header: AvifHeader) -> Seq<char> {
    let format = avif::yuv_of(header.chroma as int, header.depth as int);
    "image '"@ + info.path@ + "' changed after probing (was "@ + planar::size_text(
        info.width as int,
        info.height as int,
    ) + " "@ + info.format.text() + ", now "@ + planar::size_text(
        header.width as int,
        header.height as int,
    ) + " "@ + optional_name(
        match format {
            Some(format) => Some(format.text()),
            None => None,
        },
    ) + ")"@
}

fn changed_error(info: &ImageInfo, header: &AvifHeader) -> (error: ImgSeqError)
    ensures
        error@ == error::error_text(changed_text(*info, *header)),
{
    let mut message = String::from_str("image '");
    message.append(info.path.as_str());
    message.append("' changed after probing (was ");
    let mut message = planar::append_size(message, info.width as usize, info.height as usize);
    message.append(" ");
    message.append(info.format.name());
    message.append(", now ");
    let mut message = planar::append_size(message, header.width as usize, header.height as usize);
    message.append(" ");
    let name = match yuv_format(header.chroma, header.depth) {
        Some(format) => {
            let mut name = String::from_str("Some(\"");
            name.append(format.name());
            name.append("\")");
            name
        },
        None => String::from_str("None"),
    };
    message.append(name.as_str());
    message.append(")");
    ImgSeqError::new(message)
}

/// What the leading boxes of an avif that is decoded say, or why it cannot be
/// decoded.
pub open spec fn decode_boxes(info: ImageInfo, data: Seq<u8>) -> Result<
    meta::MetaView,
    Seq<char>,
> {
    match meta::meta_of(data) {
        None => Err(
            decoder::image_error_text(
                "read the boxes of"@,
                info.path@,
                "malformed item boxes"@,
            ),
        ),
        Some(boxes) => if boxes.grid {
            Err(
                decoder::image_error_text(
                    "read the boxes of"@,
                    info.path@,
                    "its primary item is a grid of tiles, which this reader does not join"@,
                ),
            )
        } else {
            match boxes.primary_list() {
                None => Err(
                    decoder::image_error_text(
                        "read the boxes of"@,
                        info.path@,
                        "no properties for the primary item"@,
                    ),
                ),
                Some(properties) => match avif::header_of(data, properties) {
                    None => Err(
                        decoder::image_error_text(
                            "read the boxes of"@,
                            info.path@,
                            "no coding record"@,
                        ),
                    ),
                    Some(header) => if header.width != info.width || header.height != info.height
                        || avif::yuv_of(header.chroma as int, header.depth as int) != Some(
                        info.format,
                    ) {
                        Err(changed_text(info, header))
                    } else {
                        Ok(boxes)
                    },
                },
            }
        },
    }
}

/// Reads the leading boxes of an avif that is decoded, and checks that they
/// still describe the image its probe recorded.
pub fn read_boxes(info: &ImageInfo, data: &[u8]) -> (boxes: Result<Meta, ImgSeqError>)
    ensures
        match (boxes, decode_boxes(*info, data@)) {
            (Ok(boxes), Ok(expected)) => boxes@ == expected && boxes@.valid(),
            (Err(error), Err(message)) => error@ == error::error_text(message),
            _ => false,
        },
{
    let boxes = match Meta::read(data) {
        Some(boxes) => boxes,
        None => {
            return Err(
                image_error("read the boxes of", info.path.as_str(), "malformed item boxes"),
            );
        },
    };
    if boxes.grid {
        return Err(
            image_error(
                "read the boxes of",
                info.path.as_str(),
                "its primary item is a grid of tiles, which this reader does not join",
            ),
        );
    }
    let properties = match boxes.primary_properties() {
        Some(properties) => properties,
        None => {
            return Err(
                image_error(
                    "read the boxes of",
                    info.path.as_str(),
                    "no properties for the primary item",
                ),
            );
        },
    };
    let header = match AvifHeader::read(data, &properties) {
        Some(header) => header,
        None => {
            return Err(
                image_error("read the boxes of", info.path.as_str(), "no coding record"),
            );
        },
    };
    let same_format = match yuv_format(header.chroma, header.depth) {
        Some(format) => format == info.format,
        None => false,
    };
    if header.width != info.width || header.height != info.height || !same_format {
        return Err(changed_error(info, &header));
    }
    Ok(boxes)
}

/// Where the alpha item of an image that is probed with an alpha channel is, or
/// why it cannot be read.
pub open spec fn decode_alpha_range(info: ImageInfo, boxes: meta::MetaView) -> Result<
    Option<(int, int)>,
    Seq<char>,
> {
    if pixel_format::alpha_index(info.color_type) is None {
        Ok(None)
    } else {
        match boxes.alpha_range(usize::MAX as int) {
            Err(message) => Err(message),
            Ok(Some(range)) => Ok(Some(range)),
            Ok(None) => Err(
                decoder::image_error_text(
                    "read the alpha item of"@,
                    info.path@,
                    "the container holds none"@,
                ),
            ),
        }
    }
}

/// Finds the alpha item of an image that is probed with an alpha channel.
pub fn alpha_item(info: &ImageInfo, boxes: &Meta) -> (range: Result<
    Option<(usize, usize)>,
    ImgSeqError,
>)
    requires
        boxes@.valid(),
    ensures
        match (range, decode_alpha_range(*info, boxes@)) {
            (Ok(Some(range)), Ok(Some(expected))) => (range.0 as int, range.1 as int) == expected,
            (Ok(None), Ok(None)) => true,
            (Err(error), Err(message)) => error@ == error::error_text(message),
            _ => false,
        },
{
    if alpha_channel(info.color_type).is_none() {
        return Ok(None);
    }
    match boxes.alpha_data(usize::MAX) {
        Ok(Some(range)) => Ok(Some(range)),
        Ok(None) => Err(
            image_error(
                "read the alpha item of",
                info.path.as_str(),
                "the container holds none",
            ),
        ),
        Err(error) => Err(error),
    }
}

/// Row bytes, height and size of a plane of `width` x `height` samples of `word`
/// bytes, or why it is too large.
pub open spec fn packed_size(width: int, height: int, word: int) -> Result<
    (int, int, int),
    Seq<char>,
> {
    if width * word > usize::MAX {
        Err("image row is too large"@)
    } else if width * word * height > usize::MAX {
        Err("image is too large"@)
    } else {
        Ok((width * word, height, width * word * height))
    }
}

/// Row bytes of one plane of the frame, its height, and how many bytes the plane
/// holds, or why it is too large.
pub open spec fn plane_size_of(info: ImageInfo, plane: int) -> Result<(int, int, int), Seq<char>> {
    let (width, height) = info.format.decoded_plane(plane, info.width as int, info.height as int);
    packed_size(width, height, info.format.word())
}

/// Row bytes, height and size of the alpha plane, which is never subsampled, or
/// why it is too large.
pub open spec fn alpha_size_of(info: ImageInfo) -> Result<(int, int, int), Seq<char>> {
    packed_size(info.width as int, info.height as int, info.format.alpha().word())
}

fn checked_size(width: usize, height: usize, word: usize) -> (size: Result<
    (usize, usize, usize),
    ImgSeqError,
>)
    ensures
        match (size, packed_size(width as int, height as int, word as int)) {
            (Ok(size), Ok(expected)) => (size.0 as int, size.1 as int, size.2 as int) == expected,
            (Err(error), Err(message)) => error@ == error::error_text(message),
            _ => false,
        },
{
    match width.checked_mul(word) {
        Some(row) => match row.checked_mul(height) {
            Some(size) => Ok((row, height, size)),
            None => Err(ImgSeqError::from_display("image is too large")),
        },
        None => Err(ImgSeqError::from_display("image row is too large")),
    }
}

/// Row bytes of one plane of the frame, its height, and how many bytes the plane
/// holds.
pub fn plane_size(info: &ImageInfo, plane: usize) -> (size: Result<
    (usize, usize, usize),
    ImgSeqError,
>)
    ensures
        match (size, plane_size_of(*info, plane as int)) {
            (Ok(size), Ok(expected)) => (size.0 as int, size.1 as int, size.2 as int) == expected,
            (Err(error), Err(message)) => error@ == error::error_text(message),
            _ => false,
        },
{
    let (width, height) = info.format.plane_dimensions(
        plane,
        info.width as usize,
        info.height as usize,
    );
    checked_size(width, height, info.format.bytes_per_sample())
}

/// Row bytes, height and size of the alpha plane, which is never subsampled.
pub fn alpha_plane_size(info: &ImageInfo) -> (size: Result<(usize, usize, usize), ImgSeqError>)
    ensures
        match (size, alpha_size_of(*info)) {
            (Ok(size), Ok(expected)) => (size.0 as int, size.1 as int, size.2 as int) == expected,
            (Err(error), Err(message)) => error@ == error::error_text(message),
            _ => false,
        },
{
    checked_size(
        info.width as usize,
        info.height as usize,
        info.format.alpha_format().bytes_per_sample(),
    )
}

/// Why plane `plane` of the frame cannot be held, if it cannot.
pub open spec fn size_problem(info: ImageInfo, plane: int) -> Option<Seq<char>> {
    match plane_size_of(info, plane) {
        Err(message) => Some(message),
        Ok(_) => None,
    }
}

/// Planes of the frame that can be held, counted from the first one on.
pub open spec fn fine_sizes(info: ImageInfo, count: int) -> int {
    layout::leading_fine(|plane: int| size_problem(info, plane), count)
}

/// Why the planes of an image cannot be held, if they cannot: the problem of the
/// first plane that is too large, or of the alpha plane where one was probed.
pub open spec fn buffers_problem(info: ImageInfo) -> Option<Seq<char>> {
    let count = info.format.planes();
    let fine = fine_sizes(info, count);
    if fine < count {
        size_problem(info, fine)
    } else if pixel_format::alpha_index(info.color_type) is Some {
        match alpha_size_of(info) {
            Err(message) => Some(message),
            Ok(_) => None,
        }
    } else {
        None
    }
}

/// Bytes of every plane of the frame an image is written into, and of its alpha
/// plane where one was probed.
pub fn buffer_sizes(info: &ImageInfo) -> (sizes: Result<(Vec<usize>, Option<usize>), ImgSeqError>)
    ensures
        match (sizes, buffers_problem(*info)) {
            (Ok((planes, alpha)), None) => {
                &&& planes@.len() == info.format.planes()
                &&& forall|plane: int|
                    0 <= plane < planes@.len() ==> plane_size_of(*info, plane)->Ok_0.2
                        == #[trigger] planes@[plane]
                &&& match alpha {
                    Some(alpha) => pixel_format::alpha_index(info.color_type) is Some
                        && alpha_size_of(*info)->Ok_0.2 == alpha,
                    None => pixel_format::alpha_index(info.color_type) is None,
                }
            },
            (Err(error), Some(message)) => error@ == error::error_text(message),
            _ => false,
        },
{
    let count: usize = info.format.plane_count();
    let mut planes: Vec<usize> = Vec::new();
    let ghost problem = |at: int| size_problem(*info, at);
    let mut plane: usize = 0;
    while plane < count
        invariant
            plane <= count,
            count == info.format.planes(),
            problem == (|at: int| size_problem(*info, at)),
            layout::leading_fine(problem, plane as int) == plane,
            planes@.len() == plane,
            forall|at: int|
                0 <= at < plane ==> plane_size_of(*info, at)->Ok_0.2 == #[trigger] planes@[at],
        decreases count - plane,
    {
        match plane_size(info, plane) {
            Ok((_, _, size)) => {
                planes.push(size);
            },
            Err(error) => {
                proof {
                    layout::lemma_leading_fine_stops(problem, plane as int, count as int);
                }
                return Err(error);
            },
        }
        plane += 1;
    }
    if alpha_channel(info.color_type).is_none() {
        return Ok((planes, None));
    }
    match alpha_plane_size(info) {
        Ok((_, _, size)) => Ok((planes, Some(size))),
        Err(error) => Err(error),
    }
}

/// Why the rows of a decoded plane cannot be copied, if they cannot: every row
/// has to be as wide as the frame's, and the buffer has to hold them all.
pub open spec fn rows_problem(
    row: int,
    stride: int,
    height: int,
    len: int,
    name: Seq<char>,
    path: Seq<char>,
) -> Option<Seq<char>> {
    if stride < row {
        Some(
            "the decoded "@ + name + " plane of '"@ + path + "' has a stride of "@
                + text::decimal_text(stride as nat) + " bytes, less than the "@
                + text::decimal_text(row as nat) + " the frame needs"@,
        )
    } else if !rows::rows_fit(row, stride, height, len) {
        Some(
            "the decoded "@ + name + " plane of '"@ + path + "' is shorter than its own rows"@,
        )
    } else {
        None
    }
}

/// Copies the rows of one decoded plane into a tightly packed buffer. The
/// decoder lays a plane out with a stride of its own, which is what the frame
/// format does not have room for.
pub fn copy_rows(row: usize, stride: usize, height: usize, data: &[u8], name: &str, path: &str) -> (
    packed: Result<Vec<u8>, ImgSeqError>)
    requires
        0 < row,
        height * row <= usize::MAX,
    ensures
        match (
            packed,
            rows_problem(
                row as int,
                stride as int,
                height as int,
                data@.len() as int,
                name@,
                path@,
            ),
        ) {
            (Ok(packed), None) => packed@ == rows::packed_rows(
                data@,
                row as int,
                stride as int,
                height as int,
            ),
            (Err(error), Some(message)) => error@ == error::error_text(message),
            _ => false,
        },
{
    if stride < row {
        let mut message = String::from_str("the decoded ");
        message.append(name);
        message.append(" plane of '");
        message.append(path);
        message.append("' has a stride of ");
        message.append(decimal(stride as u64).as_str());
        message.append(" bytes, less than the ");
        message.append(decimal(row as u64).as_str());
        message.append(" the frame needs");
        return Err(ImgSeqError::new(message));
    }
    match pack_rows(row, stride, height, data) {
        Some(packed) => Ok(packed),
        None => {
            let mut message = String::from_str("the decoded ");
            message.append(name);
            message.append(" plane of '");
            message.append(path);
            message.append("' is shorter than its own rows");
            Err(ImgSeqError::new(message))
        },
    }
}

/// What a picture that is not the one its container describes is refused with.
pub open spec fn picture_text(info: ImageInfo, picture: CodedPicture) -> Seq<char> {
    "image '"@ + info.path@ + "' is not the "@ + info.format.text()
        + " its container describes (coded as "@ + picture.layout.text() + " "@ + optional_number(
        picture.depth,
    ) + " bit "@ + planar::size_text(picture.width as int, picture.height as int) + ")"@
}

/// Whether a coded picture is what the probe recorded.
pub open spec fn picture_matches(info: ImageInfo, picture: CodedPicture) -> bool {
    &&& picture.width == info.width
    &&& picture.height == info.height
    &&& picture.layout == (if info.format.planes() == 1 {
        PixelLayout::I400
    } else {
        layout_of(info.format)
    })
    &&& picture.depth matches Some(depth) && depth == info.format.bits()
}

/// Checks the coded picture against what the probe recorded.
pub fn check_picture(picture: &CodedPicture<'_>, info: &ImageInfo) -> (checked: Result<
    (),
    ImgSeqError,
>)
    ensures
        if picture_matches(*info, *picture) {
            checked is Ok
        } else {
            error::fails_with(checked, picture_text(*info, *picture))
        },
{
    let wanted = match info.format.plane_count() {
        1 => PixelLayout::I400,
        _ => expected_layout(info.format),
    };
    let depth_matches = match picture.depth {
        Some(depth) => depth == nominal_depth(info.format),
        None => false,
    };
    if picture.width == info.width && picture.height == info.height && picture.layout == wanted
        && depth_matches {
        return Ok(());
    }
    let mut message = String::from_str("image '");
    message.append(info.path.as_str());
    message.append("' is not the ");
    message.append(info.format.name());
    message.append(" its container describes (coded as ");
    message.append(picture.layout.name());
    message.append(" ");
    let depth = match picture.depth {
        Some(depth) => {
            let mut number = String::from_str("Some(");
            number.append(decimal(depth as u64).as_str());
            number.append(")");
            number
        },
        None => String::from_str("None"),
    };
    message.append(depth.as_str());
    message.append(" bit ");
    let mut message = planar::append_size(
        message,
        picture.width as usize,
        picture.height as usize,
    );
    message.append(")");
    Err(ImgSeqError::new(message))
}

/// What a message calls a plane.
pub open spec fn plane_name(plane: int) -> Seq<char> {
    if plane == 0 {
        "luma"@
    } else {
        "chroma"@
    }
}

/// Why plane `plane` of a picture cannot be copied, if it cannot.
pub open spec fn picture_plane_problem(
    info: ImageInfo,
    picture: CodedPicture,
    plane: int,
) -> Option<Seq<char>> {
    match plane_size_of(info, plane) {
        Err(message) => Some(message),
        Ok((row, height, _)) => rows_problem(
            row,
            picture.planes@[plane].stride as int,
            height,
            picture.planes@[plane].data@.len() as int,
            plane_name(plane),
            info.path@,
        ),
    }
}

/// Plane `plane` of a picture as the frame holds it, tightly packed.
pub open spec fn picture_plane(info: ImageInfo, picture: CodedPicture, plane: int) -> Seq<u8> {
    let (row, height, _) = plane_size_of(info, plane)->Ok_0;
    rows::packed_rows(
        picture.planes@[plane].data@,
        row,
        picture.planes@[plane].stride as int,
        height,
    )
}

/// Copies one plane of a decoded picture into a tightly packed buffer, dropping
/// the stride padding the decoder leaves between rows.
pub fn copy_plane(picture: &CodedPicture<'_>, info: &ImageInfo, plane: usize) -> (packed: Result<
    Vec<u8>,
    ImgSeqError,
>)
    requires
        plane_size_of(*info, plane as int) is Ok ==> 0 < info.width && plane
            < picture.planes@.len(),
    ensures
        match (packed, picture_plane_problem(*info, *picture, plane as int)) {
            (Ok(packed), None) => packed@ == picture_plane(*info, *picture, plane as int),
            (Err(error), Some(message)) => error@ == error::error_text(message),
            _ => false,
        },
{
    let (row, height, size) = match plane_size(info, plane) {
        Ok(size) => size,
        Err(error) => {
            return Err(error);
        },
    };
    proof {
        let (width, _) = info.format.decoded_plane(
            plane as int,
            info.width as int,
            info.height as int,
        );
        assert(0 < width * info.format.word()) by (nonlinear_arith)
            requires
                0 < width,
                0 < info.format.word(),
        ;
        assert(height * row == row * height) by (nonlinear_arith);
    }
    let name = if plane == 0 {
        "luma"
    } else {
        "chroma"
    };
    copy_rows(
        row,
        picture.planes[plane].stride,
        height,
        picture.planes[plane].data,
        name,
        info.path.as_str(),
    )
}

/// Whether `planes` are the planes of a picture.
pub open spec fn planes_of(
    info: ImageInfo,
    picture: CodedPicture,
    planes: Seq<Vec<u8>>,
    count: int,
) -> bool {
    &&& planes.len() == count
    &&& forall|plane: int|
        0 <= plane < count ==> (#[trigger] planes[plane])@ == picture_plane(info, picture, plane)
}

/// Planes of a picture that can be copied, counted from the first one on.
pub open spec fn fine_pictures(info: ImageInfo, picture: CodedPicture, count: int) -> int {
    layout::leading_fine(|plane: int| picture_plane_problem(info, picture, plane), count)
}

/// Copies the planes of the picture of the primary item, once they can be held
/// and it is the one the container describes.
pub fn decode(info: &ImageInfo, picture: &CodedPicture<'_>) -> (planes: Result<
    Vec<Vec<u8>>,
    ImgSeqError,
>)
    requires
        buffers_problem(*info) is None && picture_matches(*info, *picture) ==> 0 < info.width
            && picture.planes@.len() >= info.format.planes(),
    ensures
        ({
            let count = info.format.planes();
            let fine = fine_pictures(*info, *picture, count);
            if buffers_problem(*info) is Some {
                error::fails_with(planes, buffers_problem(*info).unwrap())
            } else if !picture_matches(*info, *picture) {
                error::fails_with(planes, picture_text(*info, *picture))
            } else if fine < count {
                error::fails_with(
                    planes,
                    picture_plane_problem(*info, *picture, fine).unwrap(),
                )
            } else {
                planes matches Ok(planes) && planes_of(*info, *picture, planes@, count)
            }
        }),
{
    match buffer_sizes(info) {
        Ok(_) => {},
        Err(error) => {
            return Err(error);
        },
    }
    match check_picture(picture, info) {
        Ok(_) => {},
        Err(error) => {
            return Err(error);
        },
    }
    let count: usize = info.format.plane_count();
    let mut planes: Vec<Vec<u8>> = Vec::new();
    let ghost problem = |at: int| picture_plane_problem(*info, *picture, at);
    let mut plane: usize = 0;
    while plane < count
        invariant
            plane <= count,
            count == info.format.planes(),
            0 < info.width,
            picture.planes@.len() >= count,
            buffers_problem(*info) is None,
            picture_matches(*info, *picture),
            problem == (|at: int| picture_plane_problem(*info, *picture, at)),
            layout::leading_fine(problem, plane as int) == plane,
            planes_of(*info, *picture, planes@, plane as int),
        decreases count - plane,
    {
        match copy_plane(picture, info, plane) {
            Ok(packed) => {
                planes.push(packed);
            },
            Err(error) => {
                proof {
                    layout::lemma_leading_fine_stops(problem, plane as int, count as int);
                }
                return Err(error);
            },
        }
        plane += 1;
    }
    Ok(planes)
}

/// Whether a picture is the alpha item of an image: one plane at the depth of
/// the image it belongs to.
pub open spec fn alpha_matches(info: ImageInfo, picture: CodedPicture) -> bool {
    &&& picture.layout == PixelLayout::I400
    &&& picture.depth matches Some(depth) && depth == info.format.alpha().bits()
}

/// Why the picture of an alpha item cannot be copied, if it cannot.
pub open spec fn alpha_problem(info: ImageInfo, picture: CodedPicture) -> Option<Seq<char>> {
    if !alpha_matches(info, picture) {
        Some(
            decoder::image_error_text(
                "decode the alpha item of"@,
                info.path@,
                "it is not the depth of the image it belongs to"@,
            ),
        )
    } else {
        match alpha_size_of(info) {
            Err(message) => Some(message),
            Ok((row, height, _)) => rows_problem(
                row,
                picture.planes@[0].stride as int,
                height,
                picture.planes@[0].data@.len() as int,
                "alpha"@,
                info.path@,
            ),
        }
    }
}

/// Copies the alpha item into the buffer the alpha clip is written from.
pub fn copy_alpha(info: &ImageInfo, picture: &CodedPicture<'_>) -> (packed: Result<
    Vec<u8>,
    ImgSeqError,
>)
    requires
        alpha_matches(*info, *picture) && alpha_size_of(*info) is Ok ==> 0 < info.width
            && picture.planes@.len() >= 1,
    ensures
        match (packed, alpha_problem(*info, *picture)) {
            (Ok(packed), None) => packed@ == rows::packed_rows(
                picture.planes@[0].data@,
                alpha_size_of(*info)->Ok_0.0,
                picture.planes@[0].stride as int,
                alpha_size_of(*info)->Ok_0.1,
            ),
            (Err(error), Some(message)) => error@ == error::error_text(message),
            _ => false,
        },
{
    let depth_matches = match picture.depth {
        Some(depth) => depth == nominal_depth(info.format.alpha_format()),
        None => false,
    };
    if picture.layout != PixelLayout::I400 || !depth_matches {
        return Err(
            image_error(
                "decode the alpha item of",
                info.path.as_str(),
                "it is not the depth of the image it belongs to",
            ),
        );
    }
    let (row, height, size) = match alpha_plane_size(info) {
        Ok(size) => size,
        Err(error) => {
            return Err(error);
        },
    };
    proof {
        let word = info.format.alpha().word();
        assert(0 < info.width * word) by (nonlinear_arith)
            requires
                0 < info.width,
                0 < word,
        ;
        assert(height * row == row * height) by (nonlinear_arith);
    }
    copy_rows(
        row,
        picture.planes[0].stride,
        height,
        picture.planes[0].data,
        "alpha",
        info.path.as_str(),
    )
}

/// A plane of a frame is copied sample by sample out of the plane the decoder hands
/// over, row by row at its stride: luma at the size of the image, chroma with half
/// the columns or rows, rounded up, where the format halves them.
pub proof fn a_plane_is_copied_sample_by_sample(
    info: ImageInfo,
    picture: CodedPicture,
    planes: Seq<Vec<u8>>,
    count: int,
    plane: int,
    x: int,
    y: int,
    byte: int,
)
    requires
        planes_of(info, picture, planes, count),
        0 <= plane < count,
        picture_plane_problem(info, picture, plane) is None,
        0 <= x < (if plane > 0 && info.format.subsampling().0 == 1 {
            (info.width + 1) / 2
        } else {
            info.width as int
        }),
        0 <= y < (if plane > 0 && info.format.subsampling().1 == 1 {
            (info.height + 1) / 2
        } else {
            info.height as int
        }),
        0 <= byte < info.format.word(),
    ensures
        ({
            let width = if plane > 0 && info.format.subsampling().0 == 1 {
                (info.width + 1) / 2
            } else {
                info.width as int
            };
            let height = if plane > 0 && info.format.subsampling().1 == 1 {
                (info.height + 1) / 2
            } else {
                info.height as int
            };
            let word = info.format.word();
            let coded = picture.planes@[plane];
            &&& planes.len() == count
            &&& planes[plane]@.len() == width * word * height
            &&& width * word <= coded.stride
            &&& y * coded.stride + (x * word + byte) < coded.data@.len()
            &&& planes[plane]@[y * (width * word) + (x * word + byte)] == coded.data@[y
                * coded.stride + (x * word + byte)]
        }),
{
    let width = if plane > 0 && info.format.subsampling().0 == 1 {
        (info.width + 1) / 2
    } else {
        info.width as int
    };
    let height = if plane > 0 && info.format.subsampling().1 == 1 {
        (info.height + 1) / 2
    } else {
        info.height as int
    };
    let word = info.format.word();
    let coded = picture.planes@[plane];
    let stride = coded.stride as int;
    let row = width * word;
    let column = x * word + byte;
    assert(info.format.decoded_plane(plane, info.width as int, info.height as int) == (
        width,
        height,
    ));
    assert(planes[plane]@ == picture_plane(info, picture, plane));
    assert(0 <= column < row) by (nonlinear_arith)
        requires
            0 <= x < width,
            0 <= byte < word,
            column == x * word + byte,
            row == width * word,
    ;
    rows::a_packed_row_leaves_the_gap_behind(coded.data@, row, stride, height, column, y);
    assert(y * stride <= (height - 1) * stride) by (nonlinear_arith)
        requires
            y <= height - 1,
            0 <= stride,
    ;
}

/// A decoded picture is taken for the probed one just when its size, its sampling and
/// its depth are those of the format: one plane for gray, and chroma halved both
/// ways, across, or not at all as the format has it.
pub proof fn a_picture_is_taken_when_it_is_the_probed_one(info: ImageInfo, picture: CodedPicture)
    requires
        info.format.planes() == 1 || info.format.family() == ColorFamily::YUV,
    ensures
        picture_matches(info, picture) ==> {
            &&& picture.width == info.width
            &&& picture.height == info.height
            &&& picture.depth matches Some(depth) && depth == info.format.bits()
            &&& (picture.layout == PixelLayout::I400) == (info.format.family()
                == ColorFamily::Gray)
        },
        picture_matches(info, picture) && info.format != PixelFormat::Yuv444P16 ==> match
            picture.layout {
            PixelLayout::I400 => info.format.planes() == 1,
            PixelLayout::I420 => info.format.subsampling() == (1int, 1int),
            PixelLayout::I422 => info.format.subsampling() == (1int, 0int),
            PixelLayout::I444 => info.format.planes() == 3 && info.format.subsampling() == (
                0int,
                0int,
            ),
        },
        picture.width == info.width && picture.height == info.height && (picture.depth matches Some(
            depth,
        ) && depth == info.format.bits()) && info.format != PixelFormat::Yuv444P16 && (
        match picture.layout {
            PixelLayout::I400 => info.format.planes() == 1,
            PixelLayout::I420 => info.format.subsampling() == (1int, 1int),
            PixelLayout::I422 => info.format.subsampling() == (1int, 0int),
            PixelLayout::I444 => info.format.planes() == 3 && info.format.subsampling() == (
                0int,
                0int,
            ),
        }) ==> picture_matches(info, picture),
{
}

/// An alpha item is taken when it is a single plane of the depth of the image, and
/// its plane is as large as the image whatever the chroma of the image is.
pub proof fn an_alpha_item_is_one_plane_of_the_depth_of_its_image(
    info: ImageInfo,
    picture: CodedPicture,
)
    ensures
        alpha_matches(info, picture) == (picture.layout == PixelLayout::I400 && (
        picture.depth matches Some(depth) && depth == info.format.bits())),
        alpha_problem(info, picture) is None ==> {
            let row = info.width * info.format.word();
            &&& alpha_matches(info, picture)
            &&& row <= picture.planes@[0].stride
            &&& info.height > 0 ==> (info.height - 1) * picture.planes@[0].stride + row
                <= picture.planes@[0].data@.len()
            &&& alpha_size_of(info) == Ok::<(int, int, int), Seq<char>>(
                (row, info.height as int, row * info.height),
            )
        },
{
}

/// An avif is decoded only while its boxes still describe the probed image, and
/// never one whose primary item is a grid of tiles.
pub proof fn an_avif_is_decoded_as_it_was_probed(info: ImageInfo, data: Seq<u8>)
    ensures
        match decode_boxes(info, data) {
            Ok(boxes) => {
                &&& meta::meta_of(data) == Some(boxes)
                &&& !boxes.grid
                &&& boxes.primary_list() matches Some(properties) && (avif::header_of(
                    data,
                    properties,
                ) matches Some(header) && header.width == info.width && header.height
                    == info.height && header.depth == info.format.bits())
            },
            Err(_) => match meta::meta_of(data) {
                None => true,
                Some(boxes) => {
                    ||| boxes.grid
                    ||| match boxes.primary_list() {
                        None => true,
                        Some(properties) => match avif::header_of(data, properties) {
                            None => true,
                            Some(header) => header.width != info.width || header.height
                                != info.height || avif::yuv_of(
                                header.chroma as int,
                                header.depth as int,
                            ) != Some(info.format),
                        },
                    }
                },
            },
        },
{
}

/// Only an image that was probed with an alpha channel is decoded with one, and such
/// an image is not decoded without it.
pub proof fn alpha_is_read_just_where_it_was_probed(info: ImageInfo, boxes: meta::MetaView)
    ensures
        match decode_alpha_range(info, boxes) {
            Ok(Some(range)) => {
                &&& info.color_type == ColorType::La8 || info.color_type == ColorType::La16
                    || info.color_type == ColorType::Rgba8 || info.color_type == ColorType::Rgba16
                    || info.color_type == ColorType::Rgba32F
                &&& boxes.alpha_range(usize::MAX as int) == Ok::<
                    Option<(int, int)>,
                    Seq<char>,
                >(Some(range))
            },
            Ok(None) => info.color_type == ColorType::L8 || info.color_type == ColorType::L16
                || info.color_type == ColorType::Rgb8 || info.color_type == ColorType::Rgb16
                || info.color_type == ColorType::Rgb32F || info.color_type == ColorType::Unknown,
            Err(_) => !(boxes.alpha_range(usize::MAX as int) matches Ok(Some(_))),
        },
{
}

/// A plane is too large only where the bytes of a row, or of all its rows, cannot be
/// counted; else it has a row of samples for each row.
pub proof fn a_plane_is_too_large_only_to_be_counted(width: int, height: int, word: int)
    requires
        0 <= width,
        0 <= height,
        1 <= word,
    ensures
        match packed_size(width, height, word) {
            Ok((row, rows, size)) => {
                &&& row == width * word && rows == height && size == row * rows
                &&& row <= usize::MAX && size <= usize::MAX
            },
            Err(_) => width * word > usize::MAX || width * word * height > usize::MAX,
        },
{
}

} // verus!
