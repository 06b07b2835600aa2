//! Turning the planes libheif hands over into the planes of a frame.

use vstd::prelude::*;

use crate::decoder;
use crate::decoder::{image_error, ImageInfo, Pixels};
use crate::error::{self, ImgSeqError};
use crate::formats::heif;
use crate::formats::heif::{color_space_of, Chroma, ColorSpace};
use crate::formats::rows;
use crate::formats::rows::fill_rows;
use crate::frame::ColorFamily;
use crate::image_types::ColorType;
use crate::pixel::layout;
use crate::pixel::pixel_format;
use crate::pixel::pixel_format::alpha_channel;
use crate::pixel::planar;
use crate::text;
use crate::text::decimal;

verus! {

/// One plane of a decoded heif image.
pub struct HeifPlane<'a> {
    pub data: &'a [u8],
    pub width: u32,
    pub height: u32,
    pub stride: usize,
    pub bits_per_pixel: u8,
    pub storage_bits_per_pixel: u8,
}

/// A decoded heif image.
pub struct HeifImage<'a> {
    pub color_space: Option<ColorSpace>,
    /// The colours as libheif words them, for a message.
    pub colors: &'a str,
    pub y: Option<HeifPlane<'a>>,
    pub cb: Option<HeifPlane<'a>>,
    pub cr: Option<HeifPlane<'a>>,
    pub a: Option<HeifPlane<'a>>,
}

impl<'a> HeifImage<'a> {
    /// The plane a frame holds as its plane `plane`.
    pub open spec fn plane(self, plane: int) -> Option<HeifPlane<'a>> {
        if plane == 0 {
            self.y
        } else if plane == 1 {
            self.cb
        } else {
            self.cr
        }
    }
}

/// What an image whose size is not the probed one is refused with.
pub open spec fn changed_text(info: ImageInfo, width: u32, height: u32) -> Seq<char> {
    "image '"@ + info.path@ + "' changed after probing (was "@ + planar::size_text(
        info.width as int,
        info.height as int,
    ) + ", now "@ + planar::size_text(width as int, height as int) + ")"@
}

/// What an image that has no planes of its own is refused with.
pub open spec fn undecodable_text(info: ImageInfo) -> Seq<char> {
    "image '"@ + info.path@ + "' cannot be decoded as "@ + info.format.text()
}

/// Bytes one plane of the frame holds, or why there are too many of them.
pub open spec fn plane_bytes_of(info: ImageInfo, plane: int) -> Result<int, Seq<char>> {
    let (width, height) = info.format.decoded_plane(plane, info.width as int, info.height as int);
    if width * height * info.format.word() > usize::MAX {
        Err("image is too large"@)
    } else {
        Ok(width * height * info.format.word())
    }
}

/// Bytes the alpha plane holds, or why there are too many of them.
pub open spec fn alpha_bytes_of(info: ImageInfo) -> Result<int, Seq<char>> {
    let bytes = info.width * info.height * info.format.alpha().word();
    if bytes > usize::MAX {
        Err("image is too large"@)
    } else {
        Ok(bytes)
    }
}

fn checked_bytes(width: usize, height: usize, word: usize) -> (bytes: Option<usize>)
    requires
        1 <= word,
    ensures
        match bytes {
            Some(bytes) => bytes == width * height * word,
            None => width * height * word > usize::MAX,
        },
{
    proof {
        assert(0 <= width * height <= width * height * word) by (nonlinear_arith)
            requires
                0 <= width,
                0 <= height,
                1 <= word,
        ;
    }
    match width.checked_mul(height) {
        Some(samples) => samples.checked_mul(word),
        None => None,
    }
}

/// Size of every plane of the frame this image is written into.
pub fn plane_sizes(info: &ImageInfo) -> (sizes: Result<Vec<usize>, ImgSeqError>)
    ensures
        match sizes {
            Ok(sizes) => {
                &&& sizes@.len() == info.format.planes()
                &&& forall|plane: int|
                    0 <= plane < sizes@.len() ==> plane_bytes_of(*info, plane) == Ok::<
                        int,
                        Seq<char>,
                    >((#[trigger] sizes@[plane]) as int)
            },
            Err(error) => {
                &&& error@ == error::error_text("image is too large"@)
                &&& exists|plane: int|
                    0 <= plane < info.format.planes() && #[trigger] plane_bytes_of(
                        *info,
                        plane,
                    ) is Err
            },
        },
{
    let count: usize = info.format.plane_count();
    let word: usize = info.format.bytes_per_sample();
    let mut sizes: Vec<usize> = Vec::new();
    let mut plane: usize = 0;
    while plane < count
        invariant
            plane <= count,
            count == info.format.planes(),
            word == info.format.word(),
            1 <= word,
            sizes@.len() == plane,
            forall|at: int|
                0 <= at < sizes@.len() ==> plane_bytes_of(*info, at) == Ok::<int, Seq<char>>(
                    (#[trigger] sizes@[at]) as int,
                ),
        decreases count - plane,
    {
        let (width, height) = info.format.plane_dimensions(
            plane,
            info.width as usize,
            info.height as usize,
        );
        match checked_bytes(width, height, word) {
            Some(bytes) => {
                sizes.push(bytes);
            },
            None => {
                assert(plane_bytes_of(*info, plane as int) is Err);
                return Err(ImgSeqError::from_display("image is too large"));
            },
        }
        plane += 1;
    }
    Ok(sizes)
}

/// Size of the alpha plane, which is never subsampled.
pub fn alpha_plane_size(info: &ImageInfo) -> (size: Result<usize, ImgSeqError>)
    ensures
        match (size, alpha_bytes_of(*info)) {
            (Ok(size), Ok(expected)) => size == expected,
            (Err(error), Err(message)) => error@ == error::error_text(message),
            _ => false,
        },
{
    match checked_bytes(
        info.width as usize,
        info.height as usize,
        info.format.alpha_format().bytes_per_sample(),
    ) {
        Some(bytes) => Ok(bytes),
        None => Err(ImgSeqError::from_display("image is too large")),
    }
}

/// The colours libheif is asked for to decode an image of the given size, or why
/// the image cannot be decoded.
pub open spec fn decode_request(info: ImageInfo, width: u32, height: u32) -> Result<
    ColorSpace,
    Seq<char>,
> {
    if width != info.width || height != info.height {
        Err(changed_text(info, width, height))
    } else {
        match heif::asked_colors(info.format) {
            Some(color_space) => if alpha_bytes_of(info) is Err || exists|plane: int|
                0 <= plane < info.format.planes() && #[trigger] plane_bytes_of(
                    info,
                    plane,
                ) is Err {
                Err("image is too large"@)
            } else {
                Ok(color_space)
            },
            None => Err(undecodable_text(info)),
        }
    }
}

/// Checks an image that is decoded against its probe, and decides which planes
/// libheif is asked for.
///
/// The planes libheif is asked for are the planes of the format the probe
/// recorded, so a file whose samples libheif cannot hand over as they are is an
/// error rather than a silently converted picture.
pub fn request(info: &ImageInfo, width: u32, height: u32) -> (color_space: Result<
    ColorSpace,
    ImgSeqError,
>)
    ensures
        match (color_space, decode_request(*info, width, height)) {
            (Ok(color_space), Ok(expected)) => color_space == expected,
            (Err(error), Err(message)) => error@ == error::error_text(message),
            _ => false,
        },
{
    if width != info.width || height != info.height {
        let mut message = String::from_str("image '");
        message.append(info.path.as_str());
        message.append("' changed after probing (was ");
        let mut message = planar::append_size(message, info.width as usize, info.height as usize);
        message.append(", now ");
        let mut message = planar::append_size(message, width as usize, height as usize);
        message.append(")");
        return Err(ImgSeqError::new(message));
    }
    let color_space = match color_space_of(info.format) {
        Some(color_space) => color_space,
        None => {
            let mut message = String::from_str("image '");
            message.append(info.path.as_str());
            message.append("' cannot be decoded as ");
            message.append(info.format.name());
            return Err(ImgSeqError::new(message));
        },
    };
    match plane_sizes(info) {
        Ok(sizes) => {
            assert forall|plane: int| 0 <= plane < info.format.planes() implies !(
            #[trigger] plane_bytes_of(*info, plane) is Err) by {
                assert(plane_bytes_of(*info, plane) == Ok::<int, Seq<char>>(sizes@[plane] as int));
            }
        },
        Err(error) => {
            return Err(error);
        },
    }
    match alpha_plane_size(info) {
        Ok(_) => {},
        Err(error) => {
            return Err(error);
        },
    }
    Ok(color_space)
}

/// What a message calls the plane a frame holds as its plane `plane`, where
/// three is the alpha plane.
pub open spec fn plane_name(plane: int) -> Seq<char> {
    if plane == 0 {
        "luma"@
    } else if plane == 1 {
        "blue chroma"@
    } else if plane == 2 {
        "red chroma"@
    } else {
        "alpha"@
    }
}

/// Size of the plane a frame holds as its plane `plane`: a plane past the last
/// one of the format is the alpha plane, which is as large as the image.
pub open spec fn held_size(info: ImageInfo, plane: int) -> (int, int) {
    if plane < info.format.planes() {
        info.format.decoded_plane(plane, info.width as int, info.height as int)
    } else {
        (info.width as int, info.height as int)
    }
}

/// Why a plane libheif hands over is refused for a buffer of `room` bytes before
/// any of its rows is read, if it is: it has to be there, as large as the
/// frame's, and of the frame's samples.
pub open spec fn refusal(
    info: ImageInfo,
    plane: Option<HeifPlane>,
    frame_plane: int,
    room: int,
) -> Option<Seq<char>> {
    let name = plane_name(frame_plane);
    let (width, height) = held_size(info, frame_plane);
    let word = info.format.word();
    let row = width * word;
    match plane {
        None => Some("decoded image '"@ + info.path@ + "' has no "@ + name + " plane"@),
        Some(plane) => if row > usize::MAX {
            Some("image plane row is too large"@)
        } else if row * height > usize::MAX {
            Some("image plane is too large"@)
        } else if room != row * height {
            Some(
                "the "@ + name + " buffer is "@ + text::decimal_text(room as nat)
                    + " bytes, expected "@ + text::decimal_text((row * height) as nat),
            )
        } else if plane.width < width || plane.height < height {
            Some(
                name + " plane of image '"@ + info.path@ + "' is "@ + planar::size_text(
                    plane.width as int,
                    plane.height as int,
                ) + ", too small for the "@ + planar::size_text(width, height)
                    + " the frame holds"@,
            )
        } else if plane.storage_bits_per_pixel as int / 8 != 0
            && plane.storage_bits_per_pixel as int / 8 != word {
            Some(
                name + " plane of image '"@ + info.path@ + "' stores "@ + text::decimal_text(
                    (plane.storage_bits_per_pixel as int / 8) as nat,
                ) + " bytes per sample, but the probe reported a format of "@
                    + text::decimal_text(word as nat),
            )
        } else if row > plane.stride {
            Some(
                name + " plane of image '"@ + info.path@ + "' does not fit its stride of "@
                    + text::decimal_text(plane.stride as nat),
            )
        } else {
            None
        },
    }
}

/// Why a plane libheif hands over cannot be packed into a buffer of `room`
/// bytes, if it cannot: it must not be refused, and has to hold all of its rows.
pub open spec fn pack_problem(
    info: ImageInfo,
    plane: Option<HeifPlane>,
    frame_plane: int,
    room: int,
) -> Option<Seq<char>> {
    let (width, height) = held_size(info, frame_plane);
    match (refusal(info, plane, frame_plane, room), plane) {
        (None, Some(plane)) => if rows::rows_fit(
            width * info.format.word(),
            plane.stride as int,
            height,
            plane.data@.len() as int,
        ) {
            None
        } else {
            Some(
                plane_name(frame_plane) + " plane of image '"@ + info.path@
                    + "' is shorter than its own rows"@,
            )
        },
        (refused, _) => refused,
    }
}

/// A plane libheif hands over as the frame holds it, tightly packed. A plane
/// that is larger than the frame's leaves its further rows and columns behind.
pub open spec fn packed_plane(info: ImageInfo, plane: HeifPlane, frame_plane: int) -> Seq<u8> {
    let (width, height) = held_size(info, frame_plane);
    rows::packed_rows(plane.data@, width * info.format.word(), plane.stride as int, height)
}

/// What packing a plane libheif hands over leaves of a buffer that held
/// `before`: nothing is written where the plane is refused, and the rows a plane
/// that is too short does hold are written all the same.
pub open spec fn packed_over(
    info: ImageInfo,
    plane: Option<HeifPlane>,
    frame_plane: int,
    before: Seq<u8>,
) -> Seq<u8> {
    let (width, height) = held_size(info, frame_plane);
    match (refusal(info, plane, frame_plane, before.len() as int), plane) {
        (None, Some(plane)) => rows::rows_over(
            before,
            plane.data@,
            width * info.format.word(),
            plane.stride as int,
            height,
        ),
        _ => before,
    }
}

fn name_of(frame_plane: usize) -> (name: &'static str)
    ensures
        name@ == plane_name(frame_plane as int),
{
    match frame_plane {
        0 => "luma",
        1 => "blue chroma",
        2 => "red chroma",
        _ => "alpha",
    }
}

fn plane_message(name: &str, info: &ImageInfo) -> (message: String)
    ensures
        message@ == name@ + " plane of image '"@ + info.path@,
{
    let mut message = String::from_str(name);
    message.append(" plane of image '");
    message.append(info.path.as_str());
    message
}

/// Checks a plane libheif hands over against the plane the frame holds, for a
/// buffer of `room` bytes. The bytes of one of its rows and how many rows there
/// are.
pub fn check_plane(
    info: &ImageInfo,
    plane: Option<&HeifPlane<'_>>,
    frame_plane: usize,
    room: usize,
) -> (checked: Result<(usize, usize), ImgSeqError>)
    ensures
        ({
            let given = match plane {
                Some(plane) => Some(*plane),
                None => None,
            };
            match refusal(*info, given, frame_plane as int, room as int) {
                None => checked matches Ok((row, height)) && (row as int, height as int) == (
                    held_size(*info, frame_plane as int).0 * info.format.word(),
                    held_size(*info, frame_plane as int).1,
                ),
                Some(message) => error::fails_with(checked, message),
            }
        }),
{
    let name = name_of(frame_plane);
    let plane = match plane {
        Some(plane) => plane,
        None => {
            let mut message = String::from_str("decoded image '");
            message.append(info.path.as_str());
            message.append("' has no ");
            message.append(name);
            message.append(" plane");
            return Err(ImgSeqError::new(message));
        },
    };
    let (width, height) = if frame_plane < info.format.plane_count() {
        info.format.plane_dimensions(frame_plane, info.width as usize, info.height as usize)
    } else {
        (info.width as usize, info.height as usize)
    };
    let word: usize = info.format.bytes_per_sample();
    let row: usize = match width.checked_mul(word) {
        Some(row) => row,
        None => {
            return Err(ImgSeqError::from_display("image plane row is too large"));
        },
    };
    let expected: usize = match row.checked_mul(height) {
        Some(expected) => expected,
        None => {
            return Err(ImgSeqError::from_display("image plane is too large"));
        },
    };
    if room != expected {
        let mut message = String::from_str("the ");
        message.append(name);
        message.append(" buffer is ");
        message.append(decimal(room as u64).as_str());
        message.append(" bytes, expected ");
        message.append(decimal(expected as u64).as_str());
        return Err(ImgSeqError::new(message));
    }
    if (plane.width as usize) < width || (plane.height as usize) < height {
        let mut message = plane_message(name, info);
        message.append("' is ");
        let mut message = planar::append_size(
            message,
            plane.width as usize,
            plane.height as usize,
        );
        message.append(", too small for the ");
        let mut message = planar::append_size(message, width, height);
        message.append(" the frame holds");
        return Err(ImgSeqError::new(message));
    }
    let stored: usize = plane.storage_bits_per_pixel as usize / 8;
    if stored != 0 && stored != word {
        let mut message = plane_message(name, info);
        message.append("' stores ");
        message.append(decimal(stored as u64).as_str());
        message.append(" bytes per sample, but the probe reported a format of ");
        message.append(decimal(word as u64).as_str());
        return Err(ImgSeqError::new(message));
    }
    if row > plane.stride {
        let mut message = plane_message(name, info);
        message.append("' does not fit its stride of ");
        message.append(decimal(plane.stride as u64).as_str());
        return Err(ImgSeqError::new(message));
    }
    Ok((row, height))
}

/// Copies one plane of a decoded heif image into a tightly packed plane of the
/// frame, dropping the padding libheif keeps between its rows.
///
/// `frame_plane` is the index of the plane in the frame format, and `3` is the
/// alpha plane, which is a picture of its own and always the size of the image.
/// libheif rounds the height of a subsampled plane up to whole sample rows, so a
/// plane that is larger than the frame needs is accepted and its extra rows are
/// left behind; one that is smaller cannot fill the frame and is refused.
pub fn pack_plane(
    info: &ImageInfo,
    plane: Option<&HeifPlane<'_>>,
    frame_plane: usize,
    target: &mut Vec<u8>,
) -> (packed: Result<(), ImgSeqError>)
    requires
        refusal(
            *info,
            match plane {
                Some(plane) => Some(*plane),
                None => None,
            },
            frame_plane as int,
            old(target)@.len() as int,
        ) is None ==> 0 < info.width,
    ensures
        ({
            let given = match plane {
                Some(plane) => Some(*plane),
                None => None,
            };
            &&& final(target)@ == packed_over(
                *info,
                given,
                frame_plane as int,
                old(target)@,
            )
            &&& match pack_problem(*info, given, frame_plane as int, old(target)@.len() as int) {
                None => packed is Ok && final(target)@ == packed_plane(
                    *info,
                    given.unwrap(),
                    frame_plane as int,
                ),
                Some(message) => error::fails_with(packed, message),
            }
        }),
{
    let (row, height) = match check_plane(info, plane, frame_plane, target.len()) {
        Ok(size) => size,
        Err(error) => {
            return Err(error);
        },
    };
    let plane = match plane {
        Some(plane) => plane,
        // A plane that is not there has been refused.
        None => {
            return Ok(());
        },
    };
    proof {
        let (width, _) = held_size(*info, frame_plane as int);
        assert(0 < width * info.format.word()) by (nonlinear_arith)
            requires
                0 < width,
                0 < info.format.word(),
        ;
        assert(height * row == row * height) by (nonlinear_arith);
    }
    if fill_rows(target, row, plane.stride, height, plane.data) {
        assert(target@ =~= packed_plane(*info, *plane, frame_plane as int));
        Ok(())
    } else {
        let mut message = plane_message(name_of(frame_plane), info);
        message.append("' is shorter than its own rows");
        Err(ImgSeqError::new(message))
    }
}

impl Chroma {
    /// The name a message gives this sampling.
    pub open spec fn text(self) -> Seq<char> {
        match self {
            Chroma::C420 => "C420"@,
            Chroma::C422 => "C422"@,
            Chroma::C444 => "C444"@,
        }
    }

    /// The name a message gives this sampling.
    pub fn name(self) -> (name: &'static str)
        ensures
            name@ == self.text(),
    {
        match self {
            Chroma::C420 => "C420",
            Chroma::C422 => "C422",
            Chroma::C444 => "C444",
        }
    }
}

/// What a message calls the colours libheif was asked for.
pub open spec fn asked_text(color_space: ColorSpace) -> Seq<char> {
    match color_space {
        ColorSpace::YCbCr(chroma) => "YCbCr("@ + chroma.text() + ")"@,
        _ => "Monochrome"@,
    }
}

/// Why an image cannot be asked for, or why a decoded image is not the one that
/// was, if so.
pub open spec fn colors_problem(info: ImageInfo, image: HeifImage) -> Option<Seq<char>> {
    match decode_request(info, info.width, info.height) {
        Err(message) => Some(message),
        Ok(asked) => if image.color_space == Some(asked) {
            None
        } else {
            Some(
                decoder::image_error_text(
                    "decode"@,
                    info.path@,
                    "libheif produced "@ + image.colors@ + ", not "@ + asked_text(asked),
                ),
            )
        },
    }
}

/// Checks that an image can be asked for, and that a decoded image is the one
/// that was.
pub fn check_colors(info: &ImageInfo, image: &HeifImage<'_>) -> (checked: Result<(), ImgSeqError>)
    ensures
        match colors_problem(*info, *image) {
            None => checked is Ok,
            Some(message) => error::fails_with(checked, message),
        },
{
    let asked = match request(info, info.width, info.height) {
        Ok(asked) => asked,
        Err(error) => {
            return Err(error);
        },
    };
    let as_asked = match image.color_space {
        Some(color_space) => color_space == asked,
        None => false,
    };
    if !as_asked {
        let mut detail = String::from_str("libheif produced ");
        detail.append(image.colors);
        detail.append(", not ");
        let wanted = match asked {
            ColorSpace::YCbCr(chroma) => {
                let mut wanted = String::from_str("YCbCr(");
                wanted.append(chroma.name());
                wanted.append(")");
                wanted
            },
            _ => String::from_str("Monochrome"),
        };
        detail.append(wanted.as_str());
        return Err(image_error("decode", info.path.as_str(), detail.as_str()));
    }
    Ok(())
}

/// Why plane `plane` of a decoded image cannot be taken, if it cannot.
pub open spec fn take_problem(info: ImageInfo, image: HeifImage, plane: int) -> Option<Seq<char>> {
    match plane_bytes_of(info, plane) {
        Err(message) => Some(message),
        Ok(room) => pack_problem(info, image.plane(plane), plane, room),
    }
}

/// Why the alpha plane of a decoded image that was probed with one cannot be
/// taken, if it cannot.
pub open spec fn take_alpha_problem(info: ImageInfo, image: HeifImage) -> Option<Seq<char>> {
    match alpha_bytes_of(info) {
        Err(message) => Some(message),
        Ok(room) => match image.a {
            Some(plane) => pack_problem(info, Some(plane), 3, room),
            None => Some(
                "decoded image '"@ + info.path@ + "' has no alpha plane, but it was probed as "@
                    + info.format.text(),
            ),
        },
    }
}

/// Planes of a decoded image that can be taken, counted from the first one on.
pub open spec fn fine_planes(info: ImageInfo, image: HeifImage, count: int) -> int {
    layout::leading_fine(|plane: int| take_problem(info, image, plane), count)
}

/// Whether `pixels` are the planes of a decoded image, and its alpha plane where
/// it was probed with one.
pub open spec fn pixels_hold(info: ImageInfo, image: HeifImage, pixels: Pixels) -> bool {
    match pixels {
        Pixels::Planar { planes, alpha } => {
            &&& planes@.len() == info.format.planes()
            &&& forall|plane: int|
                0 <= plane < planes@.len() ==> (#[trigger] planes@[plane])@ == packed_plane(
                    info,
                    image.plane(plane).unwrap(),
                    plane,
                )
            &&& match alpha {
                Some(alpha) => pixel_format::alpha_index(info.color_type) is Some && alpha@
                    == packed_plane(info, image.a.unwrap(), 3),
                None => pixel_format::alpha_index(info.color_type) is None,
            }
        },
        _ => false,
    }
}

/// Takes one plane of a decoded image into a buffer of its own.
fn take_plane(info: &ImageInfo, plane: &Option<HeifPlane<'_>>, frame_plane: usize, room: usize) -> (
    taken: Result<Vec<u8>, ImgSeqError>)
    requires
        refusal(*info, *plane, frame_plane as int, room as int) is None ==> 0 < info.width,
    ensures
        match (taken, pack_problem(*info, *plane, frame_plane as int, room as int)) {
            (Ok(taken), None) => taken@ == packed_plane(
                *info,
                plane.unwrap(),
                frame_plane as int,
            ),
            (Err(error), Some(message)) => error@ == error::error_text(message),
            _ => false,
        },
{
    let mut target: Vec<u8> = vec![0u8; room];
    match pack_plane(info, plane.as_ref(), frame_plane, &mut target) {
        Ok(_) => Ok(target),
        Err(error) => Err(error),
    }
}

/// Whether the rows of a decoded image are read at all: it is the one that was
/// asked for, and its first plane is not refused.
pub open spec fn rows_are_read(info: ImageInfo, image: HeifImage) -> bool {
    &&& colors_problem(info, image) is None
    &&& plane_bytes_of(info, 0) matches Ok(room) && refusal(info, image.y, 0, room) is None
}

/// Takes the planes of a decoded heif image as the planes of its own format.
pub fn decode(info: &ImageInfo, image: &HeifImage<'_>) -> (pixels: Result<Pixels, ImgSeqError>)
    requires
        rows_are_read(*info, *image) ==> 0 < info.width,
    ensures
        ({
            let count = info.format.planes();
            let fine = fine_planes(*info, *image, count);
            match colors_problem(*info, *image) {
                Some(message) => error::fails_with(pixels, message),
                None => if fine < count {
                    error::fails_with(pixels, take_problem(*info, *image, fine).unwrap())
                } else if pixel_format::alpha_index(info.color_type) is Some
                    && take_alpha_problem(*info, *image) is Some {
                    error::fails_with(pixels, take_alpha_problem(*info, *image).unwrap())
                } else {
                    pixels matches Ok(pixels) && pixels_hold(*info, *image, pixels)
                },
            }
        }),
{
    match check_colors(info, image) {
        Ok(_) => {},
        Err(error) => {
            return Err(error);
        },
    }
    let count: usize = info.format.plane_count();
    let mut planes: Vec<Vec<u8>> = Vec::new();
    let ghost problem = |at: int| take_problem(*info, *image, at);
    let mut plane: usize = 0;
    while plane < count
        invariant
            plane <= count,
            count == info.format.planes(),
            count == 1 || count == 3,
            rows_are_read(*info, *image) ==> 0 < info.width,
            0 < plane ==> 0 < info.width,
            colors_problem(*info, *image) is None,
            problem == (|at: int| take_problem(*info, *image, at)),
            layout::leading_fine(problem, plane as int) == plane,
            planes@.len() == plane,
            forall|at: int|
                0 <= at < plane ==> (#[trigger] planes@[at])@ == packed_plane(
                    *info,
                    image.plane(at).unwrap(),
                    at,
                ),
        decreases count - plane,
    {
        let (width, height) = info.format.plane_dimensions(
            plane,
            info.width as usize,
            info.height as usize,
        );
        let room: usize = match checked_bytes(width, height, info.format.bytes_per_sample()) {
            Some(room) => room,
            None => {
                proof {
                    layout::lemma_leading_fine_stops(problem, plane as int, count as int);
                }
                return Err(ImgSeqError::from_display("image is too large"));
            },
        };
        let given = match plane {
            0 => &image.y,
            1 => &image.cb,
            _ => &image.cr,
        };
        match take_plane(info, given, plane, room) {
            Ok(taken) => {
                planes.push(taken);
            },
            Err(error) => {
                proof {
                    layout::lemma_leading_fine_stops(problem, plane as int, count as int);
                }
                return Err(error);
            },
        }
        plane += 1;
    }
    if alpha_channel(info.color_type).is_none() {
        return Ok(Pixels::Planar { planes, alpha: None });
    }
    let room: usize = match alpha_plane_size(info) {
        Ok(room) => room,
        Err(error) => {
            return Err(error);
        },
    };
    if image.a.is_none() {
        // The probe reported an alpha channel, so a picture without one is not
        // the file that was probed.
        let mut message = String::from_str("decoded image '");
        message.append(info.path.as_str());
        message.append("' has no alpha plane, but it was probed as ");
        message.append(info.format.name());
        return Err(ImgSeqError::new(message));
    }
    match take_plane(info, &image.a, 3, room) {
        Ok(taken) => Ok(Pixels::Planar { planes, alpha: Some(taken) }),
        Err(error) => Err(error),
    }
}

/// The planes libheif hands over go where a frame has them: luma first, then blue
/// and red chroma, and each sample keeps its bytes. Alpha is as large as the image,
/// and there is one just where it was probed.
pub proof fn a_heif_plane_is_packed_sample_by_sample(
    info: ImageInfo,
    image: HeifImage,
    planes: Vec<Vec<u8>>,
    alpha: Option<Vec<u8>>,
    plane: int,
    x: int,
    y: int,
    byte: int,
)
    requires
        pixels_hold(info, image, Pixels::Planar { planes, alpha }),
        0 <= plane < info.format.planes(),
        0 <= x < (if plane > 0 && info.format.subsampling().0 == 1 {
            (info.width + 1) / 2
        } else {
            info.width as int
        }),
        0 <= y < (if plane > 0 && info.format.subsampling().1 == 1 {
            (info.height + 1) / 2
        } else {
            info.height as int
        }),
        0 <= byte < info.format.word(),
    ensures
        ({
            let width = if plane > 0 && info.format.subsampling().0 == 1 {
                (info.width + 1) / 2
            } else {
                info.width as int
            };
            let height = if plane > 0 && info.format.subsampling().1 == 1 {
                (info.height + 1) / 2
            } else {
                info.height as int
            };
            let word = info.format.word();
            let decoded = (if plane == 0 {
                image.y
            } else if plane == 1 {
                image.cb
            } else {
                image.cr
            }).unwrap();
            &&& planes@.len() == info.format.planes()
            &&& planes@[plane]@.len() == width * word * height
            &&& planes@[plane]@[y * (width * word) + (x * word + byte)] == decoded.data@[y
                * decoded.stride + (x * word + byte)]
        }),
{
    let width = if plane > 0 && info.format.subsampling().0 == 1 {
        (info.width + 1) / 2
    } else {
        info.width as int
    };
    let height = if plane > 0 && info.format.subsampling().1 == 1 {
        (info.height + 1) / 2
    } else {
        info.height as int
    };
    let word = info.format.word();
    let decoded = image.plane(plane).unwrap();
    let row = width * word;
    let column = x * word + byte;
    assert(held_size(info, plane) == (width, height));
    assert(planes@[plane]@ == packed_plane(info, decoded, plane));
    assert(0 <= column < row) by (nonlinear_arith)
        requires
            0 <= x < width,
            0 <= byte < word,
            column == x * word + byte,
            row == width * word,
    ;
    rows::a_packed_row_leaves_the_gap_behind(
        decoded.data@,
        row,
        decoded.stride as int,
        height,
        column,
        y,
    );
}

/// The alpha plane of a frame is the one libheif hands over, at the size of the
/// image, and there is one just where the image was probed with it.
pub proof fn a_heif_alpha_plane_is_packed_at_full_size(
    info: ImageInfo,
    image: HeifImage,
    planes: Vec<Vec<u8>>,
    alpha: Option<Vec<u8>>,
    x: int,
    y: int,
    byte: int,
)
    requires
        pixels_hold(info, image, Pixels::Planar { planes, alpha }),
        0 <= x < info.width,
        0 <= y < info.height,
        0 <= byte < info.format.word(),
    ensures
        (alpha is Some) == (match info.color_type {
            ColorType::La8
            | ColorType::La16
            | ColorType::Rgba8
            | ColorType::Rgba16
            | ColorType::Rgba32F => true,
            _ => false,
        }),
        ({
            let word = info.format.word();
            let decoded = image.a.unwrap();
            alpha matches Some(held) ==> held@.len() == info.width * word * info.height && held@[y
                * (info.width * word) + (x * word + byte)] == decoded.data@[y * decoded.stride + (x
                * word + byte)]
        }),
{
    let word = info.format.word();
    let width = info.width as int;
    let row = width * word;
    let column = x * word + byte;
    assert(held_size(info, 3) == (width, info.height as int));
    assert(0 <= column < row) by (nonlinear_arith)
        requires
            0 <= x < width,
            0 <= byte < word,
            column == x * word + byte,
            row == width * word,
    ;
    if alpha is Some {
        rows::a_packed_row_leaves_the_gap_behind(
            image.a.unwrap().data@,
            row,
            image.a.unwrap().stride as int,
            info.height as int,
            column,
            y,
        );
    }
}

/// An image is asked for only at the size that was probed, and in the colours of its
/// format: one plane for gray, and for yuv the sampling of its chroma.
pub proof fn an_image_is_asked_for_in_its_own_colours(info: ImageInfo, width: u32, height: u32)
    ensures
        match decode_request(info, width, height) {
            Ok(color_space) => {
                &&& width == info.width
                &&& height == info.height
                &&& match color_space {
                    ColorSpace::Monochrome => info.format.family() == ColorFamily::Gray,
                    ColorSpace::YCbCr(chroma) => info.format.family() == ColorFamily::YUV
                        && info.format.subsampling() == (match chroma {
                        Chroma::C420 => (1int, 1int),
                        Chroma::C422 => (1int, 0int),
                        Chroma::C444 => (0int, 0int),
                    }),
                    _ => false,
                }
            },
            Err(_) => true,
        },
        decode_request(info, width, height) is Ok ==> info.width * info.height * info.format.word()
            <= usize::MAX,
{
}

/// What libheif hands over is taken just when it is in the colours that were asked
/// for.
pub proof fn only_the_colours_that_were_asked_for_are_taken(info: ImageInfo, image: HeifImage)
    ensures
        (colors_problem(info, image) is None) == (match decode_request(
            info,
            info.width,
            info.height,
        ) {
            Ok(asked) => image.color_space == Some(asked),
            Err(_) => false,
        }),
{
}

/// A plane is packed just when it is there, at least as large as the frame's, with
/// samples of the frame's size or of a size libheif does not state, and with all of
/// its rows in its buffer.
pub proof fn a_plane_is_refused_for_its_shape_alone(
    info: ImageInfo,
    plane: Option<HeifPlane>,
    frame_plane: int,
    room: int,
)
    requires
        0 <= frame_plane <= 3,
    ensures
        ({
            let chroma = 0 < frame_plane < info.format.planes();
            let width = if chroma && info.format.subsampling().0 == 1 {
                (info.width + 1) / 2
            } else {
                info.width as int
            };
            let height = if chroma && info.format.subsampling().1 == 1 {
                (info.height + 1) / 2
            } else {
                info.height as int
            };
            let row = width * info.format.word();
            (pack_problem(info, plane, frame_plane, room) is None) == ({
                &&& plane matches Some(decoded) && decoded.width >= width && decoded.height
                    >= height && (decoded.storage_bits_per_pixel < 8
                    || decoded.storage_bits_per_pixel as int / 8 == info.format.word()) && row
                    <= decoded.stride && (height > 0 ==> (height - 1) * decoded.stride + row
                    <= decoded.data@.len())
                &&& row * height == room
                &&& row <= usize::MAX
                &&& room <= usize::MAX
            })
        }),
{
}

/// The bytes of a plane are a sample for each of its places, and those of the alpha plane
/// one for each pixel; they are refused only where they cannot be counted.
pub proof fn a_heif_plane_is_too_large_only_to_be_counted(info: ImageInfo, plane: int)
    requires
        0 <= plane < info.format.planes(),
    ensures
        ({
            let width = if plane > 0 && info.format.subsampling().0 == 1 {
                (info.width + 1) / 2
            } else {
                info.width as int
            };
            let height = if plane > 0 && info.format.subsampling().1 == 1 {
                (info.height + 1) / 2
            } else {
                info.height as int
            };
            match plane_bytes_of(info, plane) {
                Ok(bytes) => bytes == width * height * info.format.word() && bytes <= usize::MAX,
                Err(_) => width * height * info.format.word() > usize::MAX,
            }
        }),
        match alpha_bytes_of(info) {
            Ok(bytes) => bytes == info.width * info.height * info.format.word() && bytes
                <= usize::MAX,
            Err(_) => info.width * info.height * info.format.word() > usize::MAX,
        },
{
}

/// An image of libheif is only ever handed out plane by plane.
pub proof fn a_heif_is_never_interleaved(info: ImageInfo, image: HeifImage, pixels: Pixels)
    requires
        pixels_hold(info, image, pixels),
    ensures
        pixels is Planar,
{
}

} // verus!
