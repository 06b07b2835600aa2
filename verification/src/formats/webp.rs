//! webp files, as libwebp decodes them.
//!
//! Lossy webp is yuv 4:2:0 and libwebp decodes it either way. A file with no
//! alpha channel is decoded into its own planes and comes out as `YUV420P8`:
//! half the bytes per image, and no yuv to rgb conversion that the graph
//! consuming the frames would only undo. Everything else keeps the interleaved
//! layout of its color type, because lossless webp is rgb by definition and a
//! file with an alpha channel needs the buffer its alpha plane is read from.

use vstd::prelude::*;

use vstd::slice::slice_subrange;

use crate::bytes;
use crate::bytes::get_be32;
use crate::decoder;
use crate::decoder::{image_error, ImageInfo};
use crate::error::{self, ImgSeqError};
use crate::frame::ColorFamily;
use crate::image_types::ColorType;
use crate::pixel::pixel_format;
use crate::pixel::planar;
use crate::pixel::PixelFormat;
use crate::text;
use crate::text::path_has_extension;

verus! {

/// The tag `RIFF`.
pub const RIFF: u32 = 0x5249_4646;

/// The tag `WEBP`.
pub const WEBP: u32 = 0x5745_4250;

/// The tag `VP8 `.
pub const VP8: u32 = 0x5650_3820;

/// The tag `VP8L`.
pub const VP8L: u32 = 0x5650_384c;

/// The tag `VP8X`.
pub const VP8X: u32 = 0x5650_3858;

/// The tag `ALPH`.
pub const ALPH: u32 = 0x414c_5048;

/// The tag `ANIM`.
pub const ANIM: u32 = 0x414e_494d;

/// The tag `ANMF`.
pub const ANMF: u32 = 0x414e_4d46;

/// Bytes of a `VP8X` payload that are read.
pub const VP8X_LENGTH: usize = 10;

/// What the container header of a webp file says about its first image.
#[derive(Clone, Copy, Debug, PartialEq, Eq, Structural)]
pub struct BitstreamHeader {
    /// True when the pixels are stored losslessly, which means rgb.
    pub lossless: bool,
    /// True when the file carries an alpha channel.
    pub has_alpha: bool,
}

/// The little endian 32 bit number at `at`.
pub open spec fn le32(data: Seq<u8>, at: int) -> int {
    data[at] + data[at + 1] * 0x100 + data[at + 2] * 0x1_0000 + data[at + 3] * 0x100_0000
}

/// What a chunk of a webp file says, or where the walk goes on after it.
#[derive(Clone, Copy, Debug, PartialEq, Eq, Structural)]
pub enum ChunkStep {
    /// The chunk holds the first image, losslessly stored or not.
    Image(bool),
    /// The chunk is the extended header, whose flags are in the ten bytes after
    /// it.
    Extended,
    /// The chunk holds alpha, and this many bytes of it are passed over.
    Alpha(u64),
    /// The chunk says nothing, and this many bytes of it are passed over.
    Other(u64),
    /// The chunk does not fit the file, or is one of an animation.
    Stop,
}

/// What the chunk whose header is `chunk` says, in a file of `length` bytes in
/// which the payload of the chunk starts at `body`. A payload is padded to an
/// even size.
pub open spec fn chunk_says(chunk: Seq<u8>, body: int, length: int) -> ChunkStep {
    let id = bytes::be32(chunk, 0);
    let size = le32(chunk, 4);
    let padded = size + size % 2;
    if body + padded > length {
        ChunkStep::Stop
    } else if id == VP8 {
        ChunkStep::Image(false)
    } else if id == VP8L {
        ChunkStep::Image(true)
    } else if id == VP8X {
        ChunkStep::Extended
    } else if id == ALPH {
        ChunkStep::Alpha(padded as u64)
    } else if id == ANIM || id == ANMF {
        ChunkStep::Stop
    } else {
        ChunkStep::Other(padded as u64)
    }
}

/// How far the chunks of a file have been walked, and what they said of its
/// alpha channel.
#[derive(Clone, Copy, Debug, PartialEq, Eq, Structural)]
pub struct ChunkWalk {
    /// Where the header of the next chunk starts.
    pub at: u64,
    pub has_alpha: bool,
}

/// What one more chunk header tells a walk.
#[derive(Clone, Copy, Debug, PartialEq, Eq, Structural)]
pub enum WalkStep {
    /// The coding of the first image is known.
    Coding(BitstreamHeader),
    /// The ten bytes behind the chunk header hold the flags of the file.
    Flags,
    /// The walk goes on.
    Next(ChunkWalk),
    /// The file says nothing of its coding.
    Stop,
}

/// What the chunk header `chunk` tells a walk of a file of `length` bytes.
pub open spec fn walk_says(walk: ChunkWalk, chunk: Seq<u8>, length: int) -> WalkStep {
    match chunk_says(chunk, walk.at + 8, length) {
        ChunkStep::Image(lossless) => WalkStep::Coding(
            BitstreamHeader { lossless, has_alpha: walk.has_alpha },
        ),
        ChunkStep::Extended => WalkStep::Flags,
        ChunkStep::Alpha(skip) => WalkStep::Next(
            ChunkWalk { at: (walk.at + 8 + skip) as u64, has_alpha: true },
        ),
        ChunkStep::Other(skip) => WalkStep::Next(
            ChunkWalk { at: (walk.at + 8 + skip) as u64, has_alpha: walk.has_alpha },
        ),
        ChunkStep::Stop => WalkStep::Stop,
    }
}

/// What the chunks of a file from `at` on say of its first image, with what was
/// said of its alpha channel before.
pub open spec fn coding_from(data: Seq<u8>, at: int, has_alpha: bool) -> Option<BitstreamHeader>
    decreases data.len() - at,
{
    if at < 0 || at + 8 > data.len() {
        None
    } else {
        match chunk_says(data.subrange(at, at + 8), at + 8, data.len() as int) {
            ChunkStep::Image(lossless) => Some(BitstreamHeader { lossless, has_alpha }),
            ChunkStep::Extended => if at + 8 + VP8X_LENGTH > data.len() {
                None
            } else {
                coding_from(data, at + 8 + VP8X_LENGTH, data[at + 8] as int / 0x10 % 2 == 1)
            },
            ChunkStep::Alpha(skip) => coding_from(data, at + 8 + skip, true),
            ChunkStep::Other(skip) => coding_from(data, at + 8 + skip, has_alpha),
            ChunkStep::Stop => None,
        }
    }
}

/// Whether a file starts the way a webp file does.
pub open spec fn starts_webp(data: Seq<u8>) -> bool {
    &&& data.len() >= 12
    &&& bytes::be32(data, 0) == RIFF
    &&& bytes::be32(data, 8) == WEBP
}

/// What a webp file says of its first image.
pub open spec fn coding_of(data: Seq<u8>) -> Option<BitstreamHeader> {
    if starts_webp(data) {
        coding_from(data, 12, false)
    } else {
        None
    }
}

/// Whether the first twelve bytes of a file are the ones of a webp file.
pub fn is_webp(start: &[u8]) -> (webp: bool)
    ensures
        webp == starts_webp(start@),
{
    match (get_be32(start, 0), get_be32(start, 8)) {
        (Some(RIFF), Some(WEBP)) => true,
        _ => false,
    }
}

/// Reads what one chunk says from its header.
///
/// Every declared size has to fit in the file: a file cut short is not something
/// to guess a coding from.
pub fn read_chunk(chunk: &[u8], body: u64, length: u64) -> (step: ChunkStep)
    requires
        chunk@.len() == 8,
        body <= length,
    ensures
        step == chunk_says(chunk@, body as int, length as int),
{
    let id: u32 = match get_be32(chunk, 0) {
        Some(id) => id,
        None => 0,
    };
    let size: u64 = chunk[4] as u64 + chunk[5] as u64 * 0x100 + chunk[6] as u64 * 0x1_0000
        + chunk[7] as u64 * 0x100_0000;
    let padded: u64 = size + size % 2;
    if padded > length - body {
        return ChunkStep::Stop;
    }
    match id {
        VP8 => ChunkStep::Image(false),
        VP8L => ChunkStep::Image(true),
        VP8X => ChunkStep::Extended,
        ALPH => ChunkStep::Alpha(padded),
        ANIM | ANMF => ChunkStep::Stop,
        _ => ChunkStep::Other(padded),
    }
}

/// Whether the first byte of an extended header says that there is an alpha
/// channel.
pub fn extended_alpha(flags: u8) -> (has_alpha: bool)
    ensures
        has_alpha == (flags as int / 0x10 % 2 == 1),
{
    flags / 0x10 % 2 == 1
}

impl ChunkWalk {
    /// The walk of a webp file before its first chunk.
    pub fn new() -> (walk: ChunkWalk)
        ensures
            walk == (ChunkWalk { at: 12, has_alpha: false }),
    {
        ChunkWalk { at: 12, has_alpha: false }
    }

    /// Takes one more chunk header of a file of `length` bytes.
    pub fn step(self, chunk: &[u8], length: u64) -> (step: WalkStep)
        requires
            chunk@.len() == 8,
            self.at + 8 <= length,
        ensures
            step == walk_says(self, chunk@, length as int),
    {
        let body: u64 = self.at + 8;
        match read_chunk(chunk, body, length) {
            ChunkStep::Image(lossless) => WalkStep::Coding(
                BitstreamHeader { lossless, has_alpha: self.has_alpha },
            ),
            ChunkStep::Extended => WalkStep::Flags,
            ChunkStep::Alpha(skip) => WalkStep::Next(
                ChunkWalk { at: body + skip, has_alpha: true },
            ),
            ChunkStep::Other(skip) => WalkStep::Next(
                ChunkWalk { at: body + skip, has_alpha: self.has_alpha },
            ),
            ChunkStep::Stop => WalkStep::Stop,
        }
    }

    /// Takes the first of the bytes that hold the flags of the file.
    pub fn with_flags(self, flags: u8) -> (walk: ChunkWalk)
        requires
            self.at + 8 + VP8X_LENGTH <= u64::MAX,
        ensures
            walk.at == self.at + 8 + VP8X_LENGTH,
            walk.has_alpha == (flags as int / 0x10 % 2 == 1),
    {
        ChunkWalk { at: self.at + 8 + VP8X_LENGTH as u64, has_alpha: extended_alpha(flags) }
    }
}

/// A walk that reads nothing but chunk headers and flags finds the coding of the
/// whole file: every step keeps what is left to be found.
pub proof fn a_step_of_a_walk_keeps_the_coding(data: Seq<u8>, walk: ChunkWalk)
    requires
        walk.at + 8 <= data.len() <= u64::MAX,
    ensures
        ({
            let left = coding_from(data, walk.at as int, walk.has_alpha);
            let chunk = data.subrange(walk.at as int, walk.at + 8);
            match walk_says(walk, chunk, data.len() as int) {
                WalkStep::Coding(header) => left == Some(header),
                WalkStep::Flags => left == (if walk.at + 8 + VP8X_LENGTH > data.len() {
                    None
                } else {
                    coding_from(
                        data,
                        walk.at + 8 + VP8X_LENGTH,
                        data[walk.at + 8] as int / 0x10 % 2 == 1,
                    )
                }),
                WalkStep::Next(next) => walk.at + 8 <= next.at <= data.len() && left
                    == coding_from(data, next.at as int, next.has_alpha),
                WalkStep::Stop => left is None,
            }
        }),
{
}

/// Walks the chunk headers of a webp file up to its first image chunk.
///
/// Anything this does not understand - an animated file, whose frames nest their
/// own chunks, or a truncated one - returns `None`, which leaves the image on
/// the color type the probe reported.
pub fn bitstream_header(data: &[u8]) -> (header: Option<BitstreamHeader>)
    ensures
        header == coding_of(data@),
{
    if !is_webp(data) {
        return None;
    }
    let len: usize = data.len();
    let mut walk = ChunkWalk::new();
    while len as u64 - walk.at >= 8
        invariant
            walk.at <= len,
            len == data@.len(),
            coding_of(data@) == coding_from(data@, walk.at as int, walk.has_alpha),
        decreases len - walk.at,
    {
        proof {
            a_step_of_a_walk_keeps_the_coding(data@, walk);
        }
        let at: usize = walk.at as usize;
        match walk.step(slice_subrange(data, at, at + 8), len as u64) {
            WalkStep::Coding(header) => {
                return Some(header);
            },
            WalkStep::Flags => {
                if len - at - 8 < VP8X_LENGTH {
                    return None;
                }
                walk = walk.with_flags(data[at + 8]);
            },
            WalkStep::Next(next) => {
                walk = next;
            },
            WalkStep::Stop => {
                return None;
            },
        }
    }
    None
}

/// How many bytes of a file its chunks from `at` on are read as far as, up to and
/// with the chunk of its first image. None for a file without one.
pub open spec fn read_to_from(data: Seq<u8>, at: int) -> Option<int>
    decreases data.len() - at,
{
    if at < 0 || at + 8 > data.len() {
        None
    } else {
        let chunk = data.subrange(at, at + 8);
        let chunk_end = at + 8 + le32(chunk, 4) + le32(chunk, 4) % 2;
        let rest = match chunk_says(chunk, at + 8, data.len() as int) {
            ChunkStep::Image(_) => Some(chunk_end),
            ChunkStep::Extended => if at + 8 + VP8X_LENGTH > data.len() {
                None
            } else {
                read_to_from(data, at + 8 + VP8X_LENGTH)
            },
            ChunkStep::Alpha(skip) | ChunkStep::Other(skip) => read_to_from(data, at + 8 + skip),
            ChunkStep::Stop => None,
        };
        match rest {
            Some(end) => Some(
                if end < chunk_end {
                    chunk_end
                } else {
                    end
                },
            ),
            None => None,
        }
    }
}

/// How many bytes of a webp file are read for its coding. None for a file without
/// one.
pub open spec fn read_to(data: Seq<u8>) -> Option<int> {
    if starts_webp(data) {
        read_to_from(data, 12)
    } else {
        None
    }
}

proof fn lemma_cut_from(data: Seq<u8>, length: int, at: int, has_alpha: bool)
    requires
        0 <= length <= data.len(),
        0 <= at,
    ensures
        read_to_from(data, at) is Some == coding_from(data, at, has_alpha) is Some,
        read_to_from(data, at) matches Some(end) ==> at + 8 <= end <= data.len(),
        coding_from(data.take(length), at, has_alpha) == (match read_to_from(data, at) {
            Some(end) => if end <= length {
                coding_from(data, at, has_alpha)
            } else {
                None
            },
            None => None,
        }),
    decreases data.len() - at,
{
    if at + 8 <= data.len() {
        let cut = data.take(length);
        let chunk = data.subrange(at, at + 8);
        if at + 8 <= length {
            assert(cut.subrange(at, at + 8) =~= chunk);
        }
        match chunk_says(chunk, at + 8, data.len() as int) {
            ChunkStep::Extended => {
                if at + 8 + VP8X_LENGTH <= data.len() {
                    lemma_cut_from(
                        data,
                        length,
                        at + 8 + VP8X_LENGTH,
                        data[at + 8] as int / 0x10 % 2 == 1,
                    );
                }
            },
            ChunkStep::Alpha(skip) => {
                lemma_cut_from(data, length, at + 8 + skip, true);
            },
            ChunkStep::Other(skip) => {
                lemma_cut_from(data, length, at + 8 + skip, has_alpha);
            },
            _ => {},
        }
    }
}

/// A file cut short is not something to guess a coding from: a cut that keeps
/// what is read for the coding leaves it as it is, and any other cut leaves none.
pub proof fn a_cut_container_has_no_coding(data: Seq<u8>, length: int)
    requires
        0 <= length <= data.len(),
    ensures
        coding_of(data.take(length)) == (match read_to(data) {
            Some(end) => if end <= length {
                coding_of(data)
            } else {
                None
            },
            None => None,
        }),
        read_to(data) is Some == coding_of(data) is Some,
        read_to(data) matches Some(end) ==> 20 <= end <= data.len(),
{
    lemma_cut_from(data, length, 12, false);
}

/// Whether a path has the extension of a webp file.
pub fn has_webp_extension(path: &str) -> (webp: bool)
    ensures
        text::plain_path(path@) ==> webp == text::has_extension(path@, "webp"@),
{
    proof {
        reveal_strlit("webp");
    }
    path_has_extension(path, "webp")
}

/// Whether this module decodes `info`.
///
/// Every webp file goes through libwebp. The probe only ever reports `Rgb8` or
/// `Rgba8` for one, which is exactly what libwebp hands back, so no webp color
/// type is left for the `image` path to decode instead.
pub fn handles(info: &ImageInfo) -> (handled: bool)
    ensures
        text::plain_path(info.path@) ==> handled == text::has_extension(info.path@, "webp"@),
{
    has_webp_extension(info.path.as_str())
}

/// Whether the chunks of a file are read for the format it is handed out as.
pub fn corrects(path: &str, color_type: ColorType) -> (read: bool)
    ensures
        color_type != ColorType::Rgb8 ==> !read,
        text::plain_path(path@) ==> read == (color_type == ColorType::Rgb8
            && text::has_extension(path@, "webp"@)),
{
    color_type == ColorType::Rgb8 && has_webp_extension(path)
}

/// The format a file of a coding is decoded into, when it is not the one its
/// color type suggests: a lossy file without an alpha channel is yuv.
pub open spec fn coded_format(header: Option<BitstreamHeader>) -> Option<PixelFormat> {
    match header {
        Some(header) => if !header.lossless && !header.has_alpha {
            Some(PixelFormat::Yuv420P8)
        } else {
            None
        },
        None => None,
    }
}

/// Format this module decodes the image into, when it is not the one the probed
/// color type suggests.
///
/// Lossy webp stores yuv 4:2:0, so a file with no alpha channel is decoded into
/// its own planes and written as `YUV420P8`. Lossless webp is rgb by definition
/// and keeps its color type, and so does a file with an alpha channel, which
/// needs the interleaved buffer the alpha plane is read from.
pub fn output_format(path: &str, color_type: ColorType, header: Option<BitstreamHeader>) -> (
    format: Option<PixelFormat>)
    ensures
        format is None || (color_type == ColorType::Rgb8 && format == coded_format(header)),
        text::plain_path(path@) ==> format == (if color_type == ColorType::Rgb8
            && text::has_extension(path@, "webp"@) {
            coded_format(header)
        } else {
            None
        }),
{
    if !corrects(path, color_type) {
        return None;
    }
    match header {
        Some(header) => if !header.lossless && !header.has_alpha {
            Some(PixelFormat::Yuv420P8)
        } else {
            None
        },
        None => None,
    }
}

/// The interleaved layout libwebp is asked for.
#[derive(Clone, Copy, Debug, PartialEq, Eq, Structural)]
pub enum WebpLayout {
    Rgb,
    Rgba,
}

/// What an image whose probe is not one of a webp file is refused with.
pub open spec fn layout_text(info: ImageInfo) -> Seq<char> {
    "image '"@ + info.path@ + "' was probed as "@ + info.color_type.text()
        + ", which is not a webp layout"@
}

/// The layout and the channels of the probed color type, or why there is none.
pub open spec fn layout_of(info: ImageInfo) -> Result<(WebpLayout, int), Seq<char>> {
    match info.color_type {
        ColorType::Rgb8 => Ok((WebpLayout::Rgb, 3)),
        ColorType::Rgba8 => Ok((WebpLayout::Rgba, 4)),
        _ => Err(layout_text(info)),
    }
}

/// The libwebp layout for the probed color type, and the channels per pixel it
/// writes.
///
/// The probe reports `Rgb8` for a webp file without an alpha channel and `Rgba8`
/// with one. Asking libwebp for the layout that matches keeps the decoded buffer
/// byte for byte what the color type describes, alpha channel included.
pub fn layout(info: &ImageInfo) -> (layout: Result<(WebpLayout, usize), ImgSeqError>)
    ensures
        match (layout, layout_of(*info)) {
            (Ok(layout), Ok(expected)) => (layout.0, layout.1 as int) == expected,
            (Err(error), Err(message)) => error@ == error::error_text(message),
            _ => false,
        },
{
    match info.color_type {
        ColorType::Rgb8 => Ok((WebpLayout::Rgb, 3)),
        ColorType::Rgba8 => Ok((WebpLayout::Rgba, 4)),
        other => {
            let mut message = String::from_str("image '");
            message.append(info.path.as_str());
            message.append("' was probed as ");
            message.append(other.name());
            message.append(", which is not a webp layout");
            Err(ImgSeqError::new(message))
        },
    }
}

/// Bytes one packed row of the decoded image occupies.
pub fn row_bytes(width: u32, channels: usize) -> (bytes: Result<usize, ImgSeqError>)
    ensures
        match bytes {
            Ok(bytes) => bytes == width * channels,
            Err(error) => {
                &&& width * channels > usize::MAX
                &&& error@ == error::error_text("image row is too large"@)
            },
        },
{
    let columns: usize = width as usize;
    match columns.checked_mul(channels) {
        Some(bytes) => Ok(bytes),
        None => Err(ImgSeqError::from_display("image row is too large")),
    }
}

/// What an image whose rows are too wide is refused with.
pub open spec fn wide_text(info: ImageInfo) -> Seq<char> {
    "image '"@ + info.path@ + "' is too wide for libwebp"@
}

/// Row stride to hand libwebp for a row of `row_bytes` bytes.
pub fn stride_of(row_bytes: usize, info: &ImageInfo) -> (stride: Result<i32, ImgSeqError>)
    ensures
        match stride {
            Ok(stride) => stride == row_bytes,
            Err(error) => {
                &&& row_bytes > i32::MAX
                &&& error@ == error::error_text(wide_text(*info))
            },
        },
{
    if row_bytes > i32::MAX as usize {
        let mut message = String::from_str("image '");
        message.append(info.path.as_str());
        message.append("' is too wide for libwebp");
        return Err(ImgSeqError::new(message));
    }
    Ok(row_bytes as i32)
}

/// Why a bitstream libwebp reads the size `size` from is not the probed image,
/// if it is not.
pub open spec fn size_problem(info: ImageInfo, size: Option<(u32, u32)>) -> Option<Seq<char>> {
    match size {
        None => Some(
            decoder::image_error_text(
                "decode"@,
                info.path@,
                "libwebp did not recognise the bitstream"@,
            ),
        ),
        Some((width, height)) => if width != info.width || height != info.height {
            Some(
                "image '"@ + info.path@ + "' changed after probing (was "@ + planar::size_text(
                    info.width as int,
                    info.height as int,
                ) + ", now "@ + planar::size_text(width as int, height as int) + ")"@,
            )
        } else {
            None
        },
    }
}

/// Checks the size libwebp reads from a bitstream against the probe.
pub fn check_size(info: &ImageInfo, size: Option<(u32, u32)>) -> (checked: Result<(), ImgSeqError>)
    ensures
        match (checked, size_problem(*info, size)) {
            (Ok(_), None) => true,
            (Err(error), Some(message)) => error@ == error::error_text(message),
            _ => false,
        },
{
    let (width, height) = match size {
        Some(size) => size,
        None => {
            return Err(
                image_error(
                    "decode",
                    info.path.as_str(),
                    "libwebp did not recognise the bitstream",
                ),
            );
        },
    };
    if width != info.width || height != info.height {
        let mut message = String::from_str("image '");
        message.append(info.path.as_str());
        message.append("' changed after probing (was ");
        let mut message = planar::append_size(message, info.width as usize, info.height as usize);
        message.append(", now ");
        let mut message = planar::append_size(message, width as usize, height as usize);
        message.append(")");
        return Err(ImgSeqError::new(message));
    }
    Ok(())
}

/// The interleaved buffer libwebp decodes into.
#[derive(Clone, Copy, Debug, PartialEq, Eq, Structural)]
pub struct RgbPlan {
    pub layout: WebpLayout,
    pub stride: i32,
    pub size: usize,
}

/// The interleaved buffer an image is decoded into, or why it has none.
pub open spec fn rgb_plan_of(info: ImageInfo) -> Result<RgbPlan, Seq<char>> {
    match layout_of(info) {
        Err(message) => Err(message),
        Ok((layout, channels)) => {
            let row = info.width * channels;
            if row > usize::MAX {
                Err("image row is too large"@)
            } else if row > i32::MAX {
                Err(wide_text(info))
            } else if row * info.height > usize::MAX {
                Err("image is too large"@)
            } else {
                Ok(RgbPlan { layout, stride: row as i32, size: (row * info.height) as usize })
            }
        },
    }
}

/// Plans the interleaved buffer of an image.
///
/// The buffer the frame writer reads holds every channel of the color type, so
/// the layout libwebp writes and the row size come from the same decision and
/// cannot disagree.
pub fn rgb_plan(info: &ImageInfo) -> (plan: Result<RgbPlan, ImgSeqError>)
    ensures
        match (plan, rgb_plan_of(*info)) {
            (Ok(plan), Ok(expected)) => plan == expected,
            (Err(error), Err(message)) => error@ == error::error_text(message),
            _ => false,
        },
{
    let (layout, channels) = match layout(info) {
        Ok(layout) => layout,
        Err(error) => {
            return Err(error);
        },
    };
    let row: usize = match row_bytes(info.width, channels) {
        Ok(row) => row,
        Err(error) => {
            return Err(error);
        },
    };
    let stride: i32 = match stride_of(row, info) {
        Ok(stride) => stride,
        Err(error) => {
            return Err(error);
        },
    };
    match row.checked_mul(info.height as usize) {
        Some(size) => Ok(RgbPlan { layout, stride, size }),
        None => Err(ImgSeqError::from_display("image is too large")),
    }
}

/// One plane libwebp decodes into.
#[derive(Clone, Copy, Debug, PartialEq, Eq, Structural)]
pub struct PlanePlan {
    pub stride: i32,
    pub size: usize,
}

/// Whether `plan` is what libwebp is told about plane `plane` of an image.
pub open spec fn plane_plan_of(info: ImageInfo, plane: int, plan: PlanePlan) -> bool {
    &&& plan.stride == PixelFormat::Yuv420P8.decoded_plane(
        plane,
        info.width as int,
        info.height as int,
    ).0
    &&& plan.size == pixel_format::saturated(
        PixelFormat::Yuv420P8.packed_plane(plane, info.width as int, info.height as int),
    )
}

/// Plans the three planes of a lossy image.
pub fn yuv_plan(info: &ImageInfo) -> (plan: Result<(PlanePlan, PlanePlan, PlanePlan), ImgSeqError>)
    ensures
        match plan {
            Ok((luma, blue, red)) => {
                &&& plane_plan_of(*info, 0, luma)
                &&& plane_plan_of(*info, 1, blue)
                &&& plane_plan_of(*info, 2, red)
            },
            Err(error) => {
                &&& info.width > i32::MAX
                &&& error@ == error::error_text(wide_text(*info))
            },
        },
{
    let format = PixelFormat::Yuv420P8;
    let width: usize = info.width as usize;
    let height: usize = info.height as usize;
    let (luma_width, _) = format.plane_dimensions(0, width, height);
    let (chroma_width, _) = format.plane_dimensions(1, width, height);
    let luma_stride: i32 = match stride_of(luma_width, info) {
        Ok(stride) => stride,
        Err(error) => {
            return Err(error);
        },
    };
    let chroma_stride: i32 = match stride_of(chroma_width, info) {
        Ok(stride) => stride,
        Err(error) => {
            return Err(error);
        },
    };
    Ok(
        (
            PlanePlan { stride: luma_stride, size: format.plane_bytes(0, width, height) },
            PlanePlan { stride: chroma_stride, size: format.plane_bytes(1, width, height) },
            PlanePlan { stride: chroma_stride, size: format.plane_bytes(2, width, height) },
        ),
    )
}

/// The buffers libwebp decodes an image into.
#[derive(Clone, Copy, Debug, PartialEq, Eq, Structural)]
pub enum WebpPlan {
    Rgb(RgbPlan),
    Yuv(PlanePlan, PlanePlan, PlanePlan),
}

/// Plans the buffers of an image: its own planes where it is handed out as yuv,
/// and one interleaved buffer else.
pub fn pixels_plan(info: &ImageInfo) -> (plan: Result<WebpPlan, ImgSeqError>)
    ensures
        info.format == PixelFormat::Yuv420P8 ==> match plan {
            Ok(WebpPlan::Yuv(luma, blue, red)) => {
                &&& plane_plan_of(*info, 0, luma)
                &&& plane_plan_of(*info, 1, blue)
                &&& plane_plan_of(*info, 2, red)
            },
            Ok(WebpPlan::Rgb(_)) => false,
            Err(error) => {
                &&& info.width > i32::MAX
                &&& error@ == error::error_text(wide_text(*info))
            },
        },
        info.format != PixelFormat::Yuv420P8 ==> match (plan, rgb_plan_of(*info)) {
            (Ok(WebpPlan::Rgb(plan)), Ok(expected)) => plan == expected,
            (Err(error), Err(message)) => error@ == error::error_text(message),
            _ => false,
        },
{
    if info.format == PixelFormat::Yuv420P8 {
        return match yuv_plan(info) {
            Ok((luma, blue, red)) => Ok(WebpPlan::Yuv(luma, blue, red)),
            Err(error) => Err(error),
        };
    }
    match rgb_plan(info) {
        Ok(plan) => Ok(WebpPlan::Rgb(plan)),
        Err(error) => Err(error),
    }
}

/// What a bitstream libwebp does not decode is refused with.
pub fn rejected(info: &ImageInfo) -> (error: ImgSeqError)
    ensures
        error@ == error::error_text(
            decoder::image_error_text("decode"@, info.path@, "libwebp rejected the bitstream"@),
        ),
{
    image_error("decode", info.path.as_str(), "libwebp rejected the bitstream")
}

proof fn lemma_tag(tag: Seq<u8>, letters: Seq<u8>)
    requires
        tag.len() == 4,
        letters.len() == 4,
    ensures
        (tag == letters) == (bytes::be32(tag, 0) == bytes::be32(letters, 0)),
{
    if bytes::be32(tag, 0) == bytes::be32(letters, 0) {
        assert(tag =~= letters);
    }
}

/// A chunk says what its tag says: an image that is stored with loss or without, the
/// flags of an extended file, an alpha channel, an animation, which has no coding of
/// its own, or nothing at all. The next chunk is behind the payload, whose length is
/// stored with its lowest byte first and made even. What is cut off says nothing.
pub proof fn a_chunk_says_what_its_tag_says(data: Seq<u8>, at: int, has_alpha: bool)
    requires
        0 <= at,
        at + 8 <= data.len(),
    ensures
        ({
            let tag = data.subrange(at, at + 4);
            let size = data[at + 4] + 0x100 * (data[at + 5] + 0x100 * (data[at + 6] + 0x100 * data[
            at + 7]));
            let next = at + 8 + (if size % 2 == 0 {
                size
            } else {
                size + 1
            });
            let said = coding_from(data, at, has_alpha);
            if next > data.len() {
                said is None
            } else if tag == seq![0x56u8, 0x50, 0x38, 0x20] {
                said matches Some(header) && !header.lossless && header.has_alpha == has_alpha
            } else if tag == seq![0x56u8, 0x50, 0x38, 0x4c] {
                said matches Some(header) && header.lossless && header.has_alpha == has_alpha
            } else if tag == seq![0x56u8, 0x50, 0x38, 0x58] {
                said == (if at + 18 <= data.len() {
                    coding_from(data, at + 18, (data[at + 8] as int / 16) % 2 == 1)
                } else {
                    None
                })
            } else if tag == seq![0x41u8, 0x4c, 0x50, 0x48] {
                said == coding_from(data, next, true)
            } else if tag == seq![0x41u8, 0x4e, 0x49, 0x4d] || tag == seq![
                0x41u8,
                0x4e,
                0x4d,
                0x46,
            ] {
                said is None
            } else {
                said == coding_from(data, next, has_alpha)
            }
        }),
{
    let chunk = data.subrange(at, at + 8);
    let tag = data.subrange(at, at + 4);
    assert(chunk[0] == data[at] && chunk[1] == data[at + 1]);
    assert(chunk[2] == data[at + 2] && chunk[3] == data[at + 3]);
    assert(chunk[4] == data[at + 4] && chunk[5] == data[at + 5]);
    assert(chunk[6] == data[at + 6] && chunk[7] == data[at + 7]);
    assert(bytes::be32(tag, 0) == bytes::be32(chunk, 0));
    lemma_tag(tag, seq![0x56u8, 0x50, 0x38, 0x20]);
    lemma_tag(tag, seq![0x56u8, 0x50, 0x38, 0x4c]);
    lemma_tag(tag, seq![0x56u8, 0x50, 0x38, 0x58]);
    lemma_tag(tag, seq![0x41u8, 0x4c, 0x50, 0x48]);
    lemma_tag(tag, seq![0x41u8, 0x4e, 0x49, 0x4d]);
    lemma_tag(tag, seq![0x41u8, 0x4e, 0x4d, 0x46]);
}

/// A webp starts with the tag of a riff file and, behind its length, its own, and
/// its first chunk follows. No alpha channel is known of before that.
pub proof fn the_chunks_of_a_webp_follow_its_two_tags(data: Seq<u8>)
    ensures
        starts_webp(data) == (data.len() >= 12 && data.subrange(0, 4) == seq![
            0x52u8,
            0x49,
            0x46,
            0x46,
        ] && data.subrange(8, 12) == seq![0x57u8, 0x45, 0x42, 0x50]),
        starts_webp(data) ==> coding_of(data) == coding_from(data, 12, false),
        !starts_webp(data) ==> coding_of(data) is None,
{
    if data.len() >= 12 {
        let first = data.subrange(0, 4);
        let own = data.subrange(8, 12);
        assert(bytes::be32(first, 0) == bytes::be32(data, 0));
        assert(bytes::be32(own, 0) == bytes::be32(data, 8));
        lemma_tag(first, seq![0x52u8, 0x49, 0x46, 0x46]);
        lemma_tag(own, seq![0x57u8, 0x45, 0x42, 0x50]);
    }
}

/// A file is handed out as yuv just when it is stored with loss and has no alpha
/// channel, and then as the planes a lossy webp has: bytes, with one chroma sample
/// for two columns of two rows.
pub proof fn only_a_lossy_webp_without_alpha_is_yuv(header: Option<BitstreamHeader>)
    ensures
        match coded_format(header) {
            Some(format) => {
                &&& header matches Some(header) && !header.lossless && !header.has_alpha
                &&& format.family() == ColorFamily::YUV
                &&& format.subsampling() == (1int, 1int)
                &&& format.bits() == 8
            },
            None => header matches Some(header) ==> header.lossless || header.has_alpha,
        },
{
}

/// The planes libwebp is told about are as large as those of a picture with one
/// chroma sample for two columns of two rows, where a last odd column or row has
/// chroma samples too.
pub proof fn a_plane_is_planned_at_its_size(info: ImageInfo, plane: int, plan: PlanePlan)
    requires
        plane_plan_of(info, plane, plan),
        0 <= plane < 3,
        info.width * info.height <= usize::MAX,
    ensures
        plane == 0 ==> plan.stride == info.width && plan.size == info.width * info.height,
        plane > 0 ==> plan.stride == (info.width + 1) / 2 && plan.size == ((info.width + 1) / 2)
            * ((info.height + 1) / 2),
{
    let (width, height) = (info.width as int, info.height as int);
    assert(((width + 1) / 2) * ((height + 1) / 2) <= usize::MAX) by {
        assert(usize::MAX >= 0xffff_ffff);
        let half_width = (width + 1) / 2;
        let half_height = (height + 1) / 2;
        if width > 0 && height > 0 {
            assert(half_width * half_height <= width * height) by (nonlinear_arith)
                requires
                    0 <= half_width <= width,
                    0 <= half_height <= height,
            ;
        } else {
            assert(half_width * half_height == 0) by (nonlinear_arith)
                requires
                    half_width == 0 || half_height == 0,
            ;
        }
    }
    assert(PixelFormat::Yuv420P8.packed_plane(plane, width, height) == (if plane == 0 {
        width * height
    } else {
        ((width + 1) / 2) * ((height + 1) / 2)
    }));
}

/// The interleaved buffer of an image has three or four bytes for every pixel, as
/// its colour type has channels, in rows without a gap. There is one just when the
/// probe found a webp layout and libwebp can be told the length of a row.
pub proof fn an_interleaved_buffer_has_its_channels_side_by_side(info: ImageInfo)
    ensures
        match rgb_plan_of(info) {
            Ok(plan) => {
                let channels: int = match info.color_type {
                    ColorType::Rgba8 => 4,
                    _ => 3,
                };
                &&& info.color_type == ColorType::Rgb8 || info.color_type == ColorType::Rgba8
                &&& (plan.layout == WebpLayout::Rgba) == (info.color_type == ColorType::Rgba8)
                &&& plan.stride == channels * info.width
                &&& plan.size == plan.stride * info.height
            },
            Err(_) => {
                ||| info.color_type != ColorType::Rgb8 && info.color_type != ColorType::Rgba8
                ||| 4 * info.width > i32::MAX
                ||| 4 * info.width * info.height > usize::MAX
            },
        },
{
    let (width, height) = (info.width as int, info.height as int);
    assert(3 * width * height <= 4 * width * height) by (nonlinear_arith)
        requires
            0 <= width,
            0 <= height,
    ;
}

/// A bitstream is taken for the probed image just when libwebp reads the very size
/// that was probed from it.
pub proof fn a_bitstream_of_another_size_is_refused(info: ImageInfo, size: Option<(u32, u32)>)
    ensures
        (size_problem(info, size) is None) == (size == Some((info.width, info.height))),
{
}

} // verus!
