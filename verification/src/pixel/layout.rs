//! What a decoded buffer and a frame have to agree on before samples move.

use vstd::prelude::*;

use vstd::arithmetic::power2::pow2;

use crate::error::{self, ImgSeqError};
use crate::frame::{Frame, VideoFormat};
use crate::image_types::ColorType;
use crate::pixel::pixel_format;
use crate::pixel::pixel_format::{channel_count, largest_sample, unsupported_color, PixelFormat};
use crate::text;
use crate::text::decimal;

verus! {

/// Validated shape of one interleaved decoder buffer.
pub struct ImageLayout {
    pub format: PixelFormat,
    pub width: usize,
    pub height: usize,
    pub channels: usize,
    pub row_bytes: usize,
}

/// What a buffer of `actual` bytes is refused with when `expected` are needed.
pub open spec fn buffer_text(actual: int, expected: int) -> Seq<char> {
    "decoder returned "@ + text::decimal_text(actual as nat) + " bytes, expected "@
        + text::decimal_text(expected as nat)
}

/// The shape of an interleaved buffer of `len` bytes that holds a picture of
/// `width` x `height`, or why it cannot hold one.
pub open spec fn layout_of(color_type: ColorType, width: u32, height: u32, len: int) -> Result<
    ImageLayout,
    Seq<char>,
> {
    match (PixelFormat::of_color_type(color_type), pixel_format::channels_of(color_type)) {
        (Some(format), Some(channels)) => {
            let row = width * channels * format.word();
            if row > usize::MAX {
                Err("image row is too large"@)
            } else if row * height > usize::MAX {
                Err("image is too large"@)
            } else if len != row * height {
                Err(buffer_text(len, row * height))
            } else {
                Ok(
                    ImageLayout {
                        format,
                        width: width as usize,
                        height: height as usize,
                        channels: channels as usize,
                        row_bytes: row as usize,
                    },
                )
            }
        },
        _ => Err(pixel_format::unsupported_color_text(color_type)),
    }
}

/// Checks an interleaved buffer against the size and the colour type it is said
/// to have.
pub fn image_layout(color_type: ColorType, width: u32, height: u32, pixels: &[u8]) -> (layout:
    Result<ImageLayout, ImgSeqError>)
    ensures
        match (layout, layout_of(color_type, width, height, pixels@.len() as int)) {
            (Ok(layout), Ok(expected)) => layout == expected,
            (Err(error), Err(message)) => error@ == error::error_text(message),
            _ => false,
        },
{
    let format = match PixelFormat::from_color_type(color_type) {
        Some(format) => format,
        None => {
            return Err(unsupported_color(color_type));
        },
    };
    let channels: usize = match channel_count(color_type) {
        Ok(channels) => channels,
        Err(error) => {
            return Err(error);
        },
    };
    let word: usize = format.bytes_per_sample();
    let columns: usize = width as usize;
    let rows: usize = height as usize;
    proof {
        assert(columns * channels * word >= columns * channels) by (nonlinear_arith)
            requires
                0 <= columns * channels,
                1 <= word,
        ;
    }
    let row_bytes: usize = match columns.checked_mul(channels) {
        Some(samples) => match samples.checked_mul(word) {
            Some(bytes) => bytes,
            None => {
                return Err(ImgSeqError::from_display("image row is too large"));
            },
        },
        None => {
            return Err(ImgSeqError::from_display("image row is too large"));
        },
    };
    let expected: usize = match row_bytes.checked_mul(rows) {
        Some(bytes) => bytes,
        None => {
            return Err(ImgSeqError::from_display("image is too large"));
        },
    };
    if pixels.len() != expected {
        let mut message = String::from_str("decoder returned ");
        message.append(decimal(pixels.len() as u64).as_str());
        message.append(" bytes, expected ");
        message.append(decimal(expected as u64).as_str());
        return Err(ImgSeqError::new(message));
    }
    Ok(ImageLayout { format, width: columns, height: rows, channels, row_bytes })
}

/// What a frame declares about the depth of the samples written into it.
pub struct FrameDepth {
    /// How far right one decoded sample moves to fit the frame's depth.
    pub shift: u32,
    /// Largest sample the frame holds, which is what an opaque alpha plane is
    /// filled with: a ten bit alpha frame is opaque at 1023, not at 65535.
    pub maximum: u16,
}

/// The depth a frame declares for samples that arrive in the word of `source`,
/// or why such samples cannot be written into it.
pub open spec fn depth_of(format: VideoFormat, source: PixelFormat) -> Result<
    FrameDepth,
    Seq<char>,
> {
    if format.bytes_per_sample < 0 {
        Err("VapourSynth returned a negative sample size"@)
    } else if format.bytes_per_sample != source.word() {
        Err(
            "the frame holds "@ + text::decimal_text(format.bytes_per_sample as nat)
                + " byte samples, but the decoder returned "@ + text::decimal_text(
                source.word() as nat,
            ) + " byte samples"@,
        )
    } else if format.bits_per_sample < 0 {
        Err("VapourSynth returned a negative sample depth"@)
    } else if format.bits_per_sample > 8 * source.word() {
        Err(
            "the frame declares "@ + text::decimal_text(format.bits_per_sample as nat)
                + " bit samples, but the decoder returned "@ + text::decimal_text(
                (8 * source.word()) as nat,
            ) + " bit samples"@,
        )
    } else {
        Ok(
            FrameDepth {
                shift: (8 * source.word() - format.bits_per_sample) as u32,
                maximum: if format.bits_per_sample >= 16 {
                    65535
                } else {
                    (pow2(format.bits_per_sample as nat) - 1) as u16
                },
            },
        )
    }
}

/// Reads the depth a frame declares and checks it against the samples the
/// decoder returned.
///
/// Every interleaved source hands its samples scaled to the whole word they are
/// stored in. A frame whose format names a depth holds the sample itself, right
/// aligned at that depth, so the two are the same number exactly when the frame
/// declares the whole word. The shift recovers the sample exactly rather than
/// approximately, whatever the two depths are.
///
/// The two word sizes are checked to agree first, because every write moves
/// whole samples of the decoder's width into the frame's.
pub fn frame_depth(format: &VideoFormat, source: PixelFormat) -> (depth: Result<
    FrameDepth,
    ImgSeqError,
>)
    ensures
        match (depth, depth_of(*format, source)) {
            (Ok(depth), Ok(expected)) => depth == expected,
            (Err(error), Err(message)) => error@ == error::error_text(message),
            _ => false,
        },
{
    let word_bytes: usize = source.bytes_per_sample();
    if format.bytes_per_sample < 0 {
        return Err(ImgSeqError::from_display("VapourSynth returned a negative sample size"));
    }
    let frame_bytes: usize = format.bytes_per_sample as usize;
    if frame_bytes != word_bytes {
        let mut message = String::from_str("the frame holds ");
        message.append(decimal(frame_bytes as u64).as_str());
        message.append(" byte samples, but the decoder returned ");
        message.append(decimal(word_bytes as u64).as_str());
        message.append(" byte samples");
        return Err(ImgSeqError::new(message));
    }
    let word_bits: u32 = 8 * word_bytes as u32;
    if format.bits_per_sample < 0 {
        return Err(ImgSeqError::from_display("VapourSynth returned a negative sample depth"));
    }
    let frame_bits: u32 = format.bits_per_sample as u32;
    if frame_bits > word_bits {
        let mut message = String::from_str("the frame declares ");
        message.append(decimal(frame_bits as u64).as_str());
        message.append(" bit samples, but the decoder returned ");
        message.append(decimal(word_bits as u64).as_str());
        message.append(" bit samples");
        return Err(ImgSeqError::new(message));
    }
    Ok(FrameDepth { shift: word_bits - frame_bits, maximum: largest_sample(frame_bits) })
}

/// Planes of a frame that declares `frame_planes` which a buffer of `channels`
/// channels can fill, or why it can fill none.
pub open spec fn planes_of(frame_planes: i32, channels: int) -> Result<int, Seq<char>> {
    if frame_planes < 0 {
        Err("VapourSynth returned a negative plane count"@)
    } else if frame_planes > channels {
        Err(
            "the frame has "@ + text::decimal_text(frame_planes as nat)
                + " planes, but the decoder returned "@ + text::decimal_text(channels as nat)
                + " channels"@,
        )
    } else {
        Ok(frame_planes as int)
    }
}

/// Planes of a frame a decoder buffer of `channels` channels can fill.
///
/// A frame can ask for fewer planes than the buffer holds channels, in which
/// case the leading channels fill them. A frame that asks for more planes than
/// the buffer has channels cannot be filled at all.
pub fn planes_to_write(frame_planes: i32, channels: usize) -> (planes: Result<usize, ImgSeqError>)
    ensures
        match (planes, planes_of(frame_planes, channels as int)) {
            (Ok(planes), Ok(expected)) => planes == expected,
            (Err(error), Err(message)) => error@ == error::error_text(message),
            _ => false,
        },
{
    if frame_planes < 0 {
        return Err(ImgSeqError::from_display("VapourSynth returned a negative plane count"));
    }
    let planes: usize = frame_planes as usize;
    if planes > channels {
        let mut message = String::from_str("the frame has ");
        message.append(decimal(planes as u64).as_str());
        message.append(" planes, but the decoder returned ");
        message.append(decimal(channels as u64).as_str());
        message.append(" channels");
        return Err(ImgSeqError::new(message));
    }
    Ok(planes)
}

/// Why plane `index` of a frame cannot take rows of `row_bytes` bytes, if it
/// cannot.
pub open spec fn target_problem(frame: Frame, index: int, row_bytes: int) -> Option<Seq<char>> {
    if index >= frame.planes@.len() {
        Some("VapourSynth returned a null pointer for plane "@ + text::decimal_text(index as nat))
    } else if frame.planes@[index].stride < row_bytes {
        Some(
            "VapourSynth plane "@ + text::decimal_text(index as nat) + " stride "@
                + text::decimal_text(frame.planes@[index].stride as nat)
                + " is smaller than row size "@ + text::decimal_text(row_bytes as nat),
        )
    } else {
        None
    }
}

/// Checks that plane `index` of `frame` is there and takes rows of `row_bytes`
/// bytes.
///
/// Every write path needs the same two facts checked, and the checks are the
/// only way either can fail once the decoder buffer is known to be the right
/// size.
pub fn plane_target(frame: &Frame, index: usize, row_bytes: usize) -> (checked: Result<
    (),
    ImgSeqError,
>)
    ensures
        match (checked, target_problem(*frame, index as int, row_bytes as int)) {
            (Ok(_), None) => true,
            (Err(error), Some(message)) => error@ == error::error_text(message),
            _ => false,
        },
{
    if index >= frame.planes.len() {
        let mut message = String::from_str("VapourSynth returned a null pointer for plane ");
        message.append(decimal(index as u64).as_str());
        return Err(ImgSeqError::new(message));
    }
    let stride: usize = frame.planes[index].stride;
    if stride < row_bytes {
        let mut message = String::from_str("VapourSynth plane ");
        message.append(decimal(index as u64).as_str());
        message.append(" stride ");
        message.append(decimal(stride as u64).as_str());
        message.append(" is smaller than row size ");
        message.append(decimal(row_bytes as u64).as_str());
        return Err(ImgSeqError::new(message));
    }
    Ok(())
}

/// Leading planes, of the first `count`, that have no problem.
pub open spec fn leading_fine(problem: spec_fn(int) -> Option<Seq<char>>, count: int) -> int
    decreases count,
{
    if count <= 0 {
        0
    } else {
        let fine = leading_fine(problem, count - 1);
        if fine == count - 1 && problem(count - 1) is None {
            count
        } else {
            fine
        }
    }
}

pub(crate) proof fn lemma_leading_fine_bound(problem: spec_fn(int) -> Option<Seq<char>>, count: int)
    requires
        0 <= count,
    ensures
        0 <= leading_fine(problem, count) <= count,
    decreases count,
{
    if count > 0 {
        lemma_leading_fine_bound(problem, count - 1);
    }
}

pub(crate) proof fn lemma_leading_fine_stops(
    problem: spec_fn(int) -> Option<Seq<char>>,
    found: int,
    count: int,
)
    requires
        0 <= found < count,
        leading_fine(problem, found) == found,
        problem(found) is Some,
    ensures
        leading_fine(problem, count) == found,
    decreases count,
{
    if found < count - 1 {
        lemma_leading_fine_stops(problem, found, count - 1);
    }
}

pub(crate) proof fn lemma_leading_fine_is_fine(
    problem: spec_fn(int) -> Option<Seq<char>>,
    count: int,
    plane: int,
)
    requires
        leading_fine(problem, count) == count,
        0 <= plane < count,
    ensures
        problem(plane) is None,
    decreases count,
{
    lemma_leading_fine_bound(problem, count - 1);
    if plane < count - 1 {
        lemma_leading_fine_is_fine(problem, count - 1, plane);
    }
}

/// Planes of a frame that take rows of `row_bytes` bytes, counted from the
/// first one on and up to `count`.
pub open spec fn fine_planes(frame: Frame, count: int, row_bytes: int) -> int {
    leading_fine(|plane: int| target_problem(frame, plane, row_bytes), count)
}

} // verus!
