//! Writing the alpha plane of a picture.

use vstd::prelude::*;

use crate::error::{self, ImgSeqError};
use crate::frame::{ByteOrder, Frame, Plane};
use crate::image_types::ColorType;
use crate::pixel::channel;
use crate::pixel::channel::{write_channel, ChannelSource};
use crate::pixel::interleaved;
use crate::pixel::interleaved::WriteTimings;
use crate::pixel::layout;
use crate::pixel::layout::{frame_depth, image_layout, plane_target, ImageLayout};
use crate::pixel::pixel_format;
use crate::pixel::pixel_format::{alpha_channel, PixelFormat};
use crate::pixel::samples;
use crate::pixel::samples::put_bytes;
use crate::pixel::transform::Transform;

verus! {

/// The float one, as its bits.
pub const FLOAT_ONE: u32 = 0x3f80_0000;

/// The opaque sample of a word of `bytes` bytes: the largest number a byte
/// holds, `maximum` in a two byte word, and one as a float.
pub open spec fn opaque_sample(bytes: int, maximum: int, order: ByteOrder) -> Seq<u8> {
    if bytes == 1 {
        seq![255u8]
    } else if bytes == 2 {
        samples::word_bytes(maximum, order)
    } else {
        match order {
            ByteOrder::Little => seq![0u8, 0u8, 0x80u8, 0x3fu8],
            ByteOrder::Big => seq![0x3fu8, 0x80u8, 0u8, 0u8],
        }
    }
}

/// Whether `after` is `before` with `sample` in every column of its first
/// `rows` rows of `width` samples. Neither the padding of a row nor a further
/// row is touched.
pub open spec fn plane_filled(
    before: Plane,
    after: Plane,
    width: int,
    rows: int,
    sample: Seq<u8>,
) -> bool {
    &&& after.stride == before.stride
    &&& after.rows@.len() == before.rows@.len()
    &&& forall|at: int|
        0 <= at < before.rows@.len() ==> (#[trigger] after.rows@[at])@ == (if at < rows {
            samples::packed(width, sample.len() as int, |x: int| sample) + before.rows@[at]@.skip(
                width * sample.len(),
            )
        } else {
            before.rows@[at]@
        })
}

/// The bytes of the opaque sample of a word of `bytes` bytes.
fn opaque_bytes(bytes: usize, maximum: u16, order: ByteOrder) -> (sample: Vec<u8>)
    requires
        bytes == 1 || bytes == 2 || bytes == 4,
    ensures
        sample@ == opaque_sample(bytes as int, maximum as int, order),
        sample@.len() == bytes,
{
    let mut sample: Vec<u8> = Vec::new();
    if bytes == 1 {
        sample.push(255);
        return sample;
    }
    if bytes == 2 {
        let low: u8 = (maximum % 256) as u8;
        let high: u8 = (maximum / 256) as u8;
        match order {
            ByteOrder::Little => {
                sample.push(low);
                sample.push(high);
            },
            ByteOrder::Big => {
                sample.push(high);
                sample.push(low);
            },
        }
        return sample;
    }
    assert(FLOAT_ONE / 0x100_0000 == 0x3f && FLOAT_ONE / 0x1_0000 % 0x100 == 0x80 && FLOAT_ONE
        / 0x100 % 0x100 == 0 && FLOAT_ONE % 0x100 == 0);
    let first: u8 = (FLOAT_ONE / 0x100_0000) as u8;
    let second: u8 = (FLOAT_ONE / 0x1_0000 % 0x100) as u8;
    let third: u8 = (FLOAT_ONE / 0x100 % 0x100) as u8;
    let fourth: u8 = (FLOAT_ONE % 0x100) as u8;
    match order {
        ByteOrder::Little => {
            sample.push(fourth);
            sample.push(third);
            sample.push(second);
            sample.push(first);
        },
        ByteOrder::Big => {
            sample.push(first);
            sample.push(second);
            sample.push(third);
            sample.push(fourth);
        },
    }
    sample
}

/// Fill the first `width` samples of the first `rows` rows of a plane.
fn fill_plane(plane: &mut Plane, width: usize, rows: usize, sample: &Vec<u8>)
    requires
        old(plane).valid(),
        rows <= old(plane).rows@.len(),
        0 < sample@.len(),
        width * sample@.len() <= old(plane).stride,
    ensures
        final(plane).valid(),
        plane_filled(*old(plane), *final(plane), width as int, rows as int, sample@),
{
    let ghost before = *plane;
    let bytes: usize = sample.len();
    let stride: usize = plane.stride;
    let ghost same = |x: int| sample@;
    let mut line: Vec<u8> = Vec::new();
    let mut column: usize = 0;
    while column < width
        invariant
            column <= width,
            bytes == sample@.len(),
            0 < bytes,
            width * bytes <= stride,
            same == (|x: int| sample@),
            line@.len() == column * bytes,
            forall|i: int|
                0 <= i < line@.len() ==> #[trigger] line@[i] == same(i / bytes as int)[i
                    % bytes as int],
        decreases width - column,
    {
        let ghost held = line@;
        let mut byte: usize = 0;
        while byte < bytes
            invariant
                byte <= bytes,
                bytes == sample@.len(),
                held.len() == column * bytes,
                line@.len() == held.len() + byte,
                forall|i: int| 0 <= i < held.len() ==> #[trigger] line@[i] == held[i],
                forall|i: int|
                    held.len() <= i < line@.len() ==> #[trigger] line@[i] == sample@[i
                        - held.len()],
            decreases bytes - byte,
        {
            line.push(sample[byte]);
            byte += 1;
        }
        proof {
            assert forall|i: int| 0 <= i < line@.len() implies #[trigger] line@[i] == same(
                i / bytes as int,
            )[i % bytes as int] by {
                if i < held.len() {
                    assert(line@[i] == held[i]);
                } else {
                    samples::lemma_sample_byte(column as int, i - column * bytes, bytes as int);
                }
            }
            assert((column + 1) * bytes == column * bytes + bytes) by (nonlinear_arith);
        }
        column += 1;
    }
    assert(line@ =~= samples::packed(width as int, bytes as int, same));
    let mut row: usize = 0;
    while row < rows
        invariant
            row <= rows,
            rows <= before.rows@.len(),
            bytes == sample@.len(),
            line@.len() == width * bytes,
            width * bytes <= before.stride,
            line@ == samples::packed(width as int, bytes as int, |x: int| sample@),
            before.valid(),
            plane.valid(),
            plane.stride == before.stride,
            plane.rows@.len() == before.rows@.len(),
            forall|at: int|
                0 <= at < before.rows@.len() ==> (#[trigger] plane.rows@[at])@ == (if at < row {
                    line@ + before.rows@[at]@.skip(width * bytes)
                } else {
                    before.rows@[at]@
                }),
        decreases rows - row,
    {
        put_bytes(line.as_slice(), &mut plane.rows[row]);
        row += 1;
    }
}

/// Whether `after` is `before` with nothing but its first plane changed.
pub open spec fn other_planes_kept(before: Frame, after: Frame) -> bool {
    &&& interleaved::same_shape(before, after)
    &&& forall|plane: int|
        1 <= plane < before.planes@.len() ==> #[trigger] after.planes@[plane]
            == before.planes@[plane]
}

/// Whether `result` and `after` are what filling the first plane of `before`
/// with the opaque sample leaves.
pub open spec fn fill_outcome<T>(
    before: Frame,
    after: Frame,
    result: Result<T, ImgSeqError>,
    width: int,
    rows: int,
    bytes: int,
    maximum: int,
) -> bool {
    if width * bytes > usize::MAX {
        error::fails_with(result, "image plane row is too large"@) && after == before
    } else {
        match layout::target_problem(before, 0, width * bytes) {
            Some(message) => error::fails_with(result, message) && after == before,
            None => {
                &&& result is Ok
                &&& other_planes_kept(before, after)
                &&& plane_filled(
                    before.planes@[0],
                    after.planes@[0],
                    width,
                    rows,
                    opaque_sample(bytes, maximum, before.order),
                )
            },
        }
    }
}

/// Fill the single plane of a gray frame with one value.
fn fill_alpha_plane(frame: &mut Frame, width: usize, rows: usize, bytes: usize, maximum: u16) -> (
    written: Result<(), ImgSeqError>)
    requires
        old(frame).valid(),
        bytes == 1 || bytes == 2 || bytes == 4,
        old(frame).has_rows(0, rows as int),
    ensures
        final(frame).valid(),
        fill_outcome(
            *old(frame),
            *final(frame),
            written,
            width as int,
            rows as int,
            bytes as int,
            maximum as int,
        ),
{
    let row_bytes: usize = match width.checked_mul(bytes) {
        Some(bytes) => bytes,
        None => {
            return Err(ImgSeqError::from_display("image plane row is too large"));
        },
    };
    match plane_target(frame, 0, row_bytes) {
        Ok(_) => {},
        Err(error) => {
            return Err(error);
        },
    }
    let sample = opaque_bytes(bytes, maximum, frame.order);
    let ghost before = *frame;
    fill_plane(&mut frame.planes[0], width, rows, &sample);
    proof {
        assert forall|other: int| 0 <= other < frame.planes@.len() implies (
        #[trigger] frame.planes@[other]).valid() by {
            if other != 0 {
                assert(before.planes@[other].valid());
            }
        }
    }
    Ok(())
}

/// Fill the single plane of a gray frame with the opaque value.
///
/// Sources that decode to planes without an alpha plane have nothing to write,
/// so their alpha clip is opaque everywhere. `width` and `height` are the size
/// of the frame, which a rotation may have swapped relative to the file.
pub fn write_opaque_alpha(frame: &mut Frame, format: PixelFormat, width: u32, height: u32) -> (
    written: Result<WriteTimings, ImgSeqError>)
    requires
        old(frame).valid(),
        old(frame).has_rows(0, height as int),
    ensures
        final(frame).valid(),
        fill_outcome(
            *old(frame),
            *final(frame),
            written,
            width as int,
            height as int,
            format.word(),
            format.maximum(),
        ),
{
    let started = std::time::Instant::now();
    match fill_alpha_plane(
        frame,
        width as usize,
        height as usize,
        format.bytes_per_sample(),
        format.integer_max(),
    ) {
        Ok(_) => Ok(WriteTimings { deinterleave: started.elapsed() }),
        Err(error) => Err(error),
    }
}

/// Whether `result` and `after` are what writing the alpha channel of an
/// interleaved picture leaves: the channel that carries alpha, or the opaque
/// value where none does.
pub open spec fn alpha_outcome<T>(
    before: Frame,
    after: Frame,
    result: Result<T, ImgSeqError>,
    color_type: ColorType,
    width: u32,
    height: u32,
    pixels: Seq<u8>,
    transform: Transform,
) -> bool {
    match layout::layout_of(color_type, width, height, pixels.len() as int) {
        Err(message) => error::fails_with(result, message) && after == before,
        Ok(shape) => match layout::depth_of(before.format, shape.format) {
            Err(message) => error::fails_with(result, message) && after == before,
            Ok(depth) => {
                let (columns, rows) = transform.size(width as int, height as int);
                let row_bytes = columns * shape.format.word();
                match pixel_format::alpha_index(color_type) {
                    None => fill_outcome(
                        before,
                        after,
                        result,
                        columns,
                        rows,
                        shape.format.word(),
                        depth.maximum as int,
                    ),
                    Some(channel) => if row_bytes > usize::MAX {
                        error::fails_with(result, "image plane row is too large"@) && after
                            == before
                    } else {
                        match layout::target_problem(before, 0, row_bytes) {
                            Some(message) => error::fails_with(result, message) && after
                                == before,
                            None => {
                                &&& result is Ok
                                &&& other_planes_kept(before, after)
                                &&& channel::plane_shows(
                                    before.planes@[0],
                                    after.planes@[0],
                                    columns,
                                    rows,
                                    interleaved::channel_of(
                                        pixels,
                                        shape,
                                        channel,
                                        depth.shift,
                                        before.order,
                                    ),
                                    transform,
                                )
                            },
                        }
                    },
                }
            },
        },
    }
}

/// Write one channel into the single plane of a gray frame.
fn write_alpha_plane(
    frame: &mut Frame,
    shape: &ImageLayout,
    channel: usize,
    pixels: &[u8],
    transform: Transform,
    shift: u32,
) -> (written: Result<(), ImgSeqError>)
    requires
        old(frame).valid(),
        interleaved::layout_holds(*shape, pixels@),
        channel < shape.channels,
        samples::movable(shape.format.word(), shift as int),
        old(frame).has_rows(0, transform.size(shape.width as int, shape.height as int).1),
    ensures
        final(frame).valid(),
        ({
            let (columns, rows) = transform.size(shape.width as int, shape.height as int);
            let row_bytes = columns * shape.format.word();
            if row_bytes > usize::MAX {
                error::fails_with(written, "image plane row is too large"@) && *final(frame)
                    == *old(frame)
            } else {
                match layout::target_problem(*old(frame), 0, row_bytes) {
                    Some(message) => error::fails_with(written, message) && *final(frame)
                        == *old(frame),
                    None => {
                        &&& written is Ok
                        &&& other_planes_kept(*old(frame), *final(frame))
                        &&& channel::plane_shows(
                            old(frame).planes@[0],
                            final(frame).planes@[0],
                            columns,
                            rows,
                            interleaved::channel_of(
                                pixels@,
                                *shape,
                                channel as int,
                                shift,
                                old(frame).order,
                            ),
                            transform,
                        )
                    },
                }
            }
        }),
{
    let (width, rows) = transform.output_size(shape.width, shape.height);
    let word: usize = shape.format.bytes_per_sample();
    let row_bytes: usize = match width.checked_mul(word) {
        Some(bytes) => bytes,
        None => {
            return Err(ImgSeqError::from_display("image plane row is too large"));
        },
    };
    match plane_target(frame, 0, row_bytes) {
        Ok(_) => {},
        Err(error) => {
            return Err(error);
        },
    }
    let source = ChannelSource {
        pixels,
        row_bytes: shape.row_bytes,
        channels: shape.channels,
        channel,
        bytes: word,
        shift,
        order: frame.order,
    };
    let ghost before = *frame;
    proof {
        assert(source@ == interleaved::channel_of(
            pixels@,
            *shape,
            channel as int,
            shift,
            before.order,
        ));
        interleaved::lemma_channel_holds(pixels@, *shape, channel as int, shift, before.order);
    }
    write_channel(&mut frame.planes[0], width, rows, &source, transform);
    proof {
        assert forall|other: int| 0 <= other < frame.planes@.len() implies (
        #[trigger] frame.planes@[other]).valid() by {
            if other != 0 {
                assert(before.planes@[other].valid());
            }
        }
    }
    Ok(())
}

/// Write the alpha channel of one decoded image into a gray frame.
///
/// Sources without an alpha channel produce an opaque plane, so an alpha clip
/// always has a meaningful value for every frame. The plane is transformed the
/// same way the colour plane is, which is what keeps the two aligned, and it is
/// written at the frame's own depth: a ten bit alpha clip holds the sample
/// itself, and its opaque fill is 1023.
pub fn write_alpha(
    frame: &mut Frame,
    color_type: ColorType,
    width: u32,
    height: u32,
    pixels: &[u8],
    transform: Transform,
) -> (written: Result<WriteTimings, ImgSeqError>)
    requires
        old(frame).valid(),
        old(frame).format.depth_is_sound(),
        old(frame).has_rows(0, transform.size(width as int, height as int).1),
    ensures
        final(frame).valid(),
        alpha_outcome(
            *old(frame),
            *final(frame),
            written,
            color_type,
            width,
            height,
            pixels@,
            transform,
        ),
{
    let shape = match image_layout(color_type, width, height, pixels) {
        Ok(shape) => shape,
        Err(error) => {
            return Err(error);
        },
    };
    let depth = match frame_depth(&frame.format, shape.format) {
        Ok(depth) => depth,
        Err(error) => {
            return Err(error);
        },
    };
    proof {
        interleaved::lemma_layout_holds(color_type, width, height, pixels@);
    }
    let started = std::time::Instant::now();
    let written = match alpha_channel(color_type) {
        Some(channel) => write_alpha_plane(
            frame,
            &shape,
            channel,
            pixels,
            transform,
            depth.shift,
        ),
        None => {
            // A constant plane has nothing to rearrange, so the transform is only
            // in the size it covers.
            let (columns, rows) = transform.output_size(shape.width, shape.height);
            fill_alpha_plane(frame, columns, rows, shape.format.bytes_per_sample(), depth.maximum)
        },
    };
    match written {
        Ok(_) => Ok(WriteTimings { deinterleave: started.elapsed() }),
        Err(error) => Err(error),
    }
}

} // verus!
