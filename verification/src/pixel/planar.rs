//! Writing a picture that is already split into planes.

use vstd::prelude::*;

use crate::error::{self, ImgSeqError};
use crate::frame::{ByteOrder, Frame};
use crate::pixel::channel;
use crate::pixel::channel::{write_channel, Channel, ChannelSource};
use crate::pixel::layout;
use crate::pixel::layout::plane_target;
use crate::pixel::pixel_format::PixelFormat;
use crate::pixel::transform::Transform;
use crate::pixel::interleaved;
use crate::pixel::interleaved::WriteTimings;
use crate::text;
use crate::text::decimal;

verus! {

/// A tightly packed plane of `width` columns as a picture of one channel.
pub open spec fn plane_channel(
    buffer: Seq<u8>,
    format: PixelFormat,
    width: int,
    order: ByteOrder,
) -> Channel {
    Channel {
        pixels: buffer,
        row_bytes: width * format.word(),
        channels: 1,
        channel: 0,
        bytes: format.word(),
        shift: 0,
        order,
    }
}

/// What a plane of the wrong length is refused with.
pub open spec fn plane_length_text(actual: int, plane: int, expected: int) -> Seq<char> {
    "decoder returned "@ + text::decimal_text(actual as nat) + " bytes for plane "@
        + text::decimal_text(plane as nat) + ", expected "@ + text::decimal_text(expected as nat)
}

/// `width` x `height`, as a message writes a size.
pub open spec fn size_text(width: int, height: int) -> Seq<char> {
    text::decimal_text(width as nat) + "x"@ + text::decimal_text(height as nat)
}

/// What a plane that is too small for the frame is refused with.
pub open spec fn plane_fit_text(
    decoded: (int, int),
    plane: int,
    held: (int, int),
    mapped: (int, int),
) -> Seq<char> {
    "decoder returned a "@ + size_text(decoded.0, decoded.1) + " plane "@ + text::decimal_text(
        plane as nat,
    ) + ", which cannot fill the "@ + size_text(held.0, held.1) + " the frame holds from a "@
        + size_text(mapped.0, mapped.1) + " source"@
}

/// Why plane `plane` of a decoded picture of `width` x `height` cannot be
/// written into a frame, if it cannot: its buffer has to hold the plane the
/// decoder laid out, and that plane, turned the way the frame is, has to be as
/// large as the frame's.
pub open spec fn plane_problem(
    frame: Frame,
    format: PixelFormat,
    width: int,
    height: int,
    buffers: Seq<Vec<u8>>,
    transform: Transform,
    plane: int,
) -> Option<Seq<char>> {
    let decoded = format.decoded_plane(plane, width, height);
    let decoded_row = decoded.0 * format.word();
    let output = transform.size(width, height);
    let held = format.frame_plane(plane, output.0, output.1);
    let row_bytes = held.0 * format.word();
    let mapped = transform.size(decoded.0, decoded.1);
    if decoded_row > usize::MAX {
        Some("image plane row is too large"@)
    } else if decoded_row * decoded.1 > usize::MAX {
        Some("image plane is too large"@)
    } else if buffers[plane]@.len() != decoded_row * decoded.1 {
        Some(plane_length_text(buffers[plane]@.len() as int, plane, decoded_row * decoded.1))
    } else if row_bytes > usize::MAX {
        Some("image plane row is too large"@)
    } else if held.0 > mapped.0 || held.1 > mapped.1 {
        Some(plane_fit_text(decoded, plane, held, mapped))
    } else {
        layout::target_problem(frame, plane, row_bytes)
    }
}

/// Planes of a decoded picture that can be written into a frame, counted from
/// the first one on and up to `count`.
pub open spec fn fine_buffers(
    frame: Frame,
    format: PixelFormat,
    width: int,
    height: int,
    buffers: Seq<Vec<u8>>,
    transform: Transform,
    count: int,
) -> int {
    layout::leading_fine(
        |plane: int|
            plane_problem(frame, format, width, height, buffers, transform, plane),
        count,
    )
}

/// Whether `after` is `before` with the first `count` planes of a decoded
/// picture in its own.
pub open spec fn buffers_show(
    before: Frame,
    after: Frame,
    count: int,
    format: PixelFormat,
    width: int,
    height: int,
    buffers: Seq<Vec<u8>>,
    transform: Transform,
) -> bool {
    let output = transform.size(width, height);
    &&& interleaved::same_shape(before, after)
    &&& forall|plane: int|
        0 <= plane < before.planes@.len() ==> if plane < count {
            channel::plane_shows(
                before.planes@[plane],
                #[trigger] after.planes@[plane],
                format.frame_plane(plane, output.0, output.1).0,
                format.frame_plane(plane, output.0, output.1).1,
                plane_channel(
                    buffers[plane]@,
                    format,
                    format.decoded_plane(plane, width, height).0,
                    before.order,
                ),
                transform,
            )
        } else {
            after.planes@[plane] == before.planes@[plane]
        }
}

/// What a picture with the wrong number of planes is refused with.
pub open spec fn plane_count_text(actual: int, format: PixelFormat) -> Seq<char> {
    "decoder returned "@ + text::decimal_text(actual as nat) + " planes, "@ + format.text()
        + " has "@ + text::decimal_text(format.planes() as nat)
}

/// Whether `result` and `after` are what writing a decoded picture that is split
/// into planes leaves: all of them written, or the problem of the first plane
/// that cannot be, with the planes before that one written.
pub open spec fn buffers_outcome<T>(
    before: Frame,
    after: Frame,
    result: Result<T, ImgSeqError>,
    format: PixelFormat,
    width: u32,
    height: u32,
    buffers: Seq<Vec<u8>>,
    transform: Transform,
) -> bool {
    let fine = fine_buffers(
        before,
        format,
        width as int,
        height as int,
        buffers,
        transform,
        format.planes(),
    );
    if buffers.len() != format.planes() {
        error::fails_with(result, plane_count_text(buffers.len() as int, format)) && after
            == before
    } else if fine < format.planes() {
        &&& error::fails_with(
            result,
            plane_problem(
                before,
                format,
                width as int,
                height as int,
                buffers,
                transform,
                fine,
            ).unwrap(),
        )
        &&& buffers_show(
            before,
            after,
            fine,
            format,
            width as int,
            height as int,
            buffers,
            transform,
        )
    } else {
        &&& result is Ok
        &&& buffers_show(
            before,
            after,
            format.planes(),
            format,
            width as int,
            height as int,
            buffers,
            transform,
        )
    }
}

/// A message with a size appended.
pub(crate) fn append_size(message: String, width: usize, height: usize) -> (longer: String)
    ensures
        longer@ == message@ + size_text(width as int, height as int),
{
    let mut longer = message;
    let mut size = decimal(width as u64);
    size.append("x");
    size.append(decimal(height as u64).as_str());
    longer.append(size.as_str());
    longer
}

fn plane_fit_error(
    decoded: (usize, usize),
    plane: usize,
    held: (usize, usize),
    mapped: (usize, usize),
) -> (error: ImgSeqError)
    ensures
        error@ == error::error_text(
            plane_fit_text(
                (decoded.0 as int, decoded.1 as int),
                plane as int,
                (held.0 as int, held.1 as int),
                (mapped.0 as int, mapped.1 as int),
            ),
        ),
{
    let mut message = append_size(String::from_str("decoder returned a "), decoded.0, decoded.1);
    message.append(" plane ");
    message.append(decimal(plane as u64).as_str());
    message.append(", which cannot fill the ");
    let mut message = append_size(message, held.0, held.1);
    message.append(" the frame holds from a ");
    let mut message = append_size(message, mapped.0, mapped.1);
    message.append(" source");
    ImgSeqError::new(message)
}

/// Writes plane `plane` of a decoded picture into the same plane of a frame.
fn write_buffer(
    frame: &mut Frame,
    format: PixelFormat,
    width: usize,
    height: usize,
    buffer: &Vec<u8>,
    plane: usize,
    transform: Transform,
    Ghost(buffers): Ghost<Seq<Vec<u8>>>,
) -> (written: Result<(), ImgSeqError>)
    requires
        old(frame).valid(),
        plane < buffers.len(),
        buffers[plane as int] == *buffer,
        old(frame).has_rows(
            plane as int,
            format.frame_plane(
                plane as int,
                transform.size(width as int, height as int).0,
                transform.size(width as int, height as int).1,
            ).1,
        ),
    ensures
        final(frame).valid(),
        interleaved::same_shape(*old(frame), *final(frame)),
        forall|other: int|
            0 <= other < old(frame).planes@.len() && other != plane ==> #[trigger] final(frame).planes@[other] == old(frame).planes@[other],
        match (
            written,
            plane_problem(
                *old(frame),
                format,
                width as int,
                height as int,
                buffers,
                transform,
                plane as int,
            ),
        ) {
            (Ok(_), None) => plane < old(frame).planes@.len() && channel::plane_shows(
                old(frame).planes@[plane as int],
                final(frame).planes@[plane as int],
                format.frame_plane(
                    plane as int,
                    transform.size(width as int, height as int).0,
                    transform.size(width as int, height as int).1,
                ).0,
                format.frame_plane(
                    plane as int,
                    transform.size(width as int, height as int).0,
                    transform.size(width as int, height as int).1,
                ).1,
                plane_channel(
                    buffers[plane as int]@,
                    format,
                    format.decoded_plane(plane as int, width as int, height as int).0,
                    old(frame).order,
                ),
                transform,
            ),
            (Err(error), Some(message)) => {
                &&& error@ == error::error_text(message)
                &&& *final(frame) == *old(frame)
            },
            _ => false,
        },
{
    let word: usize = format.bytes_per_sample();
    let (output_width, output_height) = transform.output_size(width, height);
    let buffer = buffer.as_slice();
    let (decoded_width, decoded_height) = format.plane_dimensions(plane, width, height);
    let decoded_row: usize = match decoded_width.checked_mul(word) {
        Some(bytes) => bytes,
        None => {
            return Err(ImgSeqError::from_display("image plane row is too large"));
        },
    };
    let expected: usize = match decoded_row.checked_mul(decoded_height) {
        Some(bytes) => bytes,
        None => {
            return Err(ImgSeqError::from_display("image plane is too large"));
        },
    };
    if buffer.len() != expected {
        let mut message = String::from_str("decoder returned ");
        message.append(decimal(buffer.len() as u64).as_str());
        message.append(" bytes for plane ");
        message.append(decimal(plane as u64).as_str());
        message.append(", expected ");
        message.append(decimal(expected as u64).as_str());
        return Err(ImgSeqError::new(message));
    }
    // The frame can be a row or a column smaller than the decoder's plane on an
    // odd size, and the extra samples have nowhere to go.
    let (frame_width, frame_height) = format.frame_plane_dimensions(
        plane,
        output_width,
        output_height,
    );
    let row_bytes: usize = match frame_width.checked_mul(word) {
        Some(bytes) => bytes,
        None => {
            return Err(ImgSeqError::from_display("image plane row is too large"));
        },
    };
    // A transform reads across the plane as well as along it, so what has to fit
    // is the source turned the same way the frame was.
    let (mapped_width, mapped_height) = transform.output_size(decoded_width, decoded_height);
    if frame_width > mapped_width || frame_height > mapped_height {
        return Err(
            plane_fit_error(
                (decoded_width, decoded_height),
                plane,
                (frame_width, frame_height),
                (mapped_width, mapped_height),
            ),
        );
    }
    match plane_target(frame, plane, row_bytes) {
        Ok(_) => {},
        Err(error) => {
            return Err(error);
        },
    }
    let source = ChannelSource {
        pixels: buffer,
        row_bytes: decoded_row,
        channels: 1,
        channel: 0,
        bytes: word,
        shift: 0,
        order: frame.order,
    };
    let ghost before = *frame;
    proof {
        let (picture_width, picture_height) = transform.size(
            frame_width as int,
            frame_height as int,
        );
        assert(picture_width <= decoded_width && picture_height <= decoded_height);
        assert(picture_width * (1 * word) <= decoded_row) by (nonlinear_arith)
            requires
                picture_width <= decoded_width,
                decoded_row == decoded_width * word,
                0 <= word,
        ;
        assert(picture_height * decoded_row <= decoded_row * decoded_height) by (nonlinear_arith)
            requires
                picture_height <= decoded_height,
                0 <= decoded_row,
        ;
        assert(source@.holds(picture_width, picture_height));
    }
    write_channel(&mut frame.planes[plane], frame_width, frame_height, &source, transform);
    proof {
        assert forall|other: int| 0 <= other < frame.planes@.len() implies (
        #[trigger] frame.planes@[other]).valid() by {
            if other != plane {
                assert(before.planes@[other].valid());
            }
        }
    }
    Ok(())
}

/// Writes every plane of a decoded picture, the first one first.
fn write_sample_planes(
    frame: &mut Frame,
    format: PixelFormat,
    width: u32,
    height: u32,
    planes: &[Vec<u8>],
    transform: Transform,
) -> (written: Result<WriteTimings, ImgSeqError>)
    requires
        old(frame).valid(),
        forall|plane: int|
            0 <= plane < format.planes() ==> #[trigger] old(frame).has_rows(
                plane,
                format.frame_plane(
                    plane,
                    transform.size(width as int, height as int).0,
                    transform.size(width as int, height as int).1,
                ).1,
            ),
    ensures
        final(frame).valid(),
        buffers_outcome(
            *old(frame),
            *final(frame),
            written,
            format,
            width,
            height,
            planes@,
            transform,
        ),
{
    let count: usize = format.plane_count();
    if planes.len() != count {
        let mut message = String::from_str("decoder returned ");
        message.append(decimal(planes.len() as u64).as_str());
        message.append(" planes, ");
        message.append(format.name());
        message.append(" has ");
        message.append(decimal(count as u64).as_str());
        return Err(ImgSeqError::new(message));
    }
    let columns: usize = width as usize;
    let rows: usize = height as usize;
    let started = std::time::Instant::now();
    let ghost before = *frame;
    let ghost problem = |plane: int|
        plane_problem(
            before,
            format,
            width as int,
            height as int,
            planes@,
            transform,
            plane,
        );
    let mut index: usize = 0;
    while index < count
        invariant
            index <= count,
            count == format.planes(),
            count == planes@.len(),
            columns == width,
            rows == height,
            before == *old(frame),
            frame.valid(),
            problem == (|plane: int|
                plane_problem(
                    before,
                    format,
                    width as int,
                    height as int,
                    planes@,
                    transform,
                    plane,
                )),
            layout::leading_fine(problem, index as int) == index,
            forall|plane: int|
                0 <= plane < format.planes() ==> #[trigger] before.has_rows(
                    plane,
                    format.frame_plane(
                        plane,
                        transform.size(width as int, height as int).0,
                        transform.size(width as int, height as int).1,
                    ).1,
                ),
            buffers_show(
                before,
                *frame,
                index as int,
                format,
                width as int,
                height as int,
                planes@,
                transform,
            ),
        decreases count - index,
    {
        let ghost held = *frame;
        proof {
            assert(before.has_rows(
                index as int,
                format.frame_plane(
                    index as int,
                    transform.size(width as int, height as int).0,
                    transform.size(width as int, height as int).1,
                ).1,
            ));
            if index < before.planes@.len() {
                assert(frame.planes@[index as int] == before.planes@[index as int]);
            }
            assert(plane_problem(
                held,
                format,
                width as int,
                height as int,
                planes@,
                transform,
                index as int,
            ) == problem(index as int));
        }
        match write_buffer(
            frame,
            format,
            columns,
            rows,
            &planes[index],
            index,
            transform,
            Ghost(planes@),
        ) {
            Ok(_) => {},
            Err(error) => {
                proof {
                    layout::lemma_leading_fine_stops(problem, index as int, count as int);
                }
                return Err(error);
            },
        }
        proof {
            assert forall|other: int| 0 <= other < before.planes@.len() && other != index implies
                #[trigger] frame.planes@[other] == held.planes@[other] by {}
        }
        index += 1;
    }
    Ok(WriteTimings { deinterleave: started.elapsed() })
}

/// Copy one tightly packed decoder buffer per plane into the planes of a frame.
///
/// Unlike [`write_planar`](crate::pixel::interleaved::write_planar) the buffers
/// already have the plane layout, so the samples are written as they are. The
/// planes have to be as tall as the frame's own planes are for the size the
/// picture is handed out as.
pub fn write_decoded_planes(
    frame: &mut Frame,
    format: PixelFormat,
    width: u32,
    height: u32,
    planes: &[Vec<u8>],
    transform: Transform,
) -> (written: Result<WriteTimings, ImgSeqError>)
    requires
        old(frame).valid(),
        forall|plane: int|
            0 <= plane < format.planes() ==> #[trigger] old(frame).has_rows(
                plane,
                format.frame_plane(
                    plane,
                    transform.size(width as int, height as int).0,
                    transform.size(width as int, height as int).1,
                ).1,
            ),
    ensures
        final(frame).valid(),
        buffers_outcome(
            *old(frame),
            *final(frame),
            written,
            format,
            width,
            height,
            planes@,
            transform,
        ),
{
    write_sample_planes(frame, format, width, height, planes, transform)
}

/// Copies the tightly packed buffer of a single plane into the plane of a frame
/// of a format that has no other.
pub fn write_decoded_plane(
    frame: &mut Frame,
    format: PixelFormat,
    width: u32,
    height: u32,
    plane: &Vec<u8>,
    transform: Transform,
) -> (written: Result<WriteTimings, ImgSeqError>)
    requires
        old(frame).valid(),
        format.planes() == 1,
        old(frame).has_rows(
            0,
            format.frame_plane(
                0,
                transform.size(width as int, height as int).0,
                transform.size(width as int, height as int).1,
            ).1,
        ),
    ensures
        final(frame).valid(),
        buffers_outcome(
            *old(frame),
            *final(frame),
            written,
            format,
            width,
            height,
            seq![*plane],
            transform,
        ),
{
    let started = std::time::Instant::now();
    let ghost buffers = seq![*plane];
    proof {
        let problem = |at: int|
            plane_problem(
                *frame,
                format,
                width as int,
                height as int,
                buffers,
                transform,
                at,
            );
        assert(layout::leading_fine(problem, 0) == 0);
        if problem(0) is Some {
            layout::lemma_leading_fine_stops(problem, 0, 1);
        }
    }
    match write_buffer(
        frame,
        format,
        width as usize,
        height as usize,
        plane,
        0,
        transform,
        Ghost(buffers),
    ) {
        Ok(_) => Ok(WriteTimings { deinterleave: started.elapsed() }),
        Err(error) => Err(error),
    }
}

} // verus!
