//! Writing a decoded picture into the planes of a frame.

use vstd::prelude::*;

use crate::error::{self, ImgSeqError};
use crate::frame::{ByteOrder, Frame, Plane};
use crate::image_types::ColorType;
use crate::pixel::channel;
use crate::pixel::channel::{write_channel, write_run, Channel, ChannelSource};
use crate::pixel::layout;
use crate::pixel::layout::{frame_depth, image_layout, plane_target, planes_to_write, ImageLayout};
use crate::pixel::pixel_format;
use crate::pixel::pixel_format::PixelFormat;
use crate::pixel::samples;
use crate::pixel::transform::Transform;
use crate::pixel::walk;
use crate::pixel::walk::{for_each_block, BlockRun};

verus! {

#[derive(Clone, Copy, Debug)]
pub struct WriteTimings {
    /// Time spent converting the decoder's buffer into the planes of the frame.
    pub deinterleave: std::time::Duration,
}

/// Channel `channel` of an interleaved buffer, moved down by `shift` bits.
pub open spec fn channel_of(
    pixels: Seq<u8>,
    shape: ImageLayout,
    channel: int,
    shift: u32,
    order: ByteOrder,
) -> Channel {
    Channel {
        pixels,
        row_bytes: shape.row_bytes as int,
        channels: shape.channels as int,
        channel,
        bytes: shape.format.word(),
        shift: shift as int,
        order,
    }
}

/// Whether two frames differ in nothing but what their planes hold.
pub open spec fn same_shape(before: Frame, after: Frame) -> bool {
    &&& after.format == before.format
    &&& after.order == before.order
    &&& after.properties == before.properties
    &&& after.planes@.len() == before.planes@.len()
}

/// Whether `after` is `before` with the picture in its first `count` planes:
/// every plane shows the channel of its own number, and no other is touched.
pub open spec fn planes_show(
    before: Frame,
    after: Frame,
    count: int,
    pixels: Seq<u8>,
    shape: ImageLayout,
    transform: Transform,
    shift: u32,
) -> bool {
    let (width, rows) = transform.size(shape.width as int, shape.height as int);
    &&& same_shape(before, after)
    &&& forall|plane: int|
        0 <= plane < before.planes@.len() ==> if plane < count {
            channel::plane_shows(
                before.planes@[plane],
                #[trigger] after.planes@[plane],
                width,
                rows,
                channel_of(pixels, shape, plane, shift, before.order),
                transform,
            )
        } else {
            after.planes@[plane] == before.planes@[plane]
        }
}

/// Whether one walk of the buffer fills every plane, which is how a transpose
/// that has a plane for each channel is written.
pub open spec fn one_walk(transform: Transform, planes: int, channels: int) -> bool {
    transform.swaps() && planes == channels && (planes == 2 || planes == 3)
}

/// Whether `result` and `after` are what writing `planes` planes leaves: the
/// picture in all of them, or the problem of the first plane that does not take
/// it, with the planes before that one written unless one walk fills them all.
pub open spec fn planes_outcome<T>(
    before: Frame,
    after: Frame,
    result: Result<T, ImgSeqError>,
    planes: int,
    pixels: Seq<u8>,
    shape: ImageLayout,
    transform: Transform,
    shift: u32,
) -> bool {
    let row_bytes = transform.size(shape.width as int, shape.height as int).0
        * shape.format.word();
    let fine = layout::fine_planes(before, planes, row_bytes);
    if row_bytes > usize::MAX {
        error::fails_with(result, "image plane row is too large"@) && after == before
    } else if fine < planes {
        &&& error::fails_with(result, layout::target_problem(before, fine, row_bytes).unwrap())
        &&& planes_show(
            before,
            after,
            if one_walk(transform, planes, shape.channels as int) {
                0
            } else {
                fine
            },
            pixels,
            shape,
            transform,
            shift,
        )
    } else {
        result is Ok && planes_show(before, after, planes, pixels, shape, transform, shift)
    }
}

/// Whether a layout is what its buffer holds, so that the channels of the buffer
/// can be read by it.
pub open spec fn layout_holds(shape: ImageLayout, pixels: Seq<u8>) -> bool {
    &&& shape.channels >= 1
    &&& shape.channels <= 4
    &&& shape.row_bytes == shape.width * shape.channels * shape.format.word()
    &&& pixels.len() == shape.row_bytes * shape.height
}

pub(crate) proof fn lemma_layout_holds(color_type: ColorType, width: u32, height: u32, pixels: Seq<u8>)
    requires
        layout::layout_of(color_type, width, height, pixels.len() as int) is Ok,
    ensures
        layout_holds(
            layout::layout_of(color_type, width, height, pixels.len() as int)->Ok_0,
            pixels,
        ),
{
    let format = PixelFormat::of_color_type(color_type)->Some_0;
    let channels = pixel_format::channels_of(color_type)->Some_0;
    let row = width * channels * format.word();
    assert(0 <= row) by (nonlinear_arith)
        requires
            row == width * channels * format.word(),
            1 <= channels,
            1 <= format.word(),
    ;
    assert(0 <= row * height) by (nonlinear_arith)
        requires
            0 <= row,
    ;
}

pub(crate) proof fn lemma_channel_holds(
    pixels: Seq<u8>,
    shape: ImageLayout,
    channel: int,
    shift: u32,
    order: ByteOrder,
)
    requires
        layout_holds(shape, pixels),
        0 <= channel < shape.channels,
        samples::movable(shape.format.word(), shift as int),
    ensures
        channel_of(pixels, shape, channel, shift, order).holds(
            shape.width as int,
            shape.height as int,
        ),
{
    let word = shape.format.word();
    assert(shape.channels * word <= 16) by (nonlinear_arith)
        requires
            shape.channels <= 4,
            0 <= word <= 4,
    ;
    assert(shape.width * (shape.channels * word) == shape.width * shape.channels * word)
        by (nonlinear_arith);
    assert(shape.height * shape.row_bytes == shape.row_bytes * shape.height) by (nonlinear_arith);
}

proof fn lemma_same_targets(before: Frame, after: Frame, index: int, row_bytes: int)
    requires
        before.planes@.len() == after.planes@.len(),
        index < before.planes@.len() ==> before.planes@[index].stride
            == after.planes@[index].stride,
    ensures
        layout::target_problem(before, index, row_bytes) == layout::target_problem(
            after,
            index,
            row_bytes,
        ),
{
}

/// Checks the planes a write fills, the first one first.
fn check_targets(frame: &Frame, planes: usize, row_bytes: usize) -> (checked: Result<
    (),
    ImgSeqError,
>)
    ensures
        ({
            let fine = layout::fine_planes(*frame, planes as int, row_bytes as int);
            if fine < planes {
                error::fails_with(
                    checked,
                    layout::target_problem(*frame, fine, row_bytes as int).unwrap(),
                )
            } else {
                checked is Ok && fine == planes
            }
        }),
{
    let mut plane: usize = 0;
    while plane < planes
        invariant
            plane <= planes,
            layout::fine_planes(*frame, plane as int, row_bytes as int) == plane,
        decreases planes - plane,
    {
        match plane_target(frame, plane, row_bytes) {
            Ok(_) => {},
            Err(error) => {
                proof {
                    layout::lemma_leading_fine_stops(|at: int| layout::target_problem(*frame, at, row_bytes as int), plane as int, planes as int);
                }
                return Err(error);
            },
        }
        plane += 1;
    }
    Ok(())
}

/// Whether plane `plane` of a frame is where a walk of the buffer has brought
/// it, with the runs of `remaining` still to write.
spec fn plane_walked(
    before: Frame,
    now: Plane,
    plane: int,
    remaining: Seq<BlockRun>,
    pixels: Seq<u8>,
    shape: ImageLayout,
    transform: Transform,
    shift: u32,
) -> bool {
    let (width, rows) = transform.size(shape.width as int, shape.height as int);
    channel::partly_shows(
        before.planes@[plane],
        now,
        remaining,
        width,
        rows,
        channel_of(pixels, shape, plane, shift, before.order),
        transform,
    )
}

/// Write every channel of a transposing transform into its own plane in one walk.
///
/// One pass per plane reads the whole decoder buffer once per plane; when every
/// channel has a plane of its own, one walk reads each source sample group once
/// and writes every channel of it.
fn write_transposed_planes(
    frame: &mut Frame,
    shape: &ImageLayout,
    planes: usize,
    row_bytes: usize,
    pixels: &[u8],
    transform: Transform,
    shift: u32,
) -> (written: Result<(), ImgSeqError>)
    requires
        old(frame).valid(),
        layout_holds(*shape, pixels@),
        planes <= shape.channels,
        one_walk(transform, planes as int, shape.channels as int),
        samples::movable(shape.format.word(), shift as int),
        row_bytes == transform.size(shape.width as int, shape.height as int).0
            * shape.format.word(),
        forall|plane: int|
            0 <= plane < planes ==> #[trigger] old(frame).has_rows(
                plane,
                transform.size(shape.width as int, shape.height as int).1,
            ),
    ensures
        final(frame).valid(),
        planes_outcome(
            *old(frame),
            *final(frame),
            written,
            planes as int,
            pixels@,
            *shape,
            transform,
            shift,
        ),
{
    let ghost before = *frame;
    match check_targets(frame, planes, row_bytes) {
        Ok(_) => {},
        Err(error) => {
            return Err(error);
        },
    }
    let (width, rows) = transform.output_size(shape.width, shape.height);
    let word: usize = shape.format.bytes_per_sample();
    proof {
        walk::every_run_lies_in_the_plane(width as int, rows as int, 0);
        assert forall|plane: int| 0 <= plane < planes implies {
            &&& plane < before.planes@.len()
            &&& row_bytes <= before.planes@[plane].stride
            &&& rows <= before.planes@[plane].rows@.len()
            &&& before.planes@[plane].valid()
            &&& plane_walked(
                before,
                #[trigger] before.planes@[plane],
                plane,
                walk::plane_runs(width as int, rows as int, 0),
                pixels@,
                *shape,
                transform,
                shift,
            )
        } by {
            layout::lemma_leading_fine_is_fine(|at: int| layout::target_problem(before, at, row_bytes as int), planes as int, plane);
            assert(before.has_rows(plane, rows as int));
            channel::lemma_walk_starts(
                before.planes@[plane],
                width as int,
                rows as int,
                channel_of(pixels@, *shape, plane, shift, before.order),
                transform,
            );
        }
    }
    proof {
        layout::lemma_leading_fine_is_fine(|at: int| layout::target_problem(before, at, row_bytes as int), planes as int, planes - 1);
    }
    let mut blocks = for_each_block(width, rows);
    let mut done: bool = false;
    while !done
        invariant
            blocks.valid(),
            before.valid(),
            frame.valid(),
            same_shape(before, *frame),
            planes <= before.planes@.len(),
            planes <= shape.channels,
            layout_holds(*shape, pixels@),
            samples::movable(shape.format.word(), shift as int),
            word == shape.format.word(),
            (width as int, rows as int) == transform.size(
                shape.width as int,
                shape.height as int,
            ),
            row_bytes == width * word,
            forall|i: int|
                0 <= i < blocks.remaining().len() ==> walk::run_fits(
                    #[trigger] blocks.remaining()[i],
                    width as int,
                    rows as int,
                ),
            forall|plane: int|
                0 <= plane < planes ==> row_bytes <= (#[trigger] before.planes@[plane]).stride
                    && rows <= before.planes@[plane].rows@.len(),
            forall|plane: int|
                0 <= plane < planes ==> {
                    &&& plane_walked(
                        before,
                        #[trigger] frame.planes@[plane],
                        plane,
                        blocks.remaining(),
                        pixels@,
                        *shape,
                        transform,
                        shift,
                    )
                },
            forall|plane: int|
                planes <= plane < before.planes@.len() ==> #[trigger] frame.planes@[plane]
                    == before.planes@[plane],
            done ==> blocks.remaining().len() == 0,
        decreases blocks.remaining().len(), (if done { 0int } else { 1int }),
    {
        let ghost remaining = blocks.remaining();
        match blocks.next() {
            Some(run) => {
                assert(walk::run_fits(remaining[0], width as int, rows as int));
                let mut plane: usize = 0;
                while plane < planes
                    invariant
                        plane <= planes,
                        remaining.len() > 0,
                        run == remaining[0],
                        walk::run_fits(run, width as int, rows as int),
                        before.valid(),
                        frame.valid(),
                        same_shape(before, *frame),
                        planes <= before.planes@.len(),
                        planes <= shape.channels,
                        layout_holds(*shape, pixels@),
                        samples::movable(shape.format.word(), shift as int),
                        word == shape.format.word(),
                        (width as int, rows as int) == transform.size(
                            shape.width as int,
                            shape.height as int,
                        ),
                        row_bytes == width * word,
                        forall|other: int|
                            0 <= other < planes ==> row_bytes <= (
                            #[trigger] before.planes@[other]).stride && rows
                                <= before.planes@[other].rows@.len(),
                        forall|other: int|
                            0 <= other < planes ==> {
                                &&& plane_walked(
                                    before,
                                    #[trigger] frame.planes@[other],
                                    other,
                                    if other < plane {
                                        remaining.skip(1)
                                    } else {
                                        remaining
                                    },
                                    pixels@,
                                    *shape,
                                    transform,
                                    shift,
                                )
                            },
                        forall|other: int|
                            planes <= other < before.planes@.len()
                                ==> #[trigger] frame.planes@[other] == before.planes@[other],
                    decreases planes - plane,
                {
                    let source = ChannelSource {
                        pixels,
                        row_bytes: shape.row_bytes,
                        channels: shape.channels,
                        channel: plane,
                        bytes: word,
                        shift,
                        order: frame.order,
                    };
                    let ghost held = *frame;
                    proof {
                        assert(source@ == channel_of(
                            pixels@,
                            *shape,
                            plane as int,
                            shift,
                            before.order,
                        ));
                        lemma_channel_holds(pixels@, *shape, plane as int, shift, before.order);
                        assert(plane_walked(
                            before,
                            frame.planes@[plane as int],
                            plane as int,
                            remaining,
                            pixels@,
                            *shape,
                            transform,
                            shift,
                        ));
                    }
                    write_run(&mut frame.planes[plane], run, width, rows, &source, transform);
                    proof {
                        channel::lemma_walk_steps(
                            before.planes@[plane as int],
                            held.planes@[plane as int],
                            frame.planes@[plane as int],
                            remaining,
                            width as int,
                            rows as int,
                            source@,
                            transform,
                        );
                        assert forall|other: int| 0 <= other < planes implies {
                            &&& plane_walked(
                                before,
                                #[trigger] frame.planes@[other],
                                other,
                                if other < plane + 1 {
                                    remaining.skip(1)
                                } else {
                                    remaining
                                },
                                pixels@,
                                *shape,
                                transform,
                                shift,
                            )
                        } by {
                            assert(plane_walked(
                                before,
                                held.planes@[other],
                                other,
                                if other < plane {
                                    remaining.skip(1)
                                } else {
                                    remaining
                                },
                                pixels@,
                                *shape,
                                transform,
                                shift,
                            ));
                            if other != plane {
                                assert(frame.planes@[other] == held.planes@[other]);
                            }
                        }
                        assert forall|other: int|
                            0 <= other < frame.planes@.len() implies (
                        #[trigger] frame.planes@[other]).valid() by {
                            if other != plane {
                                assert(held.planes@[other].valid());
                            }
                        }
                    }
                    plane += 1;
                }
                proof {
                    assert forall|i: int| 0 <= i < blocks.remaining().len() implies walk::run_fits(
                        #[trigger] blocks.remaining()[i],
                        width as int,
                        rows as int,
                    ) by {
                        assert(blocks.remaining()[i] == remaining[i + 1]);
                    }
                    assert forall|other: int| 0 <= other < planes implies plane_walked(
                        before,
                        #[trigger] frame.planes@[other],
                        other,
                        blocks.remaining(),
                        pixels@,
                        *shape,
                        transform,
                        shift,
                    ) by {
                        assert(plane_walked(
                            before,
                            frame.planes@[other],
                            other,
                            if other < planes {
                                remaining.skip(1)
                            } else {
                                remaining
                            },
                            pixels@,
                            *shape,
                            transform,
                            shift,
                        ));
                    }
                }
            },
            None => {
                done = true;
            },
        }
    }
    proof {
        assert(blocks.remaining() =~= Seq::<BlockRun>::empty());
        assert forall|plane: int| 0 <= plane < planes implies channel::plane_shows(
            before.planes@[plane],
            #[trigger] frame.planes@[plane],
            width as int,
            rows as int,
            channel_of(pixels@, *shape, plane, shift, before.order),
            transform,
        ) by {
            assert(plane_walked(
                before,
                frame.planes@[plane],
                plane,
                blocks.remaining(),
                pixels@,
                *shape,
                transform,
                shift,
            ));
            channel::lemma_walk_ends(
                before.planes@[plane],
                frame.planes@[plane],
                width as int,
                rows as int,
                channel_of(pixels@, *shape, plane, shift, before.order),
                transform,
            );
        }
        assert(planes_show(before, *frame, planes as int, pixels@, *shape, transform, shift));
    }
    Ok(())
}

/// Write the leading channels of a buffer into the planes of a frame.
fn write_planes(
    frame: &mut Frame,
    shape: &ImageLayout,
    planes: usize,
    pixels: &[u8],
    transform: Transform,
    shift: u32,
) -> (written: Result<(), ImgSeqError>)
    requires
        old(frame).valid(),
        layout_holds(*shape, pixels@),
        planes <= shape.channels,
        samples::movable(shape.format.word(), shift as int),
        forall|plane: int|
            0 <= plane < planes ==> #[trigger] old(frame).has_rows(
                plane,
                transform.size(shape.width as int, shape.height as int).1,
            ),
    ensures
        final(frame).valid(),
        planes_outcome(
            *old(frame),
            *final(frame),
            written,
            planes as int,
            pixels@,
            *shape,
            transform,
            shift,
        ),
{
    let ghost before = *frame;
    let (width, rows) = transform.output_size(shape.width, shape.height);
    let word: usize = shape.format.bytes_per_sample();
    let row_bytes: usize = match width.checked_mul(word) {
        Some(bytes) => bytes,
        None => {
            return Err(ImgSeqError::from_display("image plane row is too large"));
        },
    };
    // A transpose reads the buffer across the row it is writing, so a plane at a
    // time reads the whole buffer once per plane. When every channel has a plane
    // of its own, one walk fills all of them instead.
    if transform.transposes() && planes == shape.channels && (planes == 2 || planes == 3) {
        return write_transposed_planes(
            frame,
            shape,
            planes,
            row_bytes,
            pixels,
            transform,
            shift,
        );
    }
    let mut plane: usize = 0;
    while plane < planes
        invariant
            plane <= planes,
            planes <= shape.channels,
            !one_walk(transform, planes as int, shape.channels as int),
            before == *old(frame),
            before.valid(),
            frame.valid(),
            layout_holds(*shape, pixels@),
            samples::movable(shape.format.word(), shift as int),
            word == shape.format.word(),
            (width as int, rows as int) == transform.size(
                shape.width as int,
                shape.height as int,
            ),
            row_bytes == width * word,
            forall|other: int|
                0 <= other < planes ==> #[trigger] before.has_rows(other, rows as int),
            layout::fine_planes(before, plane as int, row_bytes as int) == plane,
            planes_show(before, *frame, plane as int, pixels@, *shape, transform, shift),
        decreases planes - plane,
    {
        proof {
            if plane < before.planes@.len() {
                assert(frame.planes@[plane as int] == before.planes@[plane as int]);
            }
            lemma_same_targets(before, *frame, plane as int, row_bytes as int);
        }
        match plane_target(frame, plane, row_bytes) {
            Ok(_) => {},
            Err(error) => {
                proof {
                    layout::lemma_leading_fine_stops(|at: int| layout::target_problem(before, at, row_bytes as int), plane as int, planes as int);
                }
                return Err(error);
            },
        }
        let source = ChannelSource {
            pixels,
            row_bytes: shape.row_bytes,
            channels: shape.channels,
            channel: plane,
            bytes: word,
            shift,
            order: frame.order,
        };
        let ghost held = *frame;
        proof {
            assert(source@ == channel_of(pixels@, *shape, plane as int, shift, before.order));
            lemma_channel_holds(pixels@, *shape, plane as int, shift, before.order);
            assert(before.has_rows(plane as int, rows as int));
        }
        write_channel(&mut frame.planes[plane], width, rows, &source, transform);
        proof {
            assert forall|other: int| 0 <= other < frame.planes@.len() implies (
            #[trigger] frame.planes@[other]).valid() by {
                if other != plane {
                    assert(held.planes@[other].valid());
                }
            }
            assert forall|other: int| 0 <= other < before.planes@.len() implies if other < plane
                + 1 {
                channel::plane_shows(
                    before.planes@[other],
                    #[trigger] frame.planes@[other],
                    width as int,
                    rows as int,
                    channel_of(pixels@, *shape, other, shift, before.order),
                    transform,
                )
            } else {
                frame.planes@[other] == before.planes@[other]
            } by {
                if other != plane {
                    assert(frame.planes@[other] == held.planes@[other]);
                }
            }
        }
        plane += 1;
    }
    Ok(())
}

/// Whether `result` and `after` are what writing an interleaved picture into
/// `before` leaves.
pub open spec fn planar_outcome<T>(
    before: Frame,
    after: Frame,
    result: Result<T, ImgSeqError>,
    color_type: ColorType,
    width: u32,
    height: u32,
    pixels: Seq<u8>,
    transform: Transform,
) -> bool {
    match layout::layout_of(color_type, width, height, pixels.len() as int) {
        Err(message) => error::fails_with(result, message) && after == before,
        Ok(shape) => match layout::planes_of(before.format.num_planes, shape.channels as int) {
            Err(message) => error::fails_with(result, message) && after == before,
            Ok(planes) => match layout::depth_of(before.format, shape.format) {
                Err(message) => error::fails_with(result, message) && after == before,
                Ok(depth) => planes_outcome(
                    before,
                    after,
                    result,
                    planes,
                    pixels,
                    shape,
                    transform,
                    depth.shift,
                ),
            },
        },
    }
}

/// Convert one interleaved decoded image directly into the planes of a frame.
///
/// The frame holds what `transform` produces, so an orientation that transposes
/// the picture is written into a frame that is as tall as the image is wide.
/// The frame's own depth decides whether the samples are written as they were
/// decoded or moved down out of the word they were scaled into; see
/// [`frame_depth`]. The planes that are written have to be as tall as the
/// picture is handed out.
pub fn write_planar(
    frame: &mut Frame,
    color_type: ColorType,
    width: u32,
    height: u32,
    pixels: &[u8],
    transform: Transform,
) -> (written: Result<WriteTimings, ImgSeqError>)
    requires
        old(frame).valid(),
        old(frame).format.depth_is_sound(),
        forall|plane: int|
            0 <= plane < old(frame).format.num_planes ==> #[trigger] old(frame).has_rows(
                plane,
                transform.size(width as int, height as int).1,
            ),
    ensures
        final(frame).valid(),
        planar_outcome(
            *old(frame),
            *final(frame),
            written,
            color_type,
            width,
            height,
            pixels@,
            transform,
        ),
{
    let shape = match image_layout(color_type, width, height, pixels) {
        Ok(shape) => shape,
        Err(error) => {
            return Err(error);
        },
    };
    let planes: usize = match planes_to_write(frame.format.num_planes, shape.channels) {
        Ok(planes) => planes,
        Err(error) => {
            return Err(error);
        },
    };
    let depth = match frame_depth(&frame.format, shape.format) {
        Ok(depth) => depth,
        Err(error) => {
            return Err(error);
        },
    };
    proof {
        lemma_layout_holds(color_type, width, height, pixels@);
    }
    let started = std::time::Instant::now();
    match write_planes(frame, &shape, planes, pixels, transform, depth.shift) {
        Ok(_) => Ok(WriteTimings { deinterleave: started.elapsed() }),
        Err(error) => Err(error),
    }
}

} // verus!
