//! Writing one channel of a decoded buffer into one plane of a frame.

use vstd::prelude::*;

use vstd::arithmetic::div_mod::lemma_fundamental_div_mod_converse;
use vstd::slice::slice_subrange;

use crate::frame::{ByteOrder, Plane};
use crate::pixel::samples;
use crate::pixel::samples::{
    copy_samples, extract_channel, move_sample, put_bytes, reverse_samples,
};
use crate::pixel::transform;
use crate::pixel::transform::Transform;
use crate::pixel::walk;
use crate::pixel::walk::{for_each_block, BlockRun};

verus! {

broadcast use vstd::seq_lib::group_seq_properties;

/// One channel of a decoder's buffer, and how its samples are moved down.
pub struct ChannelSource<'a> {
    pub pixels: &'a [u8],
    /// Bytes from the start of one row to the start of the next.
    pub row_bytes: usize,
    /// Channels that are interleaved in a row.
    pub channels: usize,
    /// The one of them that is read.
    pub channel: usize,
    /// Bytes of one sample.
    pub bytes: usize,
    /// Bits every sample is moved down by.
    pub shift: u32,
    pub order: ByteOrder,
}

/// What one channel of a buffer holds, as a picture of samples.
pub struct Channel {
    pub pixels: Seq<u8>,
    pub row_bytes: int,
    pub channels: int,
    pub channel: int,
    pub bytes: int,
    pub shift: int,
    pub order: ByteOrder,
}

impl View for ChannelSource<'_> {
    type V = Channel;

    open spec fn view(&self) -> Channel {
        Channel {
            pixels: self.pixels@,
            row_bytes: self.row_bytes as int,
            channels: self.channels as int,
            channel: self.channel as int,
            bytes: self.bytes as int,
            shift: self.shift as int,
            order: self.order,
        }
    }
}

impl Channel {
    /// Whether the buffer holds a picture of `width` x `height`.
    pub open spec fn holds(self, width: int, height: int) -> bool {
        &&& samples::movable(self.bytes, self.shift)
        &&& 0 <= self.channel < self.channels
        &&& self.channels * self.bytes <= usize::MAX
        &&& 0 <= self.row_bytes <= usize::MAX
        &&& width * (self.channels * self.bytes) <= self.row_bytes
        &&& height * self.row_bytes <= self.pixels.len()
    }

    /// Where the sample of column `x` in row `y` starts.
    pub open spec fn start(self, x: int, y: int) -> int {
        y * self.row_bytes + x * (self.channels * self.bytes) + self.channel * self.bytes
    }

    /// The sample of column `x` in row `y`, as the frame holds it.
    pub open spec fn sample(self, x: int, y: int) -> Seq<u8> {
        samples::moved(
            samples::sample_at(self.pixels, self.start(x, y), self.bytes),
            self.shift,
            self.order,
        )
    }

    /// The samples of row `at` of a frame of `width` x `rows`: every one is read
    /// from where the transform finds it.
    pub open spec fn shown_row(
        self,
        transform: Transform,
        width: int,
        rows: int,
        at: int,
    ) -> Seq<u8> {
        samples::packed(
            width,
            self.bytes,
            |x: int|
                self.sample(
                    transform.source(x, at, width, rows).0,
                    transform.source(x, at, width, rows).1,
                ),
        )
    }
}

/// Whether `after` is `before` with the picture of `width` x `rows` that
/// `source` shows under `transform` written over its first samples. Neither the
/// padding of a row nor a further row is touched.
pub open spec fn plane_shows(
    before: Plane,
    after: Plane,
    width: int,
    rows: int,
    source: Channel,
    transform: Transform,
) -> bool {
    &&& after.stride == before.stride
    &&& after.rows@.len() == before.rows@.len()
    &&& forall|at: int|
        0 <= at < before.rows@.len() ==> (#[trigger] after.rows@[at])@ == (if at < rows {
            source.shown_row(transform, width, rows, at) + before.rows@[at]@.skip(
                width * source.bytes,
            )
        } else {
            before.rows@[at]@
        })
}

pub(crate) proof fn lemma_start_inside(source: Channel, width: int, height: int, x: int, y: int)
    requires
        source.holds(width, height),
        0 <= x < width,
        0 <= y < height,
    ensures
        0 <= y * source.row_bytes,
        y * source.row_bytes + source.row_bytes <= source.pixels.len(),
        0 <= x * (source.channels * source.bytes),
        x * (source.channels * source.bytes) + source.channels * source.bytes <= source.row_bytes,
        0 <= source.channel * source.bytes,
        source.channel * source.bytes + source.bytes <= source.channels * source.bytes,
        0 <= source.start(x, y),
        source.start(x, y) + source.bytes <= source.pixels.len(),
{
    let group = source.channels * source.bytes;
    assert(0 <= group) by (nonlinear_arith)
        requires
            group == source.channels * source.bytes,
            0 <= source.channels,
            0 <= source.bytes,
    ;
    samples::lemma_room(y, height, source.row_bytes);
    samples::lemma_room(x, width, group);
    samples::lemma_room(
        source.channel,
        source.channels,
        source.bytes,
    );
}

/// Writes the rows of a transform that does not transpose, which reads the
/// buffer along the row it is writing: the mirrors only decide which row that is
/// and which way round it goes.
fn write_rows(
    plane: &mut Plane,
    width: usize,
    rows: usize,
    source: &ChannelSource<'_>,
    transform: Transform,
)
    requires
        old(plane).valid(),
        rows <= old(plane).rows@.len(),
        width * source.bytes <= old(plane).stride,
        !transform.swaps(),
        source@.holds(width as int, rows as int),
    ensures
        final(plane).valid(),
        plane_shows(*old(plane), *final(plane), width as int, rows as int, source@, transform),
{
    let ghost bytes = source.bytes as int;
    let ghost group = source.channels * source.bytes;
    let ghost before = *plane;
    proof {
        assert(0 <= width * group) by (nonlinear_arith)
            requires
                0 <= width,
                0 <= group,
        ;
        assert(0 <= width * bytes) by (nonlinear_arith)
            requires
                0 <= width,
                0 <= bytes,
        ;
        assert(0 < group) by (nonlinear_arith)
            requires
                group == source.channels * source.bytes,
                0 < source.channels,
                0 < source.bytes,
        ;
    }
    let row_bytes: usize = width * source.bytes;
    let read_bytes: usize = width * (source.channels * source.bytes);
    let pixels_len: usize = source.pixels.len();
    let mut row: usize = 0;
    while row < rows
        invariant
            row <= rows,
            bytes == source.bytes,
            group == source.channels * source.bytes,
            0 < group,
            rows <= plane.rows@.len(),
            row_bytes == width * source.bytes,
            row_bytes <= plane.stride,
            read_bytes == width * group,
            pixels_len == source.pixels@.len(),
            !transform.swaps(),
            source@.holds(width as int, rows as int),
            before.valid(),
            plane.valid(),
            plane.stride == before.stride,
            plane.rows@.len() == before.rows@.len(),
            forall|at: int|
                0 <= at < before.rows@.len() ==> (#[trigger] plane.rows@[at])@ == (if at < row {
                    source@.shown_row(transform, width as int, rows as int, at)
                        + before.rows@[at]@.skip(width * source.bytes)
                } else {
                    before.rows@[at]@
                }),
        decreases rows - row,
    {
        let source_row: usize = if transform.flip_y {
            rows - 1 - row
        } else {
            row
        };
        proof {
            samples::lemma_room(
                source_row as int,
                rows as int,
                source.row_bytes as int,
            );
        }
        let start: usize = source_row * source.row_bytes;
        let read = slice_subrange(source.pixels, start, start + read_bytes);
        let mut line: Vec<u8> = vec![0u8; row_bytes];
        let ghost straight = |x: int| source@.sample(x, source_row as int);
        let ghost count = width as int;
        proof {
            lemma_fundamental_div_mod_converse(read_bytes as int, group, width as int, 0);
            lemma_fundamental_div_mod_converse(row_bytes as int, bytes, width as int, 0);
        }
        if source.channels == 1 {
            assert(source.channel == 0);
            assert(group == bytes && source.channel * source.bytes == 0) by (nonlinear_arith)
                requires
                    group == source.channels * source.bytes,
                    bytes == source.bytes,
                    source.channels == 1,
                    source.channel == 0,
            ;
            copy_samples(read, &mut line, source.bytes, source.shift, source.order);
            proof {
                let taken = |i: int|
                    samples::moved(
                        samples::sample_at(read@, i * source.bytes, bytes),
                        source.shift as int,
                        source.order,
                    );
                assert forall|i: int| 0 <= i < count implies #[trigger] taken(i) == straight(
                    i,
                ) by {
                    lemma_start_inside(source@, width as int, rows as int, i, source_row as int);
                    samples::lemma_room(i, width as int, group);
                    assert(samples::sample_at(read@, i * source.bytes, bytes)
                        =~= samples::sample_at(
                        source.pixels@,
                        source@.start(i, source_row as int),
                        bytes,
                    ));
                }
                lemma_same_row(count, bytes, taken, straight);
                assert(line@ =~= samples::packed(count, bytes, straight));
            }
        } else {
            extract_channel(
                read,
                &mut line,
                source.channels,
                source.channel,
                source.bytes,
                source.shift,
                source.order,
            );
            proof {
                let taken = |i: int|
                    samples::moved(
                        samples::channel_sample(
                            read@,
                            source.channels as int,
                            source.channel as int,
                            bytes,
                            i,
                        ),
                        source.shift as int,
                        source.order,
                    );
                assert forall|i: int| 0 <= i < count implies #[trigger] taken(i) == straight(
                    i,
                ) by {
                    lemma_start_inside(source@, width as int, rows as int, i, source_row as int);
                    samples::lemma_room(i, width as int, group);
                    assert(samples::channel_sample(
                        read@,
                        source.channels as int,
                        source.channel as int,
                        bytes,
                        i,
                    ) =~= samples::sample_at(
                        source.pixels@,
                        source@.start(i, source_row as int),
                        bytes,
                    ));
                }
                lemma_same_row(count, bytes, taken, straight);
                assert(line@ =~= samples::packed(count, bytes, straight));
            }
        }
        if transform.flip_x {
            reverse_samples(&mut line, source.bytes);
            proof {
                samples::a_mirrored_row_is_its_samples_from_the_end(
                    count,
                    bytes,
                    straight,
                );
            }
        }
        proof {
            let shown = |x: int|
                source@.sample(
                    transform.source(x, row as int, width as int, rows as int).0,
                    transform.source(x, row as int, width as int, rows as int).1,
                );
            let turned = |i: int| straight(count - 1 - i);
            if transform.flip_x {
                lemma_same_row(count, bytes, turned, shown);
            } else {
                lemma_same_row(count, bytes, straight, shown);
            }
            assert(line@ == source@.shown_row(transform, width as int, rows as int, row as int));
        }
        put_bytes(line.as_slice(), &mut plane.rows[row]);
        row += 1;
    }
}

proof fn lemma_same_row(
    count: int,
    bytes: int,
    left: spec_fn(int) -> Seq<u8>,
    right: spec_fn(int) -> Seq<u8>,
)
    requires
        0 <= count,
        0 < bytes,
        forall|i: int| 0 <= i < count ==> #[trigger] left(i) == right(i),
    ensures
        samples::packed(count, bytes, left) == samples::packed(
            count,
            bytes,
            right,
        ),
{
    let first = samples::packed(count, bytes, left);
    let second = samples::packed(count, bytes, right);
    assert forall|at: int| 0 <= at < first.len() implies first[at] == second[at] by {
        samples::lemma_split(at, count, bytes);
        assert(left(at / bytes) == right(at / bytes));
    }
    assert(first =~= second);
}

/// Writes one run of columns of one row of a plane.
pub(crate) fn write_run(
    plane: &mut Plane,
    run: BlockRun,
    width: usize,
    rows: usize,
    source: &ChannelSource<'_>,
    transform: Transform,
)
    requires
        old(plane).valid(),
        run.row < rows <= old(plane).rows@.len(),
        run.start <= run.end <= width,
        width * source.bytes <= old(plane).stride,
        source@.holds(
            transform.size(width as int, rows as int).0,
            transform.size(width as int, rows as int).1,
        ),
    ensures
        final(plane).valid(),
        final(plane).stride == old(plane).stride,
        final(plane).rows@.len() == old(plane).rows@.len(),
        forall|at: int|
            0 <= at < old(plane).rows@.len() && at != run.row ==> (#[trigger] final(plane).rows@[at])@ == old(plane).rows@[at]@,
        forall|i: int|
            0 <= i < old(plane).stride ==> #[trigger] final(plane).rows@[run.row as int]@[i] == (
            if run.start * source.bytes <= i < run.end * source.bytes {
                source@.shown_row(transform, width as int, rows as int, run.row as int)[i]
            } else {
                old(plane).rows@[run.row as int]@[i]
            }),
{
    let ghost bytes = source.bytes as int;
    let ghost at = run.row as int;
    let ghost before = *plane;
    let ghost shown = source@.shown_row(transform, width as int, rows as int, at);
    let ghost first = run.start * source.bytes;
    let stride: usize = plane.stride;
    let pixels_len: usize = source.pixels.len();
    let mut column: usize = run.start;
    while column < run.end
        invariant
            run.start <= column <= run.end <= width,
            run.row < rows <= plane.rows@.len(),
            at == run.row,
            bytes == source.bytes,
            first == run.start * source.bytes,
            stride == plane.stride,
            pixels_len == source.pixels@.len(),
            width * source.bytes <= stride,
            source@.holds(
                transform.size(width as int, rows as int).0,
                transform.size(width as int, rows as int).1,
            ),
            shown == source@.shown_row(transform, width as int, rows as int, at),
            before.valid(),
            plane.valid(),
            plane.stride == before.stride,
            plane.rows@.len() == before.rows@.len(),
            forall|other: int|
                0 <= other < before.rows@.len() && other != at ==> (
                #[trigger] plane.rows@[other])@ == before.rows@[other]@,
            forall|i: int|
                0 <= i < stride ==> #[trigger] plane.rows@[at]@[i] == (if first <= i < column
                    * source.bytes {
                    shown[i]
                } else {
                    before.rows@[at]@[i]
                }),
        decreases run.end - column,
    {
        let (x, y) = transform.source_of(column, run.row, width, rows);
        let ghost (picture_width, picture_height) = transform.size(width as int, rows as int);
        proof {
            lemma_start_inside(source@, picture_width, picture_height, x as int, y as int);
            samples::lemma_room(column as int, width as int, bytes);
        }
        let from: usize = y * source.row_bytes + x * (source.channels * source.bytes)
            + source.channel * source.bytes;
        let to: usize = column * source.bytes;
        let ghost held = plane.rows@[at]@;
        move_sample(
            source.pixels,
            from,
            &mut plane.rows[run.row],
            to,
            source.bytes,
            source.shift,
            source.order,
        );
        proof {
            assert((column + 1) * source.bytes == to + bytes) by (nonlinear_arith)
                requires
                    to == column * source.bytes,
                    bytes == source.bytes,
            ;
            assert(run.start * source.bytes <= column * source.bytes) by (nonlinear_arith)
                requires
                    run.start <= column,
            ;
            assert forall|i: int| 0 <= i < stride implies #[trigger] plane.rows@[at]@[i] == (
            if first <= i < (column + 1) * source.bytes {
                shown[i]
            } else {
                before.rows@[at]@[i]
            }) by {
                if to <= i < to + bytes {
                    samples::lemma_sample_byte(column as int, i - to, bytes);
                    assert(shown[i] == source@.sample(x as int, y as int)[i - to]);
                } else {
                    assert(plane.rows@[at]@[i] == held[i]);
                }
            }
        }
        column += 1;
    }
}

/// Whether `now` is `before` with every sample written that no run of
/// `remaining` covers.
pub(crate) open spec fn partly_shows(
    before: Plane,
    now: Plane,
    remaining: Seq<BlockRun>,
    width: int,
    rows: int,
    source: Channel,
    transform: Transform,
) -> bool {
    &&& now.valid()
    &&& now.stride == before.stride
    &&& now.rows@.len() == before.rows@.len()
    &&& forall|at: int|
        rows <= at < before.rows@.len() ==> (#[trigger] now.rows@[at])@ == before.rows@[at]@
    &&& forall|at: int, i: int|
        0 <= at < rows && width * source.bytes <= i < before.stride
            ==> #[trigger] now.rows@[at]@[i] == before.rows@[at]@[i]
    &&& forall|at: int, i: int|
        0 <= at < rows && 0 <= i < width * source.bytes && !walk::covered(
            remaining,
            at,
            i / source.bytes,
        ) ==> #[trigger] now.rows@[at]@[i] == source.shown_row(transform, width, rows, at)[i]
}

pub(crate) proof fn lemma_walk_starts(
    before: Plane,
    width: int,
    rows: int,
    source: Channel,
    transform: Transform,
)
    requires
        before.valid(),
        0 < source.bytes,
        0 <= width <= usize::MAX,
        0 <= rows <= usize::MAX,
    ensures
        partly_shows(
            before,
            before,
            walk::plane_runs(width, rows, 0),
            width,
            rows,
            source,
            transform,
        ),
{
    let runs = walk::plane_runs(width, rows, 0);
    assert forall|at: int, i: int|
        0 <= at < rows && 0 <= i < width * source.bytes && !walk::covered(
            runs,
            at,
            i / source.bytes,
        ) implies #[trigger] before.rows@[at]@[i] == source.shown_row(
        transform,
        width,
        rows,
        at,
    )[i] by {
        samples::lemma_split(i, width, source.bytes);
        walk::lemma_plane_covers(width, rows, 0, at, i / source.bytes);
    }
}

pub(crate) proof fn lemma_walk_ends(
    before: Plane,
    now: Plane,
    width: int,
    rows: int,
    source: Channel,
    transform: Transform,
)
    requires
        before.valid(),
        rows <= before.rows@.len(),
        0 <= width * source.bytes <= before.stride,
        partly_shows(before, now, Seq::empty(), width, rows, source, transform),
    ensures
        plane_shows(before, now, width, rows, source, transform),
{
    assert forall|at: int| 0 <= at < before.rows@.len() implies (#[trigger] now.rows@[at])@ == (
    if at < rows {
        source.shown_row(transform, width, rows, at) + before.rows@[at]@.skip(width * source.bytes)
    } else {
        before.rows@[at]@
    }) by {
        if at < rows {
            assert(now.rows@[at]@.len() == before.stride);
            assert(before.rows@[at]@.len() == before.stride);
            assert forall|i: int| 0 <= i < width * source.bytes implies #[trigger] now.rows@[at]@[i]
                == source.shown_row(transform, width, rows, at)[i] by {
                assert(!walk::covered(Seq::<BlockRun>::empty(), at, i / source.bytes));
            }
            assert(now.rows@[at]@ =~= source.shown_row(transform, width, rows, at)
                + before.rows@[at]@.skip(width * source.bytes));
        }
    }
}

pub(crate) proof fn lemma_walk_steps(
    before: Plane,
    now: Plane,
    next: Plane,
    remaining: Seq<BlockRun>,
    width: int,
    rows: int,
    source: Channel,
    transform: Transform,
)
    requires
        0 < source.bytes,
        rows <= before.rows@.len(),
        0 <= width * source.bytes <= before.stride,
        remaining.len() > 0,
        remaining[0].row < rows,
        remaining[0].start <= remaining[0].end <= width,
        partly_shows(before, now, remaining, width, rows, source, transform),
        next.valid(),
        next.stride == now.stride,
        next.rows@.len() == now.rows@.len(),
        forall|at: int|
            0 <= at < now.rows@.len() && at != remaining[0].row ==> (#[trigger] next.rows@[at])@
                == now.rows@[at]@,
        forall|i: int|
            0 <= i < now.stride ==> #[trigger] next.rows@[remaining[0].row as int]@[i] == (
            if remaining[0].start * source.bytes <= i < remaining[0].end * source.bytes {
                source.shown_row(transform, width, rows, remaining[0].row as int)[i]
            } else {
                now.rows@[remaining[0].row as int]@[i]
            }),
    ensures
        partly_shows(before, next, remaining.skip(1), width, rows, source, transform),
{
    let run = remaining[0];
    let rest = remaining.skip(1);
    let bytes = source.bytes;
    assert(run.end * source.bytes <= width * source.bytes) by (nonlinear_arith)
        requires
            run.end <= width,
            0 <= source.bytes,
    ;
    assert forall|at: int, i: int| 0 <= at < rows && width * source.bytes <= i < before.stride
        implies #[trigger] next.rows@[at]@[i] == before.rows@[at]@[i] by {
        assert(now.rows@[at]@[i] == before.rows@[at]@[i]);
        if at != run.row {
            assert(next.rows@[at]@ == now.rows@[at]@);
        }
    }
    assert forall|at: int, i: int|
        0 <= at < rows && 0 <= i < width * source.bytes && !walk::covered(rest, at, i / bytes)
        implies #[trigger] next.rows@[at]@[i] == source.shown_row(transform, width, rows, at)[i] by {
        samples::lemma_split(i, width, bytes);
        let column = i / bytes;
        if walk::covered(remaining, at, column) {
            let k = choose|k: int|
                0 <= k < remaining.len() && walk::run_covers(#[trigger] remaining[k], at, column);
            if k > 0 {
                assert(rest[k - 1] == remaining[k]);
            }
            assert(walk::run_covers(run, at, column));
            assert(run.start * source.bytes <= i < run.end * source.bytes) by (nonlinear_arith)
                requires
                    run.start <= column < run.end,
                    i == column * bytes + i % bytes,
                    0 <= i % bytes < bytes,
                    bytes == source.bytes,
            ;
        } else {
            assert(now.rows@[at]@[i] == source.shown_row(transform, width, rows, at)[i]);
            if at != run.row {
                assert(next.rows@[at]@ == now.rows@[at]@);
            }
        }
    }
    assert forall|at: int| rows <= at < before.rows@.len() implies (#[trigger] next.rows@[at])@
        == before.rows@[at]@ by {
        assert(next.rows@[at]@ == now.rows@[at]@);
        assert(now.rows@[at]@ == before.rows@[at]@);
    }
}

/// Writes the samples of a transform that transposes, which reads the buffer
/// from a different row for every sample it writes, so the destination is walked
/// in blocks: see [`for_each_block`].
fn write_blocks(
    plane: &mut Plane,
    width: usize,
    rows: usize,
    source: &ChannelSource<'_>,
    transform: Transform,
)
    requires
        old(plane).valid(),
        rows <= old(plane).rows@.len(),
        width * source.bytes <= old(plane).stride,
        source@.holds(
            transform.size(width as int, rows as int).0,
            transform.size(width as int, rows as int).1,
        ),
    ensures
        final(plane).valid(),
        plane_shows(*old(plane), *final(plane), width as int, rows as int, source@, transform),
{
    let ghost before = *plane;
    proof {
        lemma_walk_starts(before, width as int, rows as int, source@, transform);
        walk::every_run_lies_in_the_plane(width as int, rows as int, 0);
        assert(0 <= width * source.bytes) by (nonlinear_arith)
            requires
                0 <= width,
                0 <= source.bytes,
        ;
    }
    let mut blocks = for_each_block(width, rows);
    let mut done: bool = false;
    while !done
        invariant
            blocks.valid(),
            before.valid(),
            plane.valid(),
            rows <= before.rows@.len(),
            0 <= width * source.bytes <= before.stride,
            source@.holds(
                transform.size(width as int, rows as int).0,
                transform.size(width as int, rows as int).1,
            ),
            partly_shows(
                before,
                *plane,
                blocks.remaining(),
                width as int,
                rows as int,
                source@,
                transform,
            ),
            forall|i: int|
                0 <= i < blocks.remaining().len() ==> walk::run_fits(
                    #[trigger] blocks.remaining()[i],
                    width as int,
                    rows as int,
                ),
            done ==> blocks.remaining().len() == 0,
        decreases blocks.remaining().len(), (if done { 0int } else { 1int }),
    {
        let ghost remaining = blocks.remaining();
        let ghost now = *plane;
        match blocks.next() {
            Some(run) => {
                assert(walk::run_fits(remaining[0], width as int, rows as int));
                write_run(plane, run, width, rows, source, transform);
                proof {
                    lemma_walk_steps(
                        before,
                        now,
                        *plane,
                        remaining,
                        width as int,
                        rows as int,
                        source@,
                        transform,
                    );
                    assert forall|i: int| 0 <= i < blocks.remaining().len() implies walk::run_fits(
                        #[trigger] blocks.remaining()[i],
                        width as int,
                        rows as int,
                    ) by {
                        assert(blocks.remaining()[i] == remaining[i + 1]);
                    }
                }
            },
            None => {
                done = true;
            },
        }
    }
    proof {
        assert(blocks.remaining() =~= Seq::<BlockRun>::empty());
        lemma_walk_ends(before, *plane, width as int, rows as int, source@, transform);
    }
}

/// Write one channel of every row into a plane, leaving the row padding
/// untouched.
///
/// The plane takes `rows` rows of `width` samples, which is the size the
/// transform hands the picture out as.
pub fn write_channel(
    plane: &mut Plane,
    width: usize,
    rows: usize,
    source: &ChannelSource<'_>,
    transform: Transform,
)
    requires
        old(plane).valid(),
        rows <= old(plane).rows@.len(),
        width * source.bytes <= old(plane).stride,
        source@.holds(
            transform.size(width as int, rows as int).0,
            transform.size(width as int, rows as int).1,
        ),
    ensures
        final(plane).valid(),
        plane_shows(*old(plane), *final(plane), width as int, rows as int, source@, transform),
{
    if transform.transposes() {
        write_blocks(plane, width, rows, source, transform);
    } else {
        write_rows(plane, width, rows, source, transform);
    }
}

/// A plane that shows a channel holds, in every place of the picture, the sample
/// of the channel that the transform finds for that place.
pub proof fn a_shown_sample_is_the_one_the_transform_finds(
    before: Plane,
    after: Plane,
    width: int,
    rows: int,
    source: Channel,
    transform: Transform,
    x: int,
    y: int,
)
    requires
        plane_shows(before, after, width, rows, source, transform),
        rows <= before.rows@.len(),
        source.holds(transform.size(width, rows).0, transform.size(width, rows).1),
        0 <= x < width,
        0 <= y < rows,
    ensures
        ({
            let (column, row) = transform.source(x, y, width, rows);
            samples::sample_at(after.rows@[y]@, x * source.bytes, source.bytes) == source.sample(
                column,
                row,
            )
        }),
{
    let (picture_width, picture_rows) = transform.size(width, rows);
    let (column, row) = transform.source(x, y, width, rows);
    transform::a_source_lies_inside_the_picture(transform, x, y, picture_width, picture_rows);
    lemma_start_inside(source, picture_width, picture_rows, column, row);
    samples::lemma_room(x, width, source.bytes);
    let shown = source.shown_row(transform, width, rows, y);
    let held = samples::sample_at(after.rows@[y]@, x * source.bytes, source.bytes);
    let sample = source.sample(column, row);
    assert(after.rows@[y]@ == shown + before.rows@[y]@.skip(width * source.bytes));
    assert(sample.len() == source.bytes);
    assert forall|byte: int| 0 <= byte < source.bytes implies held[byte] == sample[byte] by {
        samples::lemma_sample_byte(x, byte, source.bytes);
        assert(shown[x * source.bytes + byte] == sample[byte]);
    }
    assert(held =~= sample);
}

} // verus!
