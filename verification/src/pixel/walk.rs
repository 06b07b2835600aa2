//! The order a transposed plane is written in.

use vstd::prelude::*;

verus! {

/// Samples per side of the square blocks a transformed write is walked in.
///
/// A transform that transposes reads across the decoder buffer while the frame
/// is written along it, so a walk that takes one destination sample at a time
/// fetches a cache line for each of them. Walking the destination in square
/// blocks instead keeps the reads of one block inside whole cache lines, and
/// those lines are reused by the block's remaining rows before the walk moves
/// on.
pub const TRANSFORM_BLOCK: usize = 8;

/// A run of columns of one destination row, from `start` up to but without
/// `end`.
#[derive(Clone, Copy, Debug, PartialEq, Eq, Structural)]
pub struct BlockRun {
    pub row: usize,
    pub start: usize,
    pub end: usize,
}

/// The smaller of two numbers.
pub open spec fn least(left: int, right: int) -> int {
    if left <= right {
        left
    } else {
        right
    }
}

/// Where the block that starts at `start` ends, which is at the last block's
/// size or at the side of the plane.
pub open spec fn block_end(start: int, side: int) -> int {
    least(start + TRANSFORM_BLOCK, side)
}

/// The runs of one block: the same columns of every row of it, in order.
pub open spec fn block_runs(first: int, last: int, start: int, end: int) -> Seq<BlockRun> {
    Seq::new(
        if first <= last {
            (last - first) as nat
        } else {
            0
        },
        |i: int|
            BlockRun { row: (first + i) as usize, start: start as usize, end: end as usize },
    )
}

/// The runs of the rows from `first` up to `last`, from the block that starts
/// at `column` on: one block of columns after the other.
pub open spec fn band_runs(width: int, first: int, last: int, column: int) -> Seq<BlockRun>
    decreases (if column < width { width - column } else { 0 }),
{
    if column >= width {
        Seq::empty()
    } else {
        block_runs(first, last, column, block_end(column, width)) + band_runs(
            width,
            first,
            last,
            column + TRANSFORM_BLOCK,
        )
    }
}

/// The runs of a plane of `width` x `rows` from the row `row` on: one band of
/// rows after the other.
pub open spec fn plane_runs(width: int, rows: int, row: int) -> Seq<BlockRun>
    decreases (if row < rows { rows - row } else { 0 }),
{
    if row >= rows {
        Seq::empty()
    } else {
        band_runs(width, row, block_end(row, rows), 0) + plane_runs(
            width,
            rows,
            row + TRANSFORM_BLOCK,
        )
    }
}

/// Whether `run` covers the sample of `column` in `row`.
pub open spec fn run_covers(run: BlockRun, row: int, column: int) -> bool {
    run.row == row && run.start <= column < run.end
}

/// Whether some run of `runs` covers the sample of `column` in `row`.
pub open spec fn covered(runs: Seq<BlockRun>, row: int, column: int) -> bool {
    exists|i: int| 0 <= i < runs.len() && run_covers(#[trigger] runs[i], row, column)
}

/// Whether a run lies inside a plane and starts where a block does.
pub open spec fn run_fits(run: BlockRun, width: int, rows: int) -> bool {
    &&& run.row < rows
    &&& run.start < run.end <= width
    &&& run.start as int % TRANSFORM_BLOCK as int == 0
    &&& run.end - run.start <= TRANSFORM_BLOCK
}

/// The runs of a transformed write that are still to come, in the order that
/// keeps one block of the decoder buffer's reads in cache.
pub struct BlockWalk {
    width: usize,
    rows: usize,
    /// First row of the band the walk is in.
    band: usize,
    /// First column of the block the walk is in.
    column: usize,
    /// Row the walk is at.
    row: usize,
}

impl BlockWalk {
    pub closed spec fn valid(self) -> bool {
        &&& self.band <= self.rows
        &&& self.band < self.rows ==> self.column < self.width && self.band <= self.row
            < block_end(self.band as int, self.rows as int)
    }

    /// The runs still to come.
    pub closed spec fn remaining(self) -> Seq<BlockRun> {
        if self.band >= self.rows {
            Seq::empty()
        } else {
            let end = block_end(self.band as int, self.rows as int);
            block_runs(
                self.row as int,
                end,
                self.column as int,
                block_end(self.column as int, self.width as int),
            ) + band_runs(
                self.width as int,
                self.band as int,
                end,
                self.column + TRANSFORM_BLOCK,
            ) + plane_runs(self.width as int, self.rows as int, self.band + TRANSFORM_BLOCK)
        }
    }

    /// The next run, if there is one.
    pub fn next(&mut self) -> (run: Option<BlockRun>)
        requires
            old(self).valid(),
        ensures
            final(self).valid(),
            match run {
                Some(run) => {
                    &&& old(self).remaining().len() > 0
                    &&& run == old(self).remaining()[0]
                    &&& final(self).remaining() == old(self).remaining().skip(1)
                },
                None => {
                    &&& old(self).remaining().len() == 0
                    &&& final(self).remaining().len() == 0
                },
            },
    {
        if self.band >= self.rows {
            return None;
        }
        let band_end: usize = if self.rows - self.band > TRANSFORM_BLOCK {
            self.band + TRANSFORM_BLOCK
        } else {
            self.rows
        };
        let column_end: usize = if self.width - self.column > TRANSFORM_BLOCK {
            self.column + TRANSFORM_BLOCK
        } else {
            self.width
        };
        let run = BlockRun { row: self.row, start: self.column, end: column_end };
        let ghost before = *self;
        let ghost rest_of_band = band_runs(
            self.width as int,
            self.band as int,
            band_end as int,
            self.column + TRANSFORM_BLOCK,
        );
        let ghost rest_of_plane = plane_runs(
            self.width as int,
            self.rows as int,
            self.band + TRANSFORM_BLOCK,
        );
        let ghost block = block_runs(
            self.row as int,
            band_end as int,
            self.column as int,
            column_end as int,
        );
        assert(before.remaining() == block + rest_of_band + rest_of_plane);
        assert(block[0] == run);
        self.row = self.row + 1;
        assert(block_runs(self.row as int, band_end as int, before.column as int, column_end as int)
            =~= block.skip(1));
        if self.row >= band_end {
            assert(block.skip(1) =~= Seq::<BlockRun>::empty());
            self.row = self.band;
            self.column = column_end;
            if self.column >= self.width {
                assert(rest_of_band =~= Seq::<BlockRun>::empty());
                self.column = 0;
                self.band = band_end;
                self.row = band_end;
                if self.band < self.rows {
                    assert(rest_of_plane == band_runs(
                        self.width as int,
                        self.band as int,
                        block_end(self.band as int, self.rows as int),
                        0,
                    ) + plane_runs(
                        self.width as int,
                        self.rows as int,
                        self.band + TRANSFORM_BLOCK,
                    ));
                    assert(self.remaining() =~= rest_of_plane);
                } else {
                    assert(rest_of_plane =~= Seq::<BlockRun>::empty());
                }
                assert(self.remaining() =~= rest_of_plane);
                assert(before.remaining().skip(1) =~= rest_of_plane);
            } else {
                assert(self.remaining() =~= rest_of_band + rest_of_plane);
                assert(before.remaining().skip(1) =~= rest_of_band + rest_of_plane);
            }
        } else {
            assert(self.remaining() =~= block.skip(1) + rest_of_band + rest_of_plane);
            assert(before.remaining().skip(1) =~= block.skip(1) + rest_of_band + rest_of_plane);
        }
        Some(run)
    }
}

proof fn lemma_no_column_no_run(width: int, rows: int, row: int)
    requires
        width <= 0 || rows <= row,
    ensures
        plane_runs(width, rows, row) =~= Seq::<BlockRun>::empty(),
    decreases (if row < rows { rows - row } else { 0 }),
{
    if row < rows {
        lemma_no_column_no_run(width, rows, row + TRANSFORM_BLOCK);
    }
}

/// Walks every destination row of a transformed write, and the runs of columns
/// of it to write, in the order that keeps one block of the decoder buffer's
/// reads in cache.
///
/// Every row is visited once with each of its runs of columns, in order, so a
/// caller writes complete rows and never revisits a sample.
pub fn for_each_block(output_width: usize, rows: usize) -> (walk: BlockWalk)
    ensures
        walk.valid(),
        walk.remaining() == plane_runs(output_width as int, rows as int, 0),
{
    if output_width == 0 || rows == 0 {
        // A plane without a column has no run in any of its rows.
        proof {
            lemma_no_column_no_run(output_width as int, rows as int, 0);
        }
        return BlockWalk { width: output_width, rows, band: rows, column: 0, row: rows };
    }
    let walk = BlockWalk { width: output_width, rows, band: 0, column: 0, row: 0 };
    assert(walk.remaining() =~= plane_runs(output_width as int, rows as int, 0));
    walk
}

proof fn lemma_joined(left: Seq<BlockRun>, right: Seq<BlockRun>, row: int, column: int)
    ensures
        covered(left + right, row, column) == (covered(left, row, column) || covered(
            right,
            row,
            column,
        )),
{
    let both = left + right;
    if covered(left, row, column) {
        let i = choose|i: int| 0 <= i < left.len() && run_covers(#[trigger] left[i], row, column);
        assert(both[i] == left[i]);
    }
    if covered(right, row, column) {
        let i = choose|i: int| 0 <= i < right.len() && run_covers(#[trigger] right[i], row, column);
        assert(both[left.len() + i] == right[i]);
    }
    if covered(both, row, column) {
        let i = choose|i: int| 0 <= i < both.len() && run_covers(#[trigger] both[i], row, column);
        if i < left.len() {
            assert(both[i] == left[i]);
        } else {
            assert(both[i] == right[i - left.len()]);
        }
    }
}

proof fn lemma_band_covers(width: int, first: int, last: int, from: int, row: int, column: int)
    requires
        0 <= first <= row < last <= usize::MAX,
        0 <= from <= column < width <= usize::MAX,
    ensures
        covered(band_runs(width, first, last, from), row, column),
    decreases width - from,
{
    let block = block_runs(first, last, from, block_end(from, width));
    lemma_joined(block, band_runs(width, first, last, from + TRANSFORM_BLOCK), row, column);
    if column < from + TRANSFORM_BLOCK {
        assert(run_covers(block[row - first], row, column));
    } else {
        lemma_band_covers(width, first, last, from + TRANSFORM_BLOCK, row, column);
    }
}

pub(crate) proof fn lemma_plane_covers(width: int, rows: int, from: int, row: int, column: int)
    requires
        0 <= from <= row < rows <= usize::MAX,
        0 <= column < width <= usize::MAX,
    ensures
        covered(plane_runs(width, rows, from), row, column),
    decreases rows - from,
{
    lemma_joined(
        band_runs(width, from, block_end(from, rows), 0),
        plane_runs(width, rows, from + TRANSFORM_BLOCK),
        row,
        column,
    );
    if row < from + TRANSFORM_BLOCK {
        lemma_band_covers(width, from, block_end(from, rows), 0, row, column);
    } else {
        lemma_plane_covers(width, rows, from + TRANSFORM_BLOCK, row, column);
    }
}

proof fn lemma_band_fits(width: int, rows: int, first: int, last: int, from: int)
    requires
        0 <= first <= last <= rows <= usize::MAX,
        0 <= from,
        width <= usize::MAX,
        from % (TRANSFORM_BLOCK as int) == 0,
    ensures
        ({
            let runs = band_runs(width, first, last, from);
            forall|i: int|
                0 <= i < runs.len() ==> run_fits(#[trigger] runs[i], width, rows) && first
                    <= runs[i].row < last && from <= runs[i].start
        }),
    decreases (if from < width { width - from } else { 0 }),
{
    if from < width {
        lemma_band_fits(width, rows, first, last, from + TRANSFORM_BLOCK);
        let block = block_runs(first, last, from, block_end(from, width));
        let rest = band_runs(width, first, last, from + TRANSFORM_BLOCK);
        let runs = band_runs(width, first, last, from);
        assert forall|i: int| 0 <= i < runs.len() implies run_fits(#[trigger] runs[i], width, rows)
            && first <= runs[i].row < last && from <= runs[i].start by {
            if i < block.len() {
                assert(runs[i] == block[i]);
            } else {
                assert(runs[i] == rest[i - block.len()]);
            }
        }
    }
}

/// Every run of a walk lies inside the plane, starts at a block boundary and is
/// no longer than a block.
pub proof fn every_run_lies_in_the_plane(width: int, rows: int, from: int)
    requires
        0 <= from,
        rows <= usize::MAX,
        width <= usize::MAX,
    ensures
        ({
            let runs = plane_runs(width, rows, from);
            forall|i: int|
                0 <= i < runs.len() ==> run_fits(#[trigger] runs[i], width, rows) && from
                    <= runs[i].row
        }),
    decreases (if from < rows { rows - from } else { 0 }),
{
    if from < rows {
        every_run_lies_in_the_plane(width, rows, from + TRANSFORM_BLOCK);
        lemma_band_fits(width, rows, from, block_end(from, rows), 0);
        let band = band_runs(width, from, block_end(from, rows), 0);
        let rest = plane_runs(width, rows, from + TRANSFORM_BLOCK);
        let runs = plane_runs(width, rows, from);
        assert forall|i: int| 0 <= i < runs.len() implies run_fits(#[trigger] runs[i], width, rows)
            && from <= runs[i].row by {
            if i < band.len() {
                assert(runs[i] == band[i]);
            } else {
                assert(runs[i] == rest[i - band.len()]);
            }
        }
    }
}

/// Whether the rows of every column, and the columns of every row, come in
/// ascending order.
pub open spec fn ascending_runs(runs: Seq<BlockRun>) -> bool {
    forall|i: int, j: int|
        0 <= i < j < runs.len() ==> {
            &&& (#[trigger] runs[i]).row == (#[trigger] runs[j]).row ==> runs[i].end
                <= runs[j].start
            &&& runs[i].start == runs[j].start ==> runs[i].row < runs[j].row
        }
}

proof fn lemma_band_ascending(width: int, rows: int, first: int, last: int, from: int)
    requires
        0 <= first <= last <= rows <= usize::MAX,
        0 <= from,
        width <= usize::MAX,
        from % (TRANSFORM_BLOCK as int) == 0,
    ensures
        ascending_runs(band_runs(width, first, last, from)),
    decreases (if from < width { width - from } else { 0 }),
{
    if from < width {
        lemma_band_ascending(width, rows, first, last, from + TRANSFORM_BLOCK);
        lemma_band_fits(width, rows, first, last, from + TRANSFORM_BLOCK);
        let block = block_runs(first, last, from, block_end(from, width));
        let rest = band_runs(width, first, last, from + TRANSFORM_BLOCK);
        let runs = band_runs(width, first, last, from);
        assert forall|i: int, j: int| 0 <= i < j < runs.len() implies {
            &&& (#[trigger] runs[i]).row == (#[trigger] runs[j]).row ==> runs[i].end
                <= runs[j].start
            &&& runs[i].start == runs[j].start ==> runs[i].row < runs[j].row
        } by {
            if j < block.len() {
                assert(runs[i] == block[i] && runs[j] == block[j]);
            } else if i < block.len() {
                assert(runs[i] == block[i] && runs[j] == rest[j - block.len()]);
            } else {
                assert(runs[i] == rest[i - block.len()] && runs[j] == rest[j - block.len()]);
            }
        }
    }
}

/// A walk writes the columns of every row, and the rows of every block of
/// columns, in ascending order, so it never goes back over what it has written.
pub proof fn a_walk_never_goes_back(width: int, rows: int, from: int)
    requires
        0 <= from,
        rows <= usize::MAX,
        width <= usize::MAX,
    ensures
        ascending_runs(plane_runs(width, rows, from)),
    decreases (if from < rows { rows - from } else { 0 }),
{
    if from < rows {
        let end = block_end(from, rows);
        a_walk_never_goes_back(width, rows, from + TRANSFORM_BLOCK);
        every_run_lies_in_the_plane(width, rows, from + TRANSFORM_BLOCK);
        lemma_band_ascending(width, rows, from, end, 0);
        lemma_band_fits(width, rows, from, end, 0);
        let band = band_runs(width, from, end, 0);
        let rest = plane_runs(width, rows, from + TRANSFORM_BLOCK);
        let runs = plane_runs(width, rows, from);
        assert forall|i: int, j: int| 0 <= i < j < runs.len() implies {
            &&& (#[trigger] runs[i]).row == (#[trigger] runs[j]).row ==> runs[i].end
                <= runs[j].start
            &&& runs[i].start == runs[j].start ==> runs[i].row < runs[j].row
        } by {
            if j < band.len() {
                assert(runs[i] == band[i] && runs[j] == band[j]);
            } else if i < band.len() {
                assert(runs[i] == band[i] && runs[j] == rest[j - band.len()]);
            } else {
                assert(runs[i] == rest[i - band.len()] && runs[j] == rest[j - band.len()]);
            }
        }
    }
}

/// A walk covers every sample of the plane, and covers it once.
pub proof fn a_walk_covers_every_sample_once(width: int, rows: int, row: int, column: int)
    requires
        0 <= row < rows <= usize::MAX,
        0 <= column < width <= usize::MAX,
    ensures
        ({
            let runs = plane_runs(width, rows, 0);
            &&& covered(runs, row, column)
            &&& forall|i: int, j: int|
                0 <= i < runs.len() && 0 <= j < runs.len() && run_covers(
                    #[trigger] runs[i],
                    row,
                    column,
                ) && run_covers(#[trigger] runs[j], row, column) ==> i == j
        }),
{
    lemma_plane_covers(width, rows, 0, row, column);
    a_walk_never_goes_back(width, rows, 0);
    let runs = plane_runs(width, rows, 0);
    assert forall|i: int, j: int|
        0 <= i < runs.len() && 0 <= j < runs.len() && run_covers(#[trigger] runs[i], row, column)
            && run_covers(#[trigger] runs[j], row, column) implies i == j by {
        if i < j {
            assert(ascending_runs(runs));
        } else if j < i {
            assert(ascending_runs(runs));
        }
    }
}

} // verus!
