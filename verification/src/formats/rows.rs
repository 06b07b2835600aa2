//! Packing the rows of a decoded plane.

use vstd::prelude::*;

use vstd::slice::slice_subrange;

use crate::pixel::samples;

verus! {

/// Whether a buffer of `len` bytes holds `height` rows of `row` bytes, each
/// `stride` bytes after the one before it.
pub open spec fn rows_fit(row: int, stride: int, height: int, len: int) -> bool {
    height <= 0 || (height - 1) * stride + row <= len
}

/// The rows of a decoded plane without what lies between them.
pub open spec fn packed_rows(data: Seq<u8>, row: int, stride: int, height: int) -> Seq<u8> {
    Seq::new((height * row) as nat, |i: int| data[(i / row) * stride + i % row])
}

proof fn lemma_row_missing(row: int, stride: int, height: int, len: int, index: int)
    requires
        0 <= index < height,
        0 <= stride,
        index * stride + row > len,
    ensures
        !rows_fit(row, stride, height, len),
{
    assert((height - 1) * stride >= index * stride) by (nonlinear_arith)
        requires
            index <= height - 1,
            0 <= stride,
    ;
}

/// Rows a buffer of `len` bytes holds, counted from the first one on and up to
/// `height`.
pub open spec fn leading_rows(row: int, stride: int, height: int, len: int) -> int
    decreases height,
{
    if height <= 0 {
        0
    } else if rows_fit(row, stride, height, len) {
        height
    } else {
        leading_rows(row, stride, height - 1, len)
    }
}

/// What packing the rows of a decoded plane over `before` leaves of it: the
/// leading rows the plane holds, and what stood behind them.
pub open spec fn rows_over(
    before: Seq<u8>,
    data: Seq<u8>,
    row: int,
    stride: int,
    height: int,
) -> Seq<u8> {
    let count = leading_rows(row, stride, height, data.len() as int);
    packed_rows(data, row, stride, count) + before.skip(count * row)
}

proof fn lemma_rows_end(row: int, stride: int, height: int, len: int, count: int)
    requires
        0 <= count < height,
        0 <= stride,
        rows_fit(row, stride, count, len),
        !rows_fit(row, stride, count + 1, len),
    ensures
        !rows_fit(row, stride, height, len),
        leading_rows(row, stride, height, len) == count,
    decreases height,
{
    lemma_row_missing(row, stride, height, len, count);
    if height == count + 1 {
        assert(leading_rows(row, stride, count, len) == count);
    } else {
        lemma_rows_end(row, stride, height - 1, len, count);
    }
}

proof fn lemma_next_row(data: Seq<u8>, row: int, stride: int, count: int)
    requires
        0 <= count,
        0 < row <= stride,
        count * stride + row <= data.len(),
    ensures
        packed_rows(data, row, stride, count + 1) == packed_rows(data, row, stride, count)
            + data.subrange(count * stride, count * stride + row),
        packed_rows(data, row, stride, count).len() == count * row,
        packed_rows(data, row, stride, count + 1).len() == count * row + row,
{
    let held = packed_rows(data, row, stride, count);
    let next = packed_rows(data, row, stride, count + 1);
    assert((count + 1) * row == count * row + row && 0 <= count * row && 0 <= count * stride)
        by (nonlinear_arith)
        requires
            0 <= count,
            0 < row <= stride,
    ;
    let line = data.subrange(count * stride, count * stride + row);
    assert forall|i: int| 0 <= i < next.len() implies next[i] == (held + line)[i] by {
        if i >= held.len() {
            samples::lemma_sample_byte(count, i - count * row, row);
        }
    }
    assert(next =~= held + line);
}

/// Copies the rows of a decoded plane over a tightly packed buffer, dropping the
/// padding its decoder keeps between them. Tells whether the plane holds all of
/// them; the ones before the first it does not hold are copied either way.
pub fn fill_rows(target: &mut Vec<u8>, row: usize, stride: usize, height: usize, data: &[u8]) -> (
    filled: bool)
    requires
        0 < row <= stride,
        old(target)@.len() == height * row,
    ensures
        filled == rows_fit(row as int, stride as int, height as int, data@.len() as int),
        final(target)@ == rows_over(
            old(target)@,
            data@,
            row as int,
            stride as int,
            height as int,
        ),
{
    let len: usize = data.len();
    let room: usize = target.len();
    let ghost before = target@;
    let mut start: usize = 0;
    let mut index: usize = 0;
    assert(target@ =~= packed_rows(data@, row as int, stride as int, 0) + before.skip(0));
    while index < height
        invariant
            index <= height,
            0 < row <= stride,
            len == data@.len(),
            index < height ==> start == index * stride,
            rows_fit(row as int, stride as int, index as int, len as int),
            before == old(target)@,
            before.len() == height * row,
            before.len() == room,
            target@ == packed_rows(data@, row as int, stride as int, index as int) + before.skip(
                index * row,
            ),
        decreases height - index,
    {
        if len < row || start > len - row {
            proof {
                lemma_rows_end(
                    row as int,
                    stride as int,
                    height as int,
                    len as int,
                    index as int,
                );
            }
            return false;
        }
        proof {
            samples::lemma_room(index as int, height as int, row as int);
            assert((index + 1) * row == index * row + row) by (nonlinear_arith);
            assert((index + 1) * stride == index * stride + stride) by (nonlinear_arith);
            lemma_next_row(data@, row as int, stride as int, index as int);
        }
        let ghost packed = packed_rows(data@, row as int, stride as int, index as int);
        let ghost next = packed_rows(data@, row as int, stride as int, index + 1);
        let offset: usize = index * row;
        let mut column: usize = 0;
        while column < row
            invariant
                column <= row,
                index < height,
                offset == index * row,
                offset + row <= before.len(),
                before.len() == room,
                start == index * stride,
                start + row <= len,
                len == data@.len(),
                packed.len() == offset,
                next.len() == offset + row,
                next == packed + data@.subrange(start as int, start + row),
                target@.len() == before.len(),
                forall|i: int|
                    0 <= i < before.len() ==> #[trigger] target@[i] == (if i < offset + column {
                        next[i]
                    } else {
                        before[i]
                    }),
            decreases row - column,
        {
            target.set(offset + column, data[start + column]);
            column += 1;
        }
        assert(target@ =~= next + before.skip((index + 1) * row));
        index += 1;
        if index < height {
            // A row that would start past the end of the buffer is not in it.
            if stride > len || start > len - stride {
                proof {
                    lemma_rows_end(
                        row as int,
                        stride as int,
                        height as int,
                        len as int,
                        index as int,
                    );
                }
                return false;
            }
            start = start + stride;
        }
    }
    true
}

/// Copies the rows of a decoded plane into a tightly packed buffer, dropping the
/// padding its decoder keeps between them, if the plane holds all of them.
pub fn pack_rows(row: usize, stride: usize, height: usize, data: &[u8]) -> (packed: Option<Vec<u8>>)
    requires
        0 < row <= stride,
        height * row <= usize::MAX,
    ensures
        match packed {
            Some(packed) => {
                &&& rows_fit(row as int, stride as int, height as int, data@.len() as int)
                &&& packed@ == packed_rows(data@, row as int, stride as int, height as int)
            },
            None => !rows_fit(row as int, stride as int, height as int, data@.len() as int),
        },
{
    let len: usize = data.len();
    let mut packed: Vec<u8> = Vec::new();
    let mut start: usize = 0;
    let mut index: usize = 0;
    while index < height
        invariant
            index <= height,
            0 < row <= stride,
            len == data@.len(),
            index < height ==> start == index * stride,
            rows_fit(row as int, stride as int, index as int, len as int),
            packed@ == packed_rows(data@, row as int, stride as int, index as int),
            packed@.len() == index * row,
            height * row <= usize::MAX,
        decreases height - index,
    {
        if len < row || start > len - row {
            proof {
                lemma_row_missing(
                    row as int,
                    stride as int,
                    height as int,
                    len as int,
                    index as int,
                );
            }
            return None;
        }
        let line = slice_subrange(data, start, start + row);
        packed.extend_from_slice(line);
        proof {
            assert((index + 1) * row == index * row + row) by (nonlinear_arith);
            assert((index + 1) * stride == index * stride + stride) by (nonlinear_arith);
            lemma_next_row(data@, row as int, stride as int, index as int);
        }
        index += 1;
        if index < height {
            // A row that would start past the end of the buffer is not in it.
            if stride > len || start > len - stride {
                proof {
                    lemma_row_missing(
                        row as int,
                        stride as int,
                        height as int,
                        len as int,
                        index as int,
                    );
                }
                return None;
            }
            start = start + stride;
        }
    }
    Some(packed)
}

/// A packed row has the bytes of the decoded one, and nothing of what lies between
/// two rows.
pub proof fn a_packed_row_leaves_the_gap_behind(
    data: Seq<u8>,
    row: int,
    stride: int,
    height: int,
    x: int,
    y: int,
)
    requires
        0 <= x < row,
        0 <= y < height,
    ensures
        packed_rows(data, row, stride, height).len() == row * height,
        y * row + x < packed_rows(data, row, stride, height).len(),
        packed_rows(data, row, stride, height)[y * row + x] == data[y * stride + x],
{
    assert(0 <= y * row + x < height * row && height * row == row * height) by (nonlinear_arith)
        requires
            0 <= x < row,
            0 <= y < height,
    ;
    vstd::arithmetic::div_mod::lemma_fundamental_div_mod_converse(y * row + x, row, y, x);
}

/// Of a plane that is too short for all of its rows as many are packed as it does
/// hold: the next one would reach past its end.
pub proof fn a_short_plane_keeps_the_rows_it_holds(row: int, stride: int, height: int, len: int)
    requires
        0 <= height,
    ensures
        ({
            let count = leading_rows(row, stride, height, len);
            &&& 0 <= count <= height
            &&& 0 < count ==> (count - 1) * stride + row <= len
            &&& count < height ==> count * stride + row > len
        }),
    decreases height,
{
    if height > 0 && !rows_fit(row, stride, height, len) {
        a_short_plane_keeps_the_rows_it_holds(row, stride, height - 1, len);
    }
}

/// Packing over a buffer changes its front alone: the rows the plane holds stand there
/// without their gaps, and what stood behind them still does.
pub proof fn packing_leaves_what_stands_behind_the_rows(
    before: Seq<u8>,
    data: Seq<u8>,
    row: int,
    stride: int,
    height: int,
    at: int,
)
    requires
        0 < row,
        0 <= height,
        before.len() == row * height,
        0 <= at < before.len(),
    ensures
        ({
            let count = leading_rows(row, stride, height, data.len() as int);
            let after = rows_over(before, data, row, stride, height);
            &&& after.len() == before.len()
            &&& at < count * row ==> after[at] == data[(at / row) * stride + at % row]
            &&& at >= count * row ==> after[at] == before[at]
        }),
{
    a_short_plane_keeps_the_rows_it_holds(row, stride, height, data.len() as int);
    let count = leading_rows(row, stride, height, data.len() as int);
    assert(0 <= count * row <= row * height) by (nonlinear_arith)
        requires
            0 <= count <= height,
            0 < row,
    ;
}

} // verus!
