//! Moving samples between a decoder's buffer and the rows of a frame.

use vstd::prelude::*;

use vstd::arithmetic::div_mod::lemma_fundamental_div_mod;
use vstd::arithmetic::div_mod::lemma_fundamental_div_mod_converse;
use vstd::arithmetic::mul::lemma_mul_inequality;
use vstd::arithmetic::mul::lemma_mul_is_distributive_add_other_way;
use vstd::arithmetic::power2::lemma_pow2_adds;
use vstd::arithmetic::power2::lemma_pow2_pos;
use vstd::arithmetic::power2::pow2;

use crate::frame::ByteOrder;

verus! {

/// The number a two byte sample is.
pub open spec fn word_value(sample: Seq<u8>, order: ByteOrder) -> int {
    match order {
        ByteOrder::Little => sample[0] + 256 * sample[1],
        ByteOrder::Big => 256 * sample[0] + sample[1],
    }
}

/// The two byte sample of a number.
pub open spec fn word_bytes(value: int, order: ByteOrder) -> Seq<u8> {
    match order {
        ByteOrder::Little => seq![(value % 256) as u8, (value / 256) as u8],
        ByteOrder::Big => seq![(value / 256) as u8, (value % 256) as u8],
    }
}

/// A sample moved down by `shift` bits out of the word it was scaled into, which
/// is how a frame that names a depth below its word holds it. Only a two byte
/// sample is ever scaled into anything.
pub open spec fn moved(sample: Seq<u8>, shift: int, order: ByteOrder) -> Seq<u8> {
    if shift == 0 || sample.len() != 2 {
        sample
    } else {
        word_bytes(word_value(sample, order) / pow2(shift as nat) as int, order)
    }
}

/// Whether samples of `bytes` bytes can be moved down by `shift` bits.
pub open spec fn movable(bytes: int, shift: int) -> bool {
    &&& bytes == 1 || bytes == 2 || bytes == 4
    &&& 0 <= shift < 16
    &&& bytes != 2 ==> shift == 0
}

/// A row of `count` samples of `bytes` bytes, one after the other.
pub open spec fn packed(count: int, bytes: int, sample: spec_fn(int) -> Seq<u8>) -> Seq<u8> {
    Seq::new((count * bytes) as nat, |i: int| sample(i / bytes)[i % bytes])
}

/// The bytes `from` up to `from + bytes` of a buffer.
pub open spec fn sample_at(buffer: Seq<u8>, from: int, bytes: int) -> Seq<u8> {
    buffer.subrange(from, from + bytes)
}

pub(crate) proof fn lemma_sample_byte(index: int, byte: int, bytes: int)
    requires
        0 <= byte < bytes,
    ensures
        (index * bytes + byte) / bytes == index,
        (index * bytes + byte) % bytes == byte,
{
    lemma_fundamental_div_mod_converse(index * bytes + byte, bytes, index, byte);
}

pub(crate) proof fn lemma_split(at: int, count: int, bytes: int)
    requires
        0 < bytes,
        0 <= at < count * bytes,
    ensures
        0 <= at / bytes < count,
        0 <= at % bytes < bytes,
        at == (at / bytes) * bytes + at % bytes,
        (at / bytes) * bytes + bytes <= count * bytes,
{
    lemma_fundamental_div_mod(at, bytes);
    assert(0 <= at / bytes < count && (at / bytes) * bytes == bytes * (at / bytes)
        && (at / bytes) * bytes + bytes <= count * bytes) by (nonlinear_arith)
        requires
            0 < bytes,
            0 <= at < count * bytes,
            at == bytes * (at / bytes) + at % bytes,
            0 <= at % bytes < bytes,
    ;
}

pub(crate) proof fn lemma_room(index: int, count: int, bytes: int)
    requires
        0 <= index < count,
        0 <= bytes,
    ensures
        0 <= index * bytes,
        index * bytes + bytes <= count * bytes,
{
    assert(0 <= index * bytes && index * bytes + bytes <= count * bytes) by (nonlinear_arith)
        requires
            0 <= index < count,
            0 <= bytes,
    ;
}

/// Copies one sample, moved down by `shift` bits.
pub(crate) fn move_sample(
    source: &[u8],
    from: usize,
    destination: &mut Vec<u8>,
    to: usize,
    bytes: usize,
    shift: u32,
    order: ByteOrder,
)
    requires
        movable(bytes as int, shift as int),
        from + bytes <= source@.len(),
        to + bytes <= old(destination)@.len(),
    ensures
        final(destination)@.len() == old(destination)@.len(),
        forall|i: int|
            0 <= i < old(destination)@.len() ==> #[trigger] final(destination)@[i] == (if to <= i
                < to + bytes {
                moved(sample_at(source@, from as int, bytes as int), shift as int, order)[i - to]
            } else {
                old(destination)@[i]
            }),
{
    let source_len: usize = source.len();
    let destination_len: usize = destination.len();
    if shift == 0 {
        let mut byte: usize = 0;
        while byte < bytes
            invariant
                byte <= bytes,
                source_len == source@.len(),
                destination_len == destination@.len(),
                from + bytes <= source_len,
                to + bytes <= destination_len,
                destination@.len() == old(destination)@.len(),
                forall|i: int|
                    0 <= i < destination@.len() ==> #[trigger] destination@[i] == (if to <= i < to
                        + byte {
                        source@[from + (i - to)]
                    } else {
                        old(destination)@[i]
                    }),
            decreases bytes - byte,
        {
            destination.set(to + byte, source[from + byte]);
            byte += 1;
        }
        return;
    }
    let first: u8 = source[from];
    let second: u8 = source[from + 1];
    let word: u16 = match order {
        ByteOrder::Little => first as u16 + 256 * second as u16,
        ByteOrder::Big => 256 * first as u16 + second as u16,
    };
    let value: u16 = word >> shift;
    proof {
        let sample = sample_at(source@, from as int, bytes as int);
        assert(sample[0] == first && sample[1] == second);
        vstd::bits::lemma_u16_shr_is_div(word, shift as u16);
        assert(word >> shift == word >> (shift as u16)) by (bit_vector)
            requires
                shift < 16,
        ;
        assert(value == word_value(sample, order) / pow2(shift as nat) as int);
    }
    let low: u8 = (value % 256) as u8;
    let high: u8 = (value / 256) as u8;
    match order {
        ByteOrder::Little => {
            destination.set(to, low);
            destination.set(to + 1, high);
        },
        ByteOrder::Big => {
            destination.set(to, high);
            destination.set(to + 1, low);
        },
    }
}

/// Samples of one interleaved channel a row of the destination takes from a row
/// of the source: as many as both hold whole.
pub open spec fn extracted_count(source: int, destination: int, channels: int, bytes: int) -> int {
    let groups = source / (channels * bytes);
    let samples = destination / bytes;
    if groups <= samples {
        groups
    } else {
        samples
    }
}

/// Sample `index` of channel `channel` of an interleaved row.
pub open spec fn channel_sample(
    source: Seq<u8>,
    channels: int,
    channel: int,
    bytes: int,
    index: int,
) -> Seq<u8> {
    sample_at(source, index * (channels * bytes) + channel * bytes, bytes)
}

/// Extract one interleaved channel of a single row into a packed row, moving
/// every sample down by `shift`.
///
/// What the destination holds beyond the samples of the source stays as it is.
pub fn extract_channel(
    source: &[u8],
    destination: &mut Vec<u8>,
    channels: usize,
    channel: usize,
    bytes: usize,
    shift: u32,
    order: ByteOrder,
)
    requires
        movable(bytes as int, shift as int),
        channel < channels,
        channels * bytes <= usize::MAX,
    ensures
        ({
            let count = extracted_count(
                source@.len() as int,
                old(destination)@.len() as int,
                channels as int,
                bytes as int,
            );
            final(destination)@ == packed(
                count,
                bytes as int,
                |i: int|
                    moved(
                        channel_sample(
                            source@,
                            channels as int,
                            channel as int,
                            bytes as int,
                            i,
                        ),
                        shift as int,
                        order,
                    ),
            ) + old(destination)@.skip(count * bytes)
        }),
{
    let ghost sample = |i: int|
        moved(
            channel_sample(source@, channels as int, channel as int, bytes as int, i),
            shift as int,
            order,
        );
    proof {
        assert(0 < channels * bytes) by (nonlinear_arith)
            requires
                0 < channels,
                0 < bytes,
        ;
        lemma_room(channel as int, channels as int, bytes as int);
    }
    let group: usize = channels * bytes;
    let offset: usize = channel * bytes;
    let source_len: usize = source.len();
    let destination_len: usize = destination.len();
    let groups: usize = source_len / group;
    let samples: usize = destination_len / bytes;
    let count: usize = if groups <= samples {
        groups
    } else {
        samples
    };
    proof {
        lemma_fundamental_div_mod(source@.len() as int, group as int);
        lemma_fundamental_div_mod(destination@.len() as int, bytes as int);
        lemma_mul_inequality(count as int, groups as int, group as int);
        lemma_mul_inequality(count as int, samples as int, bytes as int);
        assert(groups * group == group * groups) by (nonlinear_arith);
        assert(samples * bytes == bytes * samples) by (nonlinear_arith);
        assert(count * group <= source@.len());
        assert(count * bytes <= destination@.len());
    }
    let mut from: usize = 0;
    let mut to: usize = 0;
    let mut index: usize = 0;
    while index < count
        invariant
            movable(bytes as int, shift as int),
            index <= count,
            group == channels * bytes,
            offset == channel * bytes,
            offset + bytes <= group,
            from == index * group,
            to == index * bytes,
            source_len == source@.len(),
            destination_len == destination@.len(),
            count * group <= source_len,
            count * bytes <= destination_len,
            destination@.len() == old(destination)@.len(),
            sample == (|i: int|
                moved(
                    channel_sample(source@, channels as int, channel as int, bytes as int, i),
                    shift as int,
                    order,
                )),
            forall|i: int|
                0 <= i < to ==> #[trigger] destination@[i] == sample(i / bytes as int)[i
                    % bytes as int],
            forall|i: int|
                to <= i < destination@.len() ==> #[trigger] destination@[i] == old(
                    destination,
                )@[i],
        decreases count - index,
    {
        proof {
            lemma_room(index as int, count as int, group as int);
            lemma_room(index as int, count as int, bytes as int);
        }
        let ghost before = destination@;
        move_sample(source, from + offset, destination, to, bytes, shift, order);
        proof {
            assert(sample(index as int) == moved(
                sample_at(source@, from + offset, bytes as int),
                shift as int,
                order,
            ));
            assert forall|i: int| 0 <= i < to + bytes implies #[trigger] destination@[i] == sample(
                i / bytes as int,
            )[i % bytes as int] by {
                if i < to {
                    assert(before[i] == sample(i / bytes as int)[i % bytes as int]);
                } else {
                    lemma_sample_byte(index as int, i - to, bytes as int);
                }
            }
            lemma_mul_is_distributive_add_other_way(group as int, index as int, 1);
            lemma_mul_is_distributive_add_other_way(bytes as int, index as int, 1);
        }
        from = from + group;
        to = to + bytes;
        index += 1;
    }
    assert(destination@ =~= packed(count as int, bytes as int, sample) + old(destination)@.skip(
        count * bytes,
    ));
}

/// Copy a packed row into a frame row, moving every sample down by `shift`.
///
/// A frame that declares the whole word of its samples takes the row as it
/// stands; a narrower one holds the sample itself rather than the word it was
/// scaled into.
pub fn copy_samples(
    source: &[u8],
    destination: &mut Vec<u8>,
    bytes: usize,
    shift: u32,
    order: ByteOrder,
)
    requires
        movable(bytes as int, shift as int),
        source@.len() <= old(destination)@.len(),
        source@.len() % bytes as nat == 0,
    ensures
        final(destination)@ == packed(
            source@.len() as int / bytes as int,
            bytes as int,
            |i: int| moved(sample_at(source@, i * bytes, bytes as int), shift as int, order),
        ) + old(destination)@.skip(source@.len() as int),
{
    proof {
        lemma_fundamental_div_mod(source@.len() as int, bytes as int);
        assert((source@.len() as int / bytes as int) * bytes == bytes * (source@.len() as int
            / bytes as int)) by (nonlinear_arith);
    }
    let ghost count = source@.len() as int / bytes as int;
    let ghost sample = |i: int|
        moved(sample_at(source@, i * bytes, bytes as int), shift as int, order);
    if shift == 0 {
        put_bytes(source, destination);
        proof {
            let row = packed(count, bytes as int, sample);
            assert forall|i: int| 0 <= i < source@.len() implies row[i] == source@[i] by {
                lemma_split(i, count, bytes as int);
                assert(row[i] == sample(i / bytes as int)[i % bytes as int]);
            }
            assert(destination@ =~= row + old(destination)@.skip(source@.len() as int));
        }
        return;
    }
    extract_channel(source, destination, 1, 0, bytes, shift, order);
    proof {
        let room = old(destination)@.len() as int;
        assert(room / bytes as int >= count) by (nonlinear_arith)
            requires
                room >= count * bytes,
                bytes > 0,
        ;
        assert(1 * bytes == bytes);
        let single = |i: int|
            moved(channel_sample(source@, 1, 0, bytes as int, i), shift as int, order);
        assert forall|i: int| #[trigger] single(i) == sample(i) by {
            assert(i * (1 * bytes) + 0 * bytes == i * bytes) by (nonlinear_arith);
        }
        assert(packed(count, bytes as int, single) =~= packed(count, bytes as int, sample));
    }
}

/// Copies the bytes of `source` over the first bytes of `destination`.
pub(crate) fn put_bytes(source: &[u8], destination: &mut Vec<u8>)
    requires
        source@.len() <= old(destination)@.len(),
    ensures
        final(destination)@ == source@ + old(destination)@.skip(source@.len() as int),
{
    let len: usize = source.len();
    let mut at: usize = 0;
    while at < len
        invariant
            at <= len,
            len == source@.len(),
            len <= destination@.len(),
            destination@.len() == old(destination)@.len(),
            forall|i: int|
                0 <= i < destination@.len() ==> #[trigger] destination@[i] == (if i < at {
                    source@[i]
                } else {
                    old(destination)@[i]
                }),
        decreases len - at,
    {
        destination.set(at, source[at]);
        at += 1;
    }
    assert(destination@ =~= source@ + old(destination)@.skip(source@.len() as int));
}

/// Byte of a row of `len` bytes that a mirrored row of samples has at `at`: the
/// samples of the front half are counted from the end, and those of the back
/// half from the front, while a sample keeps the order of its bytes.
pub open spec fn mirrored_byte(at: int, len: int, bytes: int) -> int {
    let half = (len / bytes / 2) * bytes;
    if at < half {
        len - (at / bytes + 1) * bytes + at % bytes
    } else if at >= len - half {
        let back = len - 1 - at;
        (back / bytes) * bytes + (bytes - 1 - back % bytes)
    } else {
        at
    }
}

/// The row with the order of its samples turned around.
pub open spec fn mirrored(row: Seq<u8>, bytes: int) -> Seq<u8> {
    Seq::new(row.len(), |i: int| row[mirrored_byte(i, row.len() as int, bytes)])
}

/// Reverse the samples of a row in place, which is what a horizontal mirror does
/// on top of the copy that put them there.
///
/// The samples are reversed one at a time and not one byte at a time, which
/// would swap the halves of every 16 bit or float sample.
pub fn reverse_samples(row: &mut Vec<u8>, bytes: usize)
    requires
        0 < bytes,
    ensures
        final(row)@ == mirrored(old(row)@, bytes as int),
{
    let len: usize = row.len();
    let half: usize = len / bytes / 2;
    let ghost before = row@;
    proof {
        lemma_fundamental_div_mod(len as int, bytes as int);
        lemma_fundamental_div_mod((len / bytes) as int, 2);
        assert(2 * (half * bytes) <= len) by (nonlinear_arith)
            requires
                len == bytes * (len as int / bytes as int) + len as int % bytes as int,
                0 <= len as int % bytes as int,
                2 * half <= len as int / bytes as int,
                0 < bytes,
        ;
    }
    let mut front: usize = 0;
    let mut index: usize = 0;
    while index < half
        invariant
            0 < bytes,
            index <= half,
            half == len as int / bytes as int / 2,
            2 * (half * bytes) <= len,
            front == index * bytes,
            len == before.len(),
            row@.len() == len,
            forall|i: int|
                0 <= i < len ==> #[trigger] row@[i] == (if i < front || i >= len - front {
                    before[mirrored_byte(i, len as int, bytes as int)]
                } else {
                    before[i]
                }),
        decreases half - index,
    {
        proof {
            lemma_room(index as int, half as int, bytes as int);
        }
        let back: usize = len - front - bytes;
        let mut byte: usize = 0;
        while byte < bytes
            invariant
                byte <= bytes,
                0 < bytes,
                index < half,
                half == len as int / bytes as int / 2,
                front == index * bytes,
                front + bytes <= half * bytes,
                2 * (half * bytes) <= len,
                back == len - front - bytes,
                len == before.len(),
                row@.len() == len,
                forall|i: int|
                    0 <= i < len ==> #[trigger] row@[i] == (if i < front + byte || i >= len - front
                        || back <= i < back + byte {
                        before[mirrored_byte(i, len as int, bytes as int)]
                    } else {
                        before[i]
                    }),
            decreases bytes - byte,
        {
            let left: u8 = row[front + byte];
            let right: u8 = row[back + byte];
            row.set(front + byte, right);
            row.set(back + byte, left);
            proof {
                lemma_sample_byte(index as int, byte as int, bytes as int);
                lemma_sample_byte(index as int, bytes - 1 - byte, bytes as int);
                assert((index + 1) * bytes == front + bytes) by (nonlinear_arith)
                    requires
                        front == index * bytes,
                ;
                assert(mirrored_byte(front + byte, len as int, bytes as int) == back + byte);
                assert(mirrored_byte(back + byte, len as int, bytes as int) == front + byte);
            }
            byte += 1;
        }
        proof {
            lemma_mul_is_distributive_add_other_way(bytes as int, index as int, 1);
        }
        front = front + bytes;
        index += 1;
    }
    assert(row@ =~= mirrored(before, bytes as int));
}

/// Turning a row of whole samples around puts the sample that was counted from
/// the front where it is counted from the end.
pub proof fn a_mirrored_row_is_its_samples_from_the_end(
    count: int,
    bytes: int,
    sample: spec_fn(int) -> Seq<u8>,
)
    requires
        0 <= count,
        0 < bytes,
    ensures
        mirrored(packed(count, bytes, sample), bytes) == packed(
            count,
            bytes,
            |i: int| sample(count - 1 - i),
        ),
{
    let row = packed(count, bytes, sample);
    let turned = packed(count, bytes, |i: int| sample(count - 1 - i));
    let len = count * bytes;
    assert(0 <= len) by (nonlinear_arith)
        requires
            0 <= count,
            0 < bytes,
            len == count * bytes,
    ;
    assert(row.len() == len);
    lemma_fundamental_div_mod_converse(len, bytes, count, 0);
    let half = (len / bytes / 2) * bytes;
    assert forall|at: int| 0 <= at < len implies mirrored(row, bytes)[at] == turned[at] by {
        lemma_split(at, count, bytes);
        let index = at / bytes;
        let byte = at % bytes;
        let other = (count - 1 - index) * bytes + byte;
        lemma_room(count - 1 - index, count, bytes);
        lemma_sample_byte(count - 1 - index, byte, bytes);
        assert(turned[at] == sample(count - 1 - index)[byte]);
        assert(row[other] == sample(count - 1 - index)[byte]);
        assert(other == len - (index + 1) * bytes + byte) by (nonlinear_arith)
            requires
                other == (count - 1 - index) * bytes + byte,
                len == count * bytes,
        ;
        if at < half {
            assert(mirrored_byte(at, len, bytes) == other);
        } else if at >= len - half {
            let back = len - 1 - at;
            assert(back == (count - 1 - index) * bytes + (bytes - 1 - byte)) by (nonlinear_arith)
                requires
                    back == len - 1 - at,
                    len == count * bytes,
                    at == index * bytes + byte,
            ;
            lemma_sample_byte(count - 1 - index, bytes - 1 - byte, bytes);
            assert(mirrored_byte(at, len, bytes) == other);
        } else {
            // Only the middle sample of an odd count is in neither half.
            assert(index == count / 2 && count % 2 == 1) by (nonlinear_arith)
                requires
                    at == index * bytes + byte,
                    0 <= byte < bytes,
                    (count / 2) * bytes <= at < count * bytes - (count / 2) * bytes,
                    0 <= count,
            ;
            assert(count - 1 - index == index);
            assert(mirrored_byte(at, len, bytes) == at);
        }
    }
    assert(mirrored(row, bytes) =~= turned);
}

/// Turning a row around twice hands the row back.
pub proof fn a_row_turned_around_twice_is_itself(row: Seq<u8>, bytes: int)
    requires
        0 < bytes,
    ensures
        mirrored(mirrored(row, bytes), bytes) == row,
{
    let len = row.len() as int;
    let half = (len / bytes / 2) * bytes;
    lemma_fundamental_div_mod(len, bytes);
    assert(0 <= 2 * half <= len) by (nonlinear_arith)
        requires
            half == (len / bytes / 2) * bytes,
            len == bytes * (len / bytes) + len % bytes,
            0 <= len % bytes,
            0 <= len,
            0 < bytes,
    ;
    assert forall|at: int| 0 <= at < len implies 0 <= #[trigger] mirrored_byte(at, len, bytes) < len
        && mirrored_byte(mirrored_byte(at, len, bytes), len, bytes) == at by {
        if at < half {
            lemma_split(at, len / bytes / 2, bytes);
            let index = at / bytes;
            let byte = at % bytes;
            let other = len - (index + 1) * bytes + byte;
            assert((index + 1) * bytes == index * bytes + bytes) by (nonlinear_arith);
            lemma_sample_byte(index, bytes - 1 - byte, bytes);
            assert(len - 1 - other == index * bytes + (bytes - 1 - byte));
        } else if at >= len - half {
            let back = len - 1 - at;
            lemma_split(back, len / bytes / 2, bytes);
            let index = back / bytes;
            let byte = bytes - 1 - back % bytes;
            lemma_sample_byte(index, byte, bytes);
            assert((index + 1) * bytes == index * bytes + bytes) by (nonlinear_arith);
        }
    }
    assert(mirrored(mirrored(row, bytes), bytes) =~= row);
}

/// A sample of `bits` bits scaled onto a word of `word` bits, however the
/// scaling rounds, moves back down to the sample it started as.
pub proof fn a_scaled_sample_moves_back_down(value: int, bits: nat, word: nat, rounding: int)
    requires
        1 <= bits <= word,
        0 <= value < pow2(bits),
        0 <= rounding < pow2(bits) - 1,
    ensures
        (value * (pow2(word) - 1) + rounding) / (pow2(bits) - 1) / pow2((word - bits) as nat) as int
            == value,
{
    let maximum = pow2(bits) - 1;
    let step = pow2((word - bits) as nat) as int;
    lemma_pow2_adds(bits, (word - bits) as nat);
    lemma_pow2_pos((word - bits) as nat);
    let full = pow2(word) - 1;
    assert(full == step * maximum + (step - 1)) by (nonlinear_arith)
        requires
            full + 1 == (maximum + 1) * step,
    ;
    let extra = value * (step - 1) + rounding;
    assert(value * full + rounding == (value * step) * maximum + extra) by (nonlinear_arith)
        requires
            full == step * maximum + (step - 1),
            extra == value * (step - 1) + rounding,
    ;
    assert(0 <= extra < maximum * step) by (nonlinear_arith)
        requires
            extra == value * (step - 1) + rounding,
            0 <= value <= maximum,
            0 <= rounding < maximum,
            1 <= step,
    ;
    let tail = extra / maximum;
    lemma_fundamental_div_mod(extra, maximum);
    assert(0 <= tail < step) by (nonlinear_arith)
        requires
            extra == maximum * tail + extra % maximum,
            0 <= extra % maximum < maximum,
            0 <= extra < maximum * step,
    ;
    assert(value * full + rounding == (value * step + tail) * maximum + extra % maximum)
        by (nonlinear_arith)
        requires
            value * full + rounding == (value * step) * maximum + extra,
            extra == maximum * tail + extra % maximum,
    ;
    lemma_fundamental_div_mod_converse(
        value * full + rounding,
        maximum,
        value * step + tail,
        extra % maximum,
    );
    lemma_fundamental_div_mod_converse(value * step + tail, step, value, tail);
}

/// A sample shifted up into a word moves back down to the sample it started as.
pub proof fn a_shifted_sample_moves_back_down(value: int, shift: nat)
    requires
        0 <= value,
    ensures
        value * pow2(shift) / pow2(shift) as int == value,
{
    lemma_pow2_pos(shift);
    lemma_fundamental_div_mod_converse(value * pow2(shift), pow2(shift) as int, value, 0);
}

} // verus!
