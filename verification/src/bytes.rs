//! Numbers as they are stored in a file.

use vstd::prelude::*;

verus! {

/// The big endian 16 bit number at `at`.
pub open spec fn be16(data: Seq<u8>, at: int) -> int {
    data[at] * 0x100 + data[at + 1]
}

/// The big endian 32 bit number at `at`.
pub open spec fn be32(data: Seq<u8>, at: int) -> int {
    data[at] * 0x100_0000 + data[at + 1] * 0x1_0000 + data[at + 2] * 0x100 + data[at + 3]
}

/// The big endian 64 bit number at `at`.
pub open spec fn be64(data: Seq<u8>, at: int) -> int {
    be32(data, at) * 0x1_0000_0000 + be32(data, at + 4)
}

/// The big endian number of `size` bytes at `at`.
pub open spec fn be_number(data: Seq<u8>, at: int, size: int) -> int
    decreases size,
{
    if size <= 0 {
        0
    } else {
        be_number(data, at, size - 1) * 0x100 + data[at + size - 1]
    }
}

/// The number `value` is once it has been stored in a `usize` without regard to
/// what does not fit.
pub open spec fn wrapped(value: int) -> int {
    value % (usize::MAX + 1)
}

/// Reads a byte, if there is one.
pub fn get_u8(data: &[u8], at: usize) -> (value: Option<u8>)
    ensures
        match value {
            Some(value) => at < data@.len() && value == data@[at as int],
            None => at >= data@.len(),
        },
{
    if at < data.len() {
        Some(data[at])
    } else {
        None
    }
}

/// Reads a big endian 16 bit number, if there is one.
pub fn get_be16(data: &[u8], at: usize) -> (value: Option<u16>)
    ensures
        match value {
            Some(value) => at + 2 <= data@.len() && value == be16(data@, at as int),
            None => at + 2 > data@.len(),
        },
{
    if data.len() < 2 || at > data.len() - 2 {
        return None;
    }
    Some(data[at] as u16 * 0x100 + data[at + 1] as u16)
}

/// Reads a big endian 32 bit number, if there is one.
pub fn get_be32(data: &[u8], at: usize) -> (value: Option<u32>)
    ensures
        match value {
            Some(value) => at + 4 <= data@.len() && value == be32(data@, at as int),
            None => at + 4 > data@.len(),
        },
{
    if data.len() < 4 || at > data.len() - 4 {
        return None;
    }
    Some(
        data[at] as u32 * 0x100_0000 + data[at + 1] as u32 * 0x1_0000 + data[at + 2] as u32 * 0x100
            + data[at + 3] as u32,
    )
}

/// Reads a big endian 64 bit number, if there is one.
pub fn get_be64(data: &[u8], at: usize) -> (value: Option<u64>)
    ensures
        match value {
            Some(value) => at + 8 <= data@.len() && value == be64(data@, at as int),
            None => at + 8 > data@.len(),
        },
{
    if data.len() < 8 || at > data.len() - 8 {
        return None;
    }
    match (get_be32(data, at), get_be32(data, at + 4)) {
        (Some(high), Some(low)) => Some(high as u64 * 0x1_0000_0000 + low as u64),
        _ => None,
    }
}

proof fn lemma_usize_is_bytes()
    ensures
        (usize::MAX + 1) % 0x100 == 0,
        usize::MAX + 1 == 0x100 * ((usize::MAX + 1) / 0x100),
        usize::MAX as int / 0x100 + 1 == (usize::MAX + 1) / 0x100,
{
    assert(usize::MAX == 0xffff_ffff || usize::MAX == 0xffff_ffff_ffff_ffff);
}

proof fn lemma_wrapped_step(value: int, low: int, byte: int)
    requires
        0 <= value,
        low == wrapped(value),
        0 <= byte < 0x100,
    ensures
        (low % ((usize::MAX + 1) / 0x100)) * 0x100 + byte == wrapped(value * 0x100 + byte),
{
    lemma_usize_is_bytes();
    let whole = usize::MAX + 1;
    let part = whole / 0x100;
    let kept = low % part;
    assert(kept == value % part) by {
        vstd::arithmetic::div_mod::lemma_mod_mod(value, part, 0x100);
        assert(part * 0x100 == whole);
    }
    vstd::arithmetic::div_mod::lemma_fundamental_div_mod(value, part);
    let quotient = value / part;
    assert(value * 0x100 + byte == quotient * whole + (kept * 0x100 + byte)) by (nonlinear_arith)
        requires
            value == part * quotient + kept,
            whole == 0x100 * part,
    ;
    assert(0 <= kept < part) by {
        vstd::arithmetic::div_mod::lemma_mod_bound(low, part);
    }
    vstd::arithmetic::div_mod::lemma_fundamental_div_mod_converse(
        value * 0x100 + byte,
        whole,
        quotient,
        kept * 0x100 + byte,
    );
}

proof fn lemma_be_number_is_natural(data: Seq<u8>, at: int, size: int)
    ensures
        0 <= be_number(data, at, size),
    decreases size,
{
    if size > 0 {
        lemma_be_number_is_natural(data, at, size - 1);
    }
}

/// Reads a big endian number of `size` bytes, without what a `usize` cannot
/// hold of it.
pub fn get_sized(data: &[u8], at: usize, size: usize) -> (value: Option<usize>)
    ensures
        match value {
            Some(value) => {
                &&& at + size <= data@.len()
                &&& value == wrapped(be_number(data@, at as int, size as int))
            },
            None => at + size > data@.len(),
        },
{
    let len: usize = data.len();
    if len < size || at > len - size {
        return None;
    }
    proof {
        vstd::arithmetic::div_mod::lemma_small_mod(0, (usize::MAX + 1) as nat);
    }
    let mut value: usize = 0;
    let mut taken: usize = 0;
    while taken < size
        invariant
            taken <= size,
            len == data@.len(),
            at + size <= len,
            value == wrapped(be_number(data@, at as int, taken as int)),
        decreases size - taken,
    {
        proof {
            lemma_usize_is_bytes();
            lemma_be_number_is_natural(data@, at as int, taken as int);
            lemma_wrapped_step(
                be_number(data@, at as int, taken as int),
                value as int,
                data@[at + taken] as int,
            );
        }
        let byte: u8 = data[at + taken];
        value = (value % (usize::MAX / 0x100 + 1)) * 0x100 + byte as usize;
        taken += 1;
    }
    Some(value)
}

/// The bytes of a number can be told from it again, the first from its top and the
/// last from its bottom, at each of the widths.
pub proof fn a_number_is_stored_with_its_highest_byte_first(data: Seq<u8>, at: int)
    ensures
        0 <= be16(data, at) < 0x1_0000,
        be16(data, at) / 0x100 == data[at],
        be16(data, at) % 0x100 == data[at + 1],
        0 <= be32(data, at) < 0x1_0000_0000,
        be32(data, at) / 0x100_0000 == data[at],
        be32(data, at) / 0x1_0000 % 0x100 == data[at + 1],
        be32(data, at) / 0x100 % 0x100 == data[at + 2],
        be32(data, at) % 0x100 == data[at + 3],
        0 <= be64(data, at) < 0x1_0000_0000_0000_0000,
        be64(data, at) / 0x1_0000_0000 == be32(data, at),
        be64(data, at) % 0x1_0000_0000 == be32(data, at + 4),
{
}

/// A number of one more byte is the shorter one moved up by a byte, with the byte
/// that follows it, and a `usize` keeps as much of it as fits.
pub proof fn each_further_byte_is_the_least(data: Seq<u8>, at: int, size: int)
    requires
        0 <= size,
    ensures
        be_number(data, at, size + 1) / 0x100 == be_number(data, at, size),
        be_number(data, at, size + 1) % 0x100 == data[at + size],
        be_number(data, at, size) <= usize::MAX ==> wrapped(be_number(data, at, size))
            == be_number(data, at, size),
{
    lemma_be_number_is_natural(data, at, size);
    if be_number(data, at, size) <= usize::MAX {
        vstd::arithmetic::div_mod::lemma_small_mod(
            be_number(data, at, size) as nat,
            (usize::MAX + 1) as nat,
        );
    }
}

} // verus!
