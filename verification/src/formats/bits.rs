//! A reader over bits, most significant bit first.

use vstd::prelude::*;

use vstd::arithmetic::power2::{lemma2_to64, pow2};

verus! {

/// Bits a run of bytes holds.
pub open spec fn bit_count(data: Seq<u8>) -> int {
    8 * data.len() as int
}

/// The bit at `at`, counted from the most significant bit of the first byte.
pub open spec fn bit_at(data: Seq<u8>, at: int) -> int {
    data[at / 8] as int / pow2((7 - at % 8) as nat) as int % 2
}

/// The number the `count` bits at `at` are.
pub open spec fn bits_at(data: Seq<u8>, at: int, count: int) -> int
    decreases count,
{
    if count <= 0 {
        0
    } else {
        2 * bits_at(data, at, count - 1) + bit_at(data, at + count - 1)
    }
}

/// Zero bits at `at` before a one, or `limit` if there are that many.
pub open spec fn zeros_at(data: Seq<u8>, at: int, limit: nat) -> nat
    decreases limit,
{
    if limit == 0 || bit_at(data, at) != 0 {
        0
    } else {
        1 + zeros_at(data, at + 1, (limit - 1) as nat)
    }
}

/// Where a reader that stands at `at` stands once there was nothing left to read.
pub open spec fn run_out(data: Seq<u8>, at: int) -> int {
    if at < bit_count(data) {
        bit_count(data)
    } else {
        at
    }
}

/// A reader over the bits of a run of bytes. One that skipped past their end
/// stands behind it, and reads nothing more.
pub struct Bits<'a> {
    pub data: &'a [u8],
    /// The bit that is read next.
    pub at: u128,
}

proof fn lemma_bit_at(byte: u8, shift: u8)
    requires
        shift < 8,
    ensures
        (byte >> shift) & 1 == byte as int / pow2(shift as nat) as int % 2,
        (byte >> shift) & 1 == 0 || (byte >> shift) & 1 == 1,
{
    vstd::bits::lemma_u8_shr_is_div(byte, shift);
    let shifted = byte >> shift;
    assert(shifted & 1 == shifted % 2) by (bit_vector);
}

pub(crate) proof fn lemma_bits_bound(data: Seq<u8>, at: int, count: int)
    requires
        0 <= count,
    ensures
        0 <= bits_at(data, at, count) < pow2(count as nat),
    decreases count,
{
    vstd::arithmetic::power2::lemma2_to64();
    if count > 0 {
        lemma_bits_bound(data, at, count - 1);
        vstd::arithmetic::power2::lemma_pow2_unfold(count as nat);
    }
}

proof fn lemma_bits_fit(data: Seq<u8>, at: int, count: int)
    requires
        0 <= count <= 32,
    ensures
        0 <= bits_at(data, at, count) <= u32::MAX,
{
    lemma_bits_bound(data, at, count);
    vstd::arithmetic::power2::lemma2_to64();
    if count < 32 {
        vstd::arithmetic::power2::lemma_pow2_strictly_increases(count as nat, 32);
    }
}

impl<'a> Bits<'a> {
    pub fn new(data: &'a [u8]) -> (bits: Self)
        ensures
            bits.data == data,
            bits.at == 0,
    {
        Bits { data, at: 0 }
    }

    /// Whether the reader stands inside the bits it reads, or at their end.
    pub open spec fn valid(self) -> bool {
        self.at <= bit_count(self.data@)
    }

    /// One bit.
    pub fn bit(&mut self) -> (bit: Option<u32>)
        ensures
            final(self).data == old(self).data,
            match bit {
                Some(bit) => {
                    &&& old(self).at < bit_count(old(self).data@)
                    &&& bit == bit_at(old(self).data@, old(self).at as int)
                    &&& bit == 0 || bit == 1
                    &&& final(self).at == old(self).at + 1
                },
                None => {
                    &&& old(self).at >= bit_count(old(self).data@)
                    &&& final(self).at == old(self).at
                },
            },
    {
        let len: usize = self.data.len();
        if self.at / 8 >= len as u128 {
            return None;
        }
        let byte: u8 = self.data[(self.at / 8) as usize];
        let shift: u8 = 7 - (self.at % 8) as u8;
        proof {
            lemma_bit_at(byte, shift);
        }
        let bit: u8 = (byte >> shift) & 1;
        self.at = self.at + 1;
        Some(bit as u32)
    }

    /// `count` bits, as a number.
    pub fn bits(&mut self, count: u32) -> (value: Option<u32>)
        requires
            count <= 32,
        ensures
            final(self).data == old(self).data,
            match value {
                Some(value) => {
                    &&& count == 0 || old(self).at + count <= bit_count(old(self).data@)
                    &&& value == bits_at(old(self).data@, old(self).at as int, count as int)
                    &&& final(self).at == old(self).at + count
                },
                None => {
                    &&& count > 0
                    &&& old(self).at + count > bit_count(old(self).data@)
                    &&& final(self).at == run_out(old(self).data@, old(self).at as int)
                },
            },
    {
        let ghost start = self.at as int;
        let mut value: u32 = 0;
        let mut taken: u32 = 0;
        while taken < count
            invariant
                taken <= count <= 32,
                start == old(self).at,
                self.data == old(self).data,
                self.at == start + taken,
                taken == 0 || self.at <= bit_count(self.data@),
                value == bits_at(self.data@, start, taken as int),
            decreases count - taken,
        {
            match self.bit() {
                Some(bit) => {
                    proof {
                        lemma_bits_fit(self.data@, start, taken + 1);
                    }
                    value = 2 * value + bit;
                },
                None => {
                    return None;
                },
            }
            taken += 1;
        }
        Some(value)
    }

    /// Skips `count` bits.
    pub fn skip(&mut self, count: u32) -> (skipped: Option<()>)
        ensures
            final(self).data == old(self).data,
            final(self).at == (if old(self).at + count <= u128::MAX {
                old(self).at + count
            } else {
                old(self).at as int
            }),
            skipped is Some == (old(self).at + count <= bit_count(old(self).data@)),
            skipped is Some ==> final(self).at == old(self).at + count,
    {
        let len: usize = self.data.len();
        match self.at.checked_add(count as u128) {
            Some(at) => {
                self.at = at;
            },
            None => {
                return None;
            },
        }
        if self.at <= 8 * len as u128 {
            Some(())
        } else {
            None
        }
    }

    /// An unsigned variable length code, which av1 writes as a run of zeros, a
    /// one, and that many more bits. A run of more than 32 zeros is none.
    pub fn uvlc(&mut self) -> (value: Option<u64>)
        ensures
            final(self).data == old(self).data,
            ({
                let start = old(self).at as int;
                let zeros = zeros_at(old(self).data@, start, 33) as int;
                match value {
                    Some(value) => {
                        &&& zeros <= 32
                        &&& start + 2 * zeros + 1 <= bit_count(old(self).data@)
                        &&& value == pow2(zeros as nat) - 1 + bits_at(
                            old(self).data@,
                            start + zeros + 1,
                            zeros,
                        )
                        &&& final(self).at == start + 2 * zeros + 1
                    },
                    None => {
                        &&& zeros > 32 || start + 2 * zeros + 1 > bit_count(old(self).data@)
                        &&& final(self).at == (if zeros > 32 && start + 33 <= bit_count(
                            old(self).data@,
                        ) {
                            start + 33
                        } else {
                            run_out(old(self).data@, start)
                        })
                    },
                }
            }),
    {
        let ghost start = self.at as int;
        let mut leading: u32 = 0;
        let mut found: bool = false;
        while !found
            invariant
                leading <= 32,
                start == old(self).at,
                self.data == old(self).data,
                self.at == start + leading + (if found { 1int } else { 0 }),
                self.at == start || self.at <= bit_count(self.data@),
                !found ==> zeros_at(self.data@, start, 33) == leading + zeros_at(
                    self.data@,
                    start + leading,
                    (33 - leading) as nat,
                ),
                found ==> zeros_at(self.data@, start, 33) == leading,
            decreases 33 - leading, (if found { 0int } else { 1int }),
        {
            match self.bit() {
                Some(bit) => {
                    if bit == 0 {
                        leading += 1;
                        if leading > 32 {
                            return None;
                        }
                    } else {
                        found = true;
                    }
                },
                None => {
                    return None;
                },
            }
        }
        match self.bits(leading) {
            Some(low) => {
                proof {
                    vstd::arithmetic::power2::lemma2_to64();
                    if leading < 32 {
                        vstd::arithmetic::power2::lemma_pow2_strictly_increases(
                            leading as nat,
                            32,
                        );
                    }
                    vstd::arithmetic::power2::lemma_pow2_pos(leading as nat);
                    vstd::bits::lemma_u64_shl_is_mul(1u64, leading as u64);
                    assert(1u64 << leading == 1u64 << (leading as u64)) by (bit_vector);
                }
                Some((1u64 << leading) - 1 + low as u64)
            },
            None => None,
        }
    }
}

/// The bits of a byte are read from its most significant to its least: eight of them
/// that start with a byte are the byte, and so are the eight of the next behind it.
pub proof fn eight_bits_are_their_byte(data: Seq<u8>, index: int)
    requires
        0 <= index < data.len(),
    ensures
        bits_at(data, 8 * index, 8) == data[index],
        bit_at(data, 8 * index) == (if data[index] >= 0x80 {
            1int
        } else {
            0
        }),
        bit_at(data, 8 * index + 7) == data[index] as int % 2,
{
    let byte = data[index] as int;
    let at = 8 * index;
    lemma2_to64();
    assert forall|i: int| 0 <= i < 8 implies #[trigger] bit_at(data, at + i) == byte / pow2(
        (7 - i) as nat,
    ) as int % 2 by {
        assert((at + i) / 8 == index);
        assert((at + i) % 8 == i);
    }
    assert(bits_at(data, at, 1) == byte / 128) by {
        assert(bit_at(data, at + 0) == byte / 128 % 2);
        assert(bits_at(data, at, 1) == 2 * bits_at(data, at, 0) + bit_at(data, at + 0));
    }
    assert(bits_at(data, at, 2) == byte / 64) by {
        assert(bit_at(data, at + 1) == byte / 64 % 2);
        assert(bits_at(data, at, 2) == 2 * bits_at(data, at, 1) + bit_at(data, at + 1));
    }
    assert(bits_at(data, at, 3) == byte / 32) by {
        assert(bit_at(data, at + 2) == byte / 32 % 2);
        assert(bits_at(data, at, 3) == 2 * bits_at(data, at, 2) + bit_at(data, at + 2));
    }
    assert(bits_at(data, at, 4) == byte / 16) by {
        assert(bit_at(data, at + 3) == byte / 16 % 2);
        assert(bits_at(data, at, 4) == 2 * bits_at(data, at, 3) + bit_at(data, at + 3));
    }
    assert(bits_at(data, at, 5) == byte / 8) by {
        assert(bit_at(data, at + 4) == byte / 8 % 2);
        assert(bits_at(data, at, 5) == 2 * bits_at(data, at, 4) + bit_at(data, at + 4));
    }
    assert(bits_at(data, at, 6) == byte / 4) by {
        assert(bit_at(data, at + 5) == byte / 4 % 2);
        assert(bits_at(data, at, 6) == 2 * bits_at(data, at, 5) + bit_at(data, at + 5));
    }
    assert(bits_at(data, at, 7) == byte / 2) by {
        assert(bit_at(data, at + 6) == byte / 2 % 2);
        assert(bits_at(data, at, 7) == 2 * bits_at(data, at, 6) + bit_at(data, at + 6));
    }
    assert(bits_at(data, at, 8) == byte / 1) by {
        assert(bit_at(data, at + 7) == byte / 1 % 2);
        assert(bits_at(data, at, 8) == 2 * bits_at(data, at, 7) + bit_at(data, at + 7));
    }
    assert(bit_at(data, at + 0) == byte / 128 % 2);
    assert(bit_at(data, at + 7) == byte / 1 % 2);
}

/// Bits that are read in two runs are the bits of one: the first run is moved up by
/// the length of the second.
pub proof fn two_runs_of_bits_are_one(data: Seq<u8>, at: int, first: int, second: int)
    requires
        0 <= first,
        0 <= second,
    ensures
        bits_at(data, at, first + second) == bits_at(data, at, first) * pow2(second as nat)
            + bits_at(data, at + first, second),
    decreases second,
{
    lemma2_to64();
    if second > 0 {
        two_runs_of_bits_are_one(data, at, first, second - 1);
        vstd::arithmetic::power2::lemma_pow2_unfold(second as nat);
        let run = bits_at(data, at, first);
        let power = pow2((second - 1) as nat) as int;
        assert(2 * (run * power) == run * (2 * power)) by (nonlinear_arith);
        assert(at + (first + second) - 1 == (at + first) + second - 1);
        assert(bits_at(data, at, first + second) == 2 * bits_at(data, at, first + (second - 1))
            + bit_at(data, at + first + second - 1));
    } else {
        assert(bits_at(data, at, first) * 1 == bits_at(data, at, first));
    }
}

/// The zeros before a one are counted: all the bits up to there are zero, and the
/// next one is set unless the limit was reached.
pub proof fn zeros_are_counted_up_to_a_one(data: Seq<u8>, at: int, limit: nat)
    ensures
        zeros_at(data, at, limit) <= limit,
        forall|i: int| 0 <= i < zeros_at(data, at, limit) ==> #[trigger] bit_at(data, at + i) == 0,
        zeros_at(data, at, limit) < limit ==> bit_at(data, at + zeros_at(data, at, limit)) != 0,
    decreases limit,
{
    if limit > 0 && bit_at(data, at) == 0 {
        zeros_are_counted_up_to_a_one(data, at + 1, (limit - 1) as nat);
        assert forall|i: int| 0 <= i < zeros_at(data, at, limit) implies #[trigger] bit_at(
            data,
            at + i,
        ) == 0 by {
            if i > 0 {
                assert(bit_at(data, at + 1 + (i - 1)) == 0);
            }
        }
    }
}

} // verus!
