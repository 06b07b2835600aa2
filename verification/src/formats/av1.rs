//! The sequence header of a coded av1 item, as far as its colour.

use vstd::prelude::*;

use vstd::arithmetic::power2::pow2;
use vstd::slice::slice_subrange;

use crate::bytes;
use crate::color::{Cicp, UNSPECIFIED};
use crate::formats::bits;
use crate::formats::bits::Bits;

verus! {

/// Bytes of the base 128 number at the start of `data`: up to and with the first
/// one whose top bit is clear.
pub open spec fn leb128_length(data: Seq<u8>) -> Option<nat>
    decreases data.len(),
{
    if data.len() == 0 {
        None
    } else if data[0] < 0x80 {
        Some(1)
    } else {
        match leb128_length(data.skip(1)) {
            Some(length) => Some(length + 1),
            None => None,
        }
    }
}

/// The little endian base 128 number of the first `count` bytes.
pub open spec fn leb128_value(data: Seq<u8>, count: int) -> int
    decreases count,
{
    if count <= 0 {
        0
    } else {
        leb128_value(data, count - 1) + (data[count - 1] as int % 0x80) * pow2(
            (7 * (count - 1)) as nat,
        )
    }
}

proof fn lemma_leb128_natural(data: Seq<u8>, count: int)
    ensures
        0 <= leb128_value(data, count),
    decreases count,
{
    if count > 0 {
        lemma_leb128_natural(data, count - 1);
        vstd::arithmetic::power2::lemma_pow2_pos((7 * (count - 1)) as nat);
        assert(0 <= (data[count - 1] as int % 0x80) * pow2((7 * (count - 1)) as nat))
            by (nonlinear_arith)
            requires
                0 <= data[count - 1] as int % 0x80,
                0 <= pow2((7 * (count - 1)) as nat),
        ;
    }
}

proof fn lemma_wrapping_product(value: usize, factor: usize, exact: int)
    requires
        0 <= exact,
        value == bytes::wrapped(exact),
    ensures
        value.wrapping_mul(factor) == bytes::wrapped(exact * factor),
{
    let whole = usize::MAX + 1;
    vstd::arithmetic::div_mod::lemma_mul_mod_noop_left(exact, factor as int, whole);
}

proof fn lemma_wrapping_sum(left: usize, right: usize, exact_left: int, exact_right: int)
    requires
        0 <= exact_left,
        0 <= exact_right,
        left == bytes::wrapped(exact_left),
        right == bytes::wrapped(exact_right),
    ensures
        left.wrapping_add(right) == bytes::wrapped(exact_left + exact_right),
{
    let whole = usize::MAX + 1;
    vstd::arithmetic::div_mod::lemma_add_mod_noop(exact_left, exact_right, whole);
    if left + right < whole {
        vstd::arithmetic::div_mod::lemma_small_mod((left + right) as nat, whole as nat);
    } else {
        vstd::arithmetic::div_mod::lemma_fundamental_div_mod_converse(
            left + right,
            whole,
            1,
            left + right - whole,
        );
    }
}

proof fn lemma_leb128_length_skips(data: Seq<u8>, at: int)
    requires
        0 <= at <= data.len(),
        forall|i: int| 0 <= i < at ==> data[i] >= 0x80,
    ensures
        leb128_length(data) == (match leb128_length(data.skip(at)) {
            Some(length) => Some((length + at) as nat),
            None => None,
        }),
    decreases at,
{
    if at == 0 {
        assert(data.skip(0) =~= data);
    } else {
        lemma_leb128_length_skips(data.skip(1), at - 1);
        assert(data.skip(1).skip(at - 1) =~= data.skip(at));
    }
}

/// A little endian base 128 number, without what a `usize` cannot hold of it,
/// and how many bytes it took.
pub fn leb128(data: &[u8]) -> (number: Option<(usize, usize)>)
    ensures
        match number {
            Some((value, length)) => {
                &&& leb128_length(data@) == Some(length as nat)
                &&& length <= data@.len()
                &&& value == bytes::wrapped(leb128_value(data@, length as int))
            },
            None => leb128_length(data@) is None,
        },
{
    proof {
        vstd::arithmetic::div_mod::lemma_small_mod(0, (usize::MAX + 1) as nat);
        vstd::arithmetic::div_mod::lemma_small_mod(1, (usize::MAX + 1) as nat);
        vstd::arithmetic::power2::lemma2_to64();
    }
    let len: usize = data.len();
    let mut value: usize = 0;
    let mut scale: usize = 1;
    let mut at: usize = 0;
    while at < len
        invariant
            at <= len,
            len == data@.len(),
            value == bytes::wrapped(leb128_value(data@, at as int)),
            scale == bytes::wrapped(pow2((7 * at) as nat) as int),
            forall|i: int| 0 <= i < at ==> data@[i] >= 0x80,
        decreases len - at,
    {
        let byte: u8 = data[at];
        let low: usize = (byte % 0x80) as usize;
        let ghost exact = pow2((7 * at) as nat) as int;
        proof {
            lemma_leb128_natural(data@, at as int);
            vstd::arithmetic::power2::lemma_pow2_pos((7 * at) as nat);
            lemma_wrapping_product(scale, low, exact);
            assert(exact * low == low * exact) by (nonlinear_arith);
            assert(0 <= exact * low) by (nonlinear_arith)
                requires
                    0 <= exact,
                    0 <= low,
            ;
            lemma_wrapping_sum(
                value,
                scale.wrapping_mul(low),
                leb128_value(data@, at as int),
                exact * low,
            );
            vstd::arithmetic::power2::lemma_pow2_adds((7 * at) as nat, 7);
            vstd::arithmetic::power2::lemma2_to64();
            lemma_wrapping_product(scale, 0x80, exact);
            lemma_leb128_length_skips(data@, at as int);
            assert(data@.skip(at as int)[0] == byte);
        }
        value = value.wrapping_add(scale.wrapping_mul(low));
        scale = scale.wrapping_mul(0x80);
        at += 1;
        if byte < 0x80 {
            return Some((value, at));
        }
    }
    proof {
        lemma_leb128_length_skips(data@, len as int);
        assert(data@.skip(len as int) =~= Seq::<u8>::empty());
    }
    None
}

/// The kind of bitstream unit that carries a sequence header.
pub const SEQUENCE_HEADER: u8 = 1;

/// Where the first sequence header among the bitstream units from `at` on starts
/// and ends. A unit that states no size runs to the end of the payload.
pub open spec fn sequence_header_from(payload: Seq<u8>, at: int) -> Option<(int, int)>
    decreases payload.len() - at,
{
    if at >= payload.len() {
        None
    } else {
        let kind = payload[at] as int / 8 % 16;
        let body = at + 1 + payload[at] as int / 4 % 2;
        if body > payload.len() {
            None
        } else if payload[at] as int / 2 % 2 == 1 {
            match leb128_length(payload.skip(body)) {
                None => None,
                Some(length) => {
                    let start = body + length;
                    let end = start + bytes::wrapped(leb128_value(payload.skip(body), length as int));
                    if end > payload.len() {
                        None
                    } else if kind == SEQUENCE_HEADER {
                        Some((start, end))
                    } else {
                        sequence_header_from(payload, end)
                    }
                },
            }
        } else if kind == SEQUENCE_HEADER {
            Some((body, payload.len() as int))
        } else {
            None
        }
    }
}

proof fn lemma_leb128_length_bound(data: Seq<u8>)
    ensures
        leb128_length(data) matches Some(length) ==> 1 <= length <= data.len(),
    decreases data.len(),
{
    if data.len() > 0 && data[0] >= 0x80 {
        lemma_leb128_length_bound(data.skip(1));
    }
}

/// The payload of the first sequence header of a coded av1 item, as where it
/// starts and ends.
///
/// The payload of a still image is a series of open bitstream units, and the
/// sequence header is the one that carries the colour description. A file whose
/// payload holds none states its colour in a `colr` box.
pub fn sequence_header_payload(payload: &[u8]) -> (header: Option<(usize, usize)>)
    ensures
        match header {
            Some((start, end)) => {
                &&& sequence_header_from(payload@, 0) == Some((start as int, end as int))
                &&& start <= end <= payload@.len()
            },
            None => sequence_header_from(payload@, 0) is None,
        },
{
    let len: usize = payload.len();
    let mut at: usize = 0;
    while at < len
        invariant
            at <= len,
            len == payload@.len(),
            sequence_header_from(payload@, 0) == sequence_header_from(payload@, at as int),
        decreases len - at,
    {
        let first: u8 = payload[at];
        let kind: u8 = first / 8 % 16;
        let extension: usize = (first / 4 % 2) as usize;
        if extension > len - at - 1 {
            return None;
        }
        let body: usize = at + 1 + extension;
        if first / 2 % 2 == 1 {
            let rest = slice_subrange(payload, body, len);
            assert(rest@ =~= payload@.skip(body as int));
            let (size, length) = match leb128(rest) {
                Some(number) => number,
                None => {
                    return None;
                },
            };
            proof {
                lemma_leb128_length_bound(rest@);
            }
            let start: usize = body + length;
            if size > len - start {
                return None;
            }
            let end: usize = start + size;
            if kind == SEQUENCE_HEADER {
                return Some((start, end));
            }
            at = end;
        } else {
            if kind == SEQUENCE_HEADER {
                return Some((body, len));
            }
            return None;
        }
    }
    None
}

/// Where the operating points of a header end: `count` of them from `at` on,
/// each with a display delay if `delays`.
pub open spec fn points_end(header: Seq<u8>, at: int, count: nat, delays: bool) -> int
    decreases count,
{
    if count == 0 {
        at
    } else {
        let tier = if bits::bits_at(header, at + 12, 5) > 7 {
            1int
        } else {
            0
        };
        let delay = at + 17 + tier;
        let next = if !delays {
            delay
        } else if bits::bit_at(header, delay) == 1 {
            delay + 5
        } else {
            delay + 1
        };
        points_end(header, next, (count - 1) as nat, delays)
    }
}

/// Where the timing record of a header that states one ends, unless it holds a
/// variable length code that is none.
pub open spec fn timing_end(header: Seq<u8>, at: int) -> Option<int> {
    if bits::bit_at(header, at) != 1 {
        Some(at + 1)
    } else if bits::bit_at(header, at + 65) != 1 {
        Some(at + 66)
    } else {
        let zeros = bits::zeros_at(header, at + 66, 33) as int;
        if zeros > 32 {
            None
        } else {
            Some(at + 66 + 2 * zeros + 1)
        }
    }
}

/// Where the operating parameters end: five bits of a reduced header, and the
/// timing record and every operating point of a longer one. A header that
/// describes a decoder model keeps a layout that is not walked.
pub open spec fn operating_end(header: Seq<u8>, reduced: bool) -> Option<int> {
    if reduced {
        Some(10)
    } else {
        match timing_end(header, 5) {
            None => None,
            Some(model) => if bits::bit_at(header, model) == 1 {
                None
            } else {
                let delays = bits::bit_at(header, model + 1) == 1;
                let count = bits::bits_at(header, model + 2, 5) + 1;
                Some(points_end(header, model + 7, count as nat, delays))
            },
        }
    }
}

/// Where the size of the frame and its identifiers end.
pub open spec fn size_end(header: Seq<u8>, at: int, reduced: bool) -> int {
    let ids = at + 8 + bits::bits_at(header, at, 4) + 1 + bits::bits_at(header, at + 4, 4) + 1;
    if reduced {
        ids
    } else if bits::bit_at(header, ids) == 1 {
        ids + 8
    } else {
        ids + 1
    }
}

/// Where the flags of the order hint and the screen content tools end, which
/// only a longer header has.
pub open spec fn tools_end(header: Seq<u8>, at: int) -> int {
    let hinted = bits::bit_at(header, at) == 1;
    let chosen = at + 1 + (if hinted {
        2int
    } else {
        0
    });
    let (tools, motion) = if bits::bit_at(header, chosen) == 1 {
        (true, chosen + 1)
    } else {
        (bits::bit_at(header, chosen + 1) > 0, chosen + 2)
    };
    let forced = if !tools {
        motion
    } else if bits::bit_at(header, motion) == 1 {
        motion + 1
    } else {
        motion + 2
    };
    forced + (if hinted {
        3int
    } else {
        0
    })
}

/// Where the colour configuration of a header starts.
pub open spec fn color_config_at(header: Seq<u8>) -> Option<int> {
    let reduced = bits::bit_at(header, 4) == 1;
    match operating_end(header, reduced) {
        None => None,
        Some(size) => {
            let flags = size_end(header, size, reduced) + 3;
            Some((if reduced {
                flags
            } else {
                tools_end(header, flags + 4)
            }) + 3)
        },
    }
}

/// Where the flag of a colour configuration that says whether codes follow is.
pub open spec fn described_at(header: Seq<u8>, at: int) -> int {
    let profile = bits::bits_at(header, 0, 3);
    let twelve = at + 1 + (if profile == 2 && bits::bit_at(header, at) == 1 {
        1int
    } else {
        0
    });
    twelve + (if profile != 1 {
        1int
    } else {
        0
    })
}

/// The colour a sequence header states.
pub open spec fn header_color(header: Seq<u8>) -> Option<Cicp> {
    match color_config_at(header) {
        None => None,
        Some(at) => {
            let codes = described_at(header, at) + 1;
            let described = bits::bit_at(header, codes - 1) == 1;
            let range = if described {
                codes + 24
            } else {
                codes
            };
            if range + 1 > bits::bit_count(header) {
                None
            } else {
                Some(
                    Cicp {
                        primaries: if described {
                            bits::bits_at(header, codes, 8) as u8
                        } else {
                            UNSPECIFIED
                        },
                        transfer: if described {
                            bits::bits_at(header, codes + 8, 8) as u8
                        } else {
                            UNSPECIFIED
                        },
                        matrix: if described {
                            bits::bits_at(header, codes + 16, 8) as u8
                        } else {
                            UNSPECIFIED
                        },
                        full_range: bits::bit_at(header, range) == 1,
                    },
                )
            }
        },
    }
}

/// The colour the first sequence header of a payload states.
pub open spec fn payload_color(payload: Seq<u8>) -> Option<Cicp> {
    match sequence_header_from(payload, 0) {
        Some((start, end)) => header_color(payload.subrange(start, end)),
        None => None,
    }
}

proof fn lemma_points_end_after(header: Seq<u8>, at: int, count: nat, delays: bool)
    ensures
        at <= points_end(header, at, count, delays),
    decreases count,
{
    if count > 0 {
        let tier = if bits::bits_at(header, at + 12, 5) > 7 {
            1int
        } else {
            0
        };
        let delay = at + 17 + tier;
        let next = if !delays {
            delay
        } else if bits::bit_at(header, delay) == 1 {
            delay + 5
        } else {
            delay + 1
        };
        lemma_points_end_after(header, next, (count - 1) as nat, delays);
    }
}

/// Reads past the operating points.
fn skip_points(reader: &mut Bits<'_>, count: u32, delays: bool) -> (skipped: Option<()>)
    requires
        old(reader).valid(),
    ensures
        skipped is Some ==> final(reader).valid(),
        final(reader).data == old(reader).data,
        ({
            let end = points_end(old(reader).data@, old(reader).at as int, count as nat, delays);
            match skipped {
                Some(_) => final(reader).at == end,
                None => end > bits::bit_count(old(reader).data@),
            }
        }),
{
    let ghost header = reader.data@;
    let ghost start = reader.at as int;
    let mut left: u32 = count;
    while left > 0
        invariant
            left <= count,
            header == old(reader).data@,
            start == old(reader).at,
            reader.data == old(reader).data,
            reader.valid(),
            points_end(header, start, count as nat, delays) == points_end(
                header,
                reader.at as int,
                left as nat,
                delays,
            ),
        decreases left,
    {
        let ghost point = reader.at as int;
        let ghost tier = if bits::bits_at(header, point + 12, 5) > 7 {
            1int
        } else {
            0
        };
        let ghost delay = point + 17 + tier;
        let ghost next = if !delays {
            delay
        } else if bits::bit_at(header, delay) == 1 {
            delay + 5
        } else {
            delay + 1
        };
        proof {
            lemma_points_end_after(header, next, (left - 1) as nat, delays);
        }
        if reader.skip(12).is_none() {
            return None;
        }
        let level: u32 = match reader.bits(5) {
            Some(level) => level,
            None => {
                return None;
            },
        };
        if level > 7 {
            if reader.skip(1).is_none() {
                return None;
            }
        }
        if delays {
            match reader.bit() {
                Some(stated) => {
                    if stated == 1 {
                        if reader.skip(4).is_none() {
                            return None;
                        }
                    }
                },
                None => {
                    return None;
                },
            }
        }
        left -= 1;
    }
    Some(())
}

/// Reads past the operating parameters of a header that is not reduced.
fn skip_operating(reader: &mut Bits<'_>) -> (skipped: Option<()>)
    requires
        old(reader).valid(),
        old(reader).at == 5,
    ensures
        skipped is Some ==> final(reader).valid(),
        final(reader).data == old(reader).data,
        match skipped {
            Some(_) => operating_end(old(reader).data@, false) == Some(final(reader).at as int),
            None => operating_end(old(reader).data@, false) matches Some(end) ==> end
                > bits::bit_count(old(reader).data@),
        },
{
    let ghost header = reader.data@;
    proof {
        if timing_end(header, 5) is Some {
            let model = timing_end(header, 5)->Some_0;
            let delays = bits::bit_at(header, model + 1) == 1;
            let count = bits::bits_at(header, model + 2, 5) + 1;
            lemma_points_end_after(header, model + 7, count as nat, delays);
        }
    }
    let timing: u32 = match reader.bit() {
        Some(timing) => timing,
        None => {
            return None;
        },
    };
    if timing == 1 {
        if reader.skip(32 + 32).is_none() {
            return None;
        }
        let equal: u32 = match reader.bit() {
            Some(equal) => equal,
            None => {
                return None;
            },
        };
        if equal == 1 {
            if reader.uvlc().is_none() {
                return None;
            }
        }
    }
    assert(timing_end(header, 5) == Some(reader.at as int));
    // A sequence header that describes a decoder model keeps a layout this
    // reader does not walk, and its file states its colour in a `colr` box
    // instead. The flag is stated whether or not a timing record is, which is why
    // it is read outside the branch above.
    match reader.bit() {
        Some(1) => {
            return None;
        },
        Some(_) => {},
        None => {
            return None;
        },
    }
    let delays: u32 = match reader.bit() {
        Some(delays) => delays,
        None => {
            return None;
        },
    };
    let last: u32 = match reader.bits(5) {
        Some(last) => last,
        None => {
            return None;
        },
    };
    proof {
        bits::lemma_bits_bound(header, reader.at - 5, 5);
        vstd::arithmetic::power2::lemma2_to64();
    }
    skip_points(reader, last + 1, delays == 1)
}

/// Reads past the size of the frame and its identifiers.
fn skip_size(reader: &mut Bits<'_>, reduced: bool) -> (skipped: Option<()>)
    requires
        old(reader).valid(),
    ensures
        skipped is Some ==> final(reader).valid(),
        final(reader).data == old(reader).data,
        ({
            let end = size_end(old(reader).data@, old(reader).at as int, reduced);
            match skipped {
                Some(_) => final(reader).at == end,
                None => end > bits::bit_count(old(reader).data@),
            }
        }),
{
    let ghost header = reader.data@;
    let ghost start = reader.at as int;
    proof {
        bits::lemma_bits_bound(header, start, 4);
        bits::lemma_bits_bound(header, start + 4, 4);
        vstd::arithmetic::power2::lemma2_to64();
    }
    let width_bits: u32 = match reader.bits(4) {
        Some(count) => count + 1,
        None => {
            return None;
        },
    };
    let height_bits: u32 = match reader.bits(4) {
        Some(count) => count + 1,
        None => {
            return None;
        },
    };
    if reader.skip(width_bits + height_bits).is_none() {
        return None;
    }
    if !reduced {
        match reader.bit() {
            Some(ids) => {
                if ids == 1 {
                    if reader.skip(4 + 3).is_none() {
                        return None;
                    }
                }
            },
            None => {
                return None;
            },
        }
    }
    Some(())
}

/// Reads past the flags of the order hint and the screen content tools.
fn skip_tools(reader: &mut Bits<'_>) -> (skipped: Option<()>)
    requires
        old(reader).valid(),
    ensures
        skipped is Some ==> final(reader).valid(),
        final(reader).data == old(reader).data,
        ({
            let end = tools_end(old(reader).data@, old(reader).at as int);
            match skipped {
                Some(_) => final(reader).at == end,
                None => end > bits::bit_count(old(reader).data@),
            }
        }),
{
    let hinted: u32 = match reader.bit() {
        Some(hinted) => hinted,
        None => {
            return None;
        },
    };
    if hinted == 1 {
        if reader.skip(1 + 1).is_none() {
            return None;
        }
    }
    let chosen: u32 = match reader.bit() {
        Some(chosen) => chosen,
        None => {
            return None;
        },
    };
    let tools: u32 = if chosen == 1 {
        2
    } else {
        match reader.bit() {
            Some(tools) => tools,
            None => {
                return None;
            },
        }
    };
    if tools > 0 {
        match reader.bit() {
            Some(motion) => {
                if motion != 1 {
                    if reader.skip(1).is_none() {
                        return None;
                    }
                }
            },
            None => {
                return None;
            },
        }
    }
    if hinted == 1 {
        if reader.skip(3).is_none() {
            return None;
        }
    }
    Some(())
}

/// Reads the colour configuration, up to the point every branch has stated its
/// range.
fn read_color_config(reader: &mut Bits<'_>, profile: u32) -> (color: Option<Cicp>)
    requires
        old(reader).valid(),
        profile == bits::bits_at(old(reader).data@, 0, 3),
        color_config_at(old(reader).data@) == Some(old(reader).at as int),
    ensures
        color == header_color(old(reader).data@),
{
    let ghost header = reader.data@;
    let ghost start = reader.at as int;
    let high: u32 = match reader.bit() {
        Some(high) => high,
        None => {
            return None;
        },
    };
    if profile == 2 && high == 1 {
        if reader.bit().is_none() {
            return None;
        }
    }
    // Whether the item is monochrome, whose range is stated below as well.
    if profile != 1 {
        if reader.bit().is_none() {
            return None;
        }
    }
    assert(reader.at == described_at(header, start));
    let described: u32 = match reader.bit() {
        Some(described) => described,
        None => {
            return None;
        },
    };
    let ghost codes = described_at(header, start) + 1;
    let mut primaries: u8 = UNSPECIFIED;
    let mut transfer: u8 = UNSPECIFIED;
    let mut matrix: u8 = UNSPECIFIED;
    if described == 1 {
        proof {
            bits::lemma_bits_bound(header, codes, 8);
            bits::lemma_bits_bound(header, codes + 8, 8);
            bits::lemma_bits_bound(header, codes + 16, 8);
            vstd::arithmetic::power2::lemma2_to64();
        }
        primaries =
        match reader.bits(8) {
            Some(code) => code as u8,
            None => {
                return None;
            },
        };
        transfer =
        match reader.bits(8) {
            Some(code) => code as u8,
            None => {
                return None;
            },
        };
        matrix =
        match reader.bits(8) {
            Some(code) => code as u8,
            None => {
                return None;
            },
        };
    }
    let full_range: u32 = match reader.bit() {
        Some(full_range) => full_range,
        None => {
            return None;
        },
    };
    Some(Cicp { primaries, transfer, matrix, full_range: full_range == 1 })
}

/// The colour description the sequence header of a coded av1 item states.
///
/// Every avif that states its colour has to state it here, because this is where
/// the codes of the bitstream itself are written; the `colr` box is the
/// container's second telling of the same thing, and a lot of writers leave it
/// out. Only the fields up to the colour configuration are walked, because the
/// sequence header of a still image states nothing past it that this reads.
pub fn sequence_header_cicp(payload: &[u8]) -> (color: Option<Cicp>)
    ensures
        color == payload_color(payload@),
{
    let (start, end) = match sequence_header_payload(payload) {
        Some(range) => range,
        None => {
            return None;
        },
    };
    let header = slice_subrange(payload, start, end);
    let mut reader = Bits::new(header);
    let ghost total = bits::bit_count(header@);
    let ghost reduced_bit = bits::bit_at(header@, 4) == 1;
    proof {
        lemma_color_after(header@);
    }
    let profile: u32 = match reader.bits(3) {
        Some(profile) => profile,
        None => {
            return None;
        },
    };
    if reader.bit().is_none() {
        return None;
    }
    let reduced: bool = match reader.bit() {
        Some(reduced) => reduced == 1,
        None => {
            return None;
        },
    };
    if reduced {
        // A reduced still picture header states one operating point and no tier.
        if reader.skip(5).is_none() {
            return None;
        }
    } else {
        if skip_operating(&mut reader).is_none() {
            return None;
        }
    }
    assert(operating_end(header@, reduced) == Some(reader.at as int));
    if skip_size(&mut reader, reduced).is_none() {
        return None;
    }
    if reader.skip(1 + 1 + 1).is_none() {
        return None;
    }
    if !reduced {
        if reader.skip(1 + 1 + 1 + 1).is_none() {
            return None;
        }
        if skip_tools(&mut reader).is_none() {
            return None;
        }
    }
    if reader.skip(1 + 1 + 1).is_none() {
        return None;
    }
    read_color_config(&mut reader, profile)
}

proof fn lemma_color_after(header: Seq<u8>)
    ensures
        ({
            let reduced = bits::bit_at(header, 4) == 1;
            match color_config_at(header) {
                Some(config) => {
                    let size = operating_end(header, reduced)->Some_0;
                    let flags = size_end(header, size, reduced) + 3;
                    &&& 5 <= size <= size_end(header, size, reduced)
                    &&& flags <= config
                    &&& !reduced ==> flags + 4 <= tools_end(header, flags + 4) <= config
                    &&& header_color(header) is Some ==> config < bits::bit_count(header)
                },
                None => true,
            }
        }),
{
    let reduced = bits::bit_at(header, 4) == 1;
    if !reduced && timing_end(header, 5) is Some {
        let model = timing_end(header, 5)->Some_0;
        let delays = bits::bit_at(header, model + 1) == 1;
        let count = bits::bits_at(header, model + 2, 5) + 1;
        lemma_points_end_after(header, model + 7, count as nat, delays);
    }
    if operating_end(header, reduced) is Some {
        let size = operating_end(header, reduced)->Some_0;
        bits::lemma_bits_bound(header, size, 4);
        bits::lemma_bits_bound(header, size + 4, 4);
    }
}

/// A base 128 number ends with the first byte whose top bit is clear, and where there
/// is none there is no number.
pub proof fn a_base_128_number_ends_with_a_low_byte(data: Seq<u8>)
    ensures
        match leb128_length(data) {
            Some(length) => {
                &&& 0 < length <= data.len()
                &&& data[length - 1] < 0x80
                &&& forall|i: int| 0 <= i < length - 1 ==> #[trigger] data[i] >= 0x80
            },
            None => forall|i: int| 0 <= i < data.len() ==> #[trigger] data[i] >= 0x80,
        },
    decreases data.len(),
{
    if data.len() > 0 && data[0] >= 0x80 {
        let rest = data.skip(1);
        a_base_128_number_ends_with_a_low_byte(rest);
        assert forall|i: int| 0 < i < data.len() implies #[trigger] data[i] == rest[i - 1] by {}
    }
}

/// The first byte of a base 128 number is its lowest part, of seven bits, and what is
/// above it is the number of the bytes that follow.
pub proof fn the_first_byte_of_a_base_128_number_is_the_lowest(data: Seq<u8>, count: int)
    requires
        1 <= count <= data.len(),
    ensures
        leb128_value(data, count) == data[0] as int % 0x80 + 0x80 * leb128_value(
            data.skip(1),
            count - 1,
        ),
        leb128_value(data, 0) == 0,
    decreases count,
{
    vstd::arithmetic::power2::lemma2_to64();
    let rest = data.skip(1);
    if count > 1 {
        the_first_byte_of_a_base_128_number_is_the_lowest(data, count - 1);
        let part = data[count - 1] as int % 0x80;
        lemma_higher_part(part, count);
        assert(rest[count - 2] == data[count - 1]);
        assert(leb128_value(rest, count - 1) == leb128_value(rest, count - 2) + (rest[count
            - 2] as int % 0x80) * pow2((7 * (count - 2)) as nat));
    } else {
        assert(leb128_value(data, 0) == 0);
        assert(leb128_value(rest, 0) == 0);
        assert(leb128_value(data, 1) == leb128_value(data, 0) + (data[0] as int % 0x80) * pow2(0));
        assert((data[0] as int % 0x80) * 1 == data[0] as int % 0x80);
    }
}

proof fn lemma_higher_part(part: int, count: int)
    requires
        2 <= count,
    ensures
        part * pow2((7 * (count - 1)) as nat) == 0x80 * (part * pow2((7 * (count - 2)) as nat)),
{
    vstd::arithmetic::power2::lemma2_to64();
    vstd::arithmetic::power2::lemma_pow2_adds(7, (7 * (count - 2)) as nat);
    let low = pow2((7 * (count - 2)) as nat) as int;
    assert(part * (0x80 * low) == 0x80 * (part * low)) by (nonlinear_arith);
}

/// The units of a payload follow one another. The first byte of a unit says what it
/// is, whether a further header byte follows, and whether its length does; one without
/// a length is the last. The first of the kind of a sequence header is the one that is
/// found, and a unit that reaches past the payload ends the search.
pub proof fn the_first_sequence_header_of_a_payload_is_found(payload: Seq<u8>, at: int)
    requires
        0 <= at < payload.len(),
    ensures
        ({
            let kind = (payload[at] as int / 8) % 16;
            let body = at + (if (payload[at] as int / 4) % 2 == 1 {
                2int
            } else {
                1
            });
            let found = sequence_header_from(payload, at);
            if body > payload.len() {
                found is None
            } else if (payload[at] as int / 2) % 2 == 0 {
                found == (if kind == 1 {
                    Some((body, payload.len() as int))
                } else {
                    None
                })
            } else {
                match leb128_length(payload.skip(body)) {
                    None => found is None,
                    Some(length) => {
                        let start = body + length;
                        let stated = leb128_value(payload.skip(body), length as int);
                        stated <= usize::MAX ==> (if start + stated > payload.len() {
                            found is None
                        } else if kind == 1 {
                            found == Some((start, start + stated))
                        } else {
                            found == sequence_header_from(payload, start + stated)
                        })
                    },
                }
            }
        }),
        sequence_header_from(payload, payload.len() as int) is None,
{
    let body = at + 1 + payload[at] as int / 4 % 2;
    match leb128_length(payload.skip(body)) {
        Some(length) => {
            let stated = leb128_value(payload.skip(body), length as int);
            lemma_natural(payload.skip(body), length as int);
            if stated <= usize::MAX {
                vstd::arithmetic::div_mod::lemma_small_mod(
                    stated as nat,
                    (usize::MAX + 1) as nat,
                );
            }
        },
        None => {},
    }
}

proof fn lemma_natural(data: Seq<u8>, count: int)
    ensures
        0 <= leb128_value(data, count),
    decreases count,
{
    if count > 0 {
        lemma_natural(data, count - 1);
        let part = data[count - 1] as int % 0x80;
        let power = pow2((7 * (count - 1)) as nat) as int;
        assert(0 <= part * power) by (nonlinear_arith)
            requires
                0 <= part,
                0 <= power,
        ;
    }
}

/// Each part of a header is as long as its flags make it: a timing record of 64 bits
/// and one flag, with a code of variable length behind it where that is set, seventeen
/// bits of each operating point, one more above the seventh level and five more for a
/// delay, and seven bits of frame identifiers.
pub proof fn a_part_of_a_header_is_as_long_as_its_flags_say(header: Seq<u8>, at: int, count: nat)
    requires
        count > 0,
    ensures
        bits::bit_at(header, at) == 0 ==> timing_end(header, at) == Some(at + 1),
        bits::bit_at(header, at) == 1 && bits::bit_at(header, at + 65) == 0 ==> timing_end(
            header,
            at,
        ) == Some(at + 66),
        bits::bit_at(header, at) == 1 && bits::bit_at(header, at + 65) == 1 ==> {
            let zeros = bits::zeros_at(header, at + 66, 33);
            timing_end(header, at) == (if zeros <= 32 {
                Some(at + 67 + 2 * zeros)
            } else {
                None
            })
        },
        points_end(header, at, 0, true) == at,
        points_end(header, at, 0, false) == at,
        ({
            let deep = bits::bits_at(header, at + 12, 5) > 7;
            let behind = if deep {
                at + 18
            } else {
                at + 17
            };
            let delayed = if bits::bit_at(header, behind) == 1 {
                behind + 5
            } else {
                behind + 1
            };
            &&& points_end(header, at, count, false) == points_end(
                header,
                behind,
                (count - 1) as nat,
                false,
            )
            &&& points_end(header, at, count, true) == points_end(
                header,
                delayed,
                (count - 1) as nat,
                true,
            )
        }),
        size_end(header, at, true) == at + 10 + bits::bits_at(header, at, 4) + bits::bits_at(
            header,
            at + 4,
            4,
        ),
        size_end(header, at, false) == size_end(header, at, true) + (if bits::bit_at(
            header,
            size_end(header, at, true),
        ) == 1 {
            8int
        } else {
            1
        }),
{
}

/// The tools of a header: two more bits behind the flag of an order hint and three at
/// the end, and one or two bits for the screen content tools and for the motion they
/// bring, less where the choice is left open.
pub proof fn the_tools_of_a_header_are_as_long_as_its_flags_say(header: Seq<u8>, at: int)
    ensures
        ({
            let hinted = bits::bit_at(header, at) == 1;
            let tools = if hinted {
                at + 3
            } else {
                at + 1
            };
            let open = bits::bit_at(header, tools) == 1;
            let motion = if open {
                tools + 1
            } else {
                tools + 2
            };
            let used = open || bits::bit_at(header, tools + 1) == 1;
            let behind = if !used {
                motion
            } else if bits::bit_at(header, motion) == 1 {
                motion + 1
            } else {
                motion + 2
            };
            tools_end(header, at) == (if hinted {
                behind + 3
            } else {
                behind
            })
        }),
{
    assert forall|place: int| 0 <= #[trigger] bits::bit_at(header, place) <= 1 by {}
}

/// A reduced header has its colour at a place that only the bits of its size move:
/// behind the profile and two flags, five bits of a level, the size, and six flags.
pub proof fn a_reduced_header_has_its_colour_behind_its_size(header: Seq<u8>)
    requires
        bits::bit_at(header, 4) == 1,
    ensures
        color_config_at(header) == Some(
            26 + bits::bits_at(header, 10, 4) + bits::bits_at(header, 14, 4),
        ),
{
}

/// A longer header has its colour behind its operating points, its size, seven flags,
/// its tools and three flags more. One that describes a decoder model has none that is
/// read.
pub proof fn a_longer_header_has_its_colour_behind_its_tools(header: Seq<u8>)
    requires
        bits::bit_at(header, 4) == 0,
    ensures
        match timing_end(header, 5) {
            None => color_config_at(header) is None,
            Some(model) => if bits::bit_at(header, model) == 1 {
                color_config_at(header) is None
            } else {
                let delays = bits::bit_at(header, model + 1) == 1;
                let count = (bits::bits_at(header, model + 2, 5) + 1) as nat;
                let size = points_end(header, model + 7, count, delays);
                color_config_at(header) == Some(
                    tools_end(header, size_end(header, size, false) + 7) + 3,
                )
            },
        },
{
}

/// The colour of a header, where it has one: three bytes of codes behind the flag that
/// announces them, or none of the three, and the range behind that. The flag follows
/// one bit of the depth, one more of a deep picture of the second profile, and one for
/// monochrome in every profile but the first.
pub proof fn a_header_states_its_codes_behind_their_flag(header: Seq<u8>, at: int)
    requires
        color_config_at(header) == Some(at),
    ensures
        ({
            let profile = bits::bits_at(header, 0, 3);
            let flag = at + (if profile == 1 {
                1int
            } else if profile == 2 && bits::bit_at(header, at) == 1 {
                3
            } else {
                2
            });
            let described = bits::bit_at(header, flag) == 1;
            let range = if described {
                flag + 25
            } else {
                flag + 1
            };
            match header_color(header) {
                Some(stated) => {
                    &&& range < 8 * header.len()
                    &&& described ==> stated.primaries == bits::bits_at(header, flag + 1, 8) as u8
                    &&& described ==> stated.transfer == bits::bits_at(header, flag + 9, 8) as u8
                    &&& described ==> stated.matrix == bits::bits_at(header, flag + 17, 8) as u8
                    &&& !described ==> stated.primaries == 2 && stated.transfer == 2
                        && stated.matrix == 2
                    &&& stated.full_range == (bits::bit_at(header, range) == 1)
                },
                None => range >= 8 * header.len(),
            }
        }),
{
}

} // verus!
