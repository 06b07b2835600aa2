//! The colour a png states about itself.
//!
//! A `cICP` chunk is where a png states its own colour in the same H.273 code
//! points the other containers use. The chunk is a handful of bytes in the
//! metadata at the front of the file, so it is read from the file itself rather
//! than by decoding the picture.

use vstd::prelude::*;

use vstd::slice::slice_subrange;

use crate::bytes;
use crate::bytes::get_be32;
use crate::color::Cicp;
use crate::text;
use crate::text::path_has_extension;

verus! {

/// The first half of the bytes every png starts with, which is also how a file
/// that is not one is declined without reading further.
pub const SIGNATURE_HIGH: u32 = 0x8950_4e47;

/// The second half of the bytes every png starts with.
pub const SIGNATURE_LOW: u32 = 0x0d0a_1a0a;

/// Bytes of the checksum that follows every chunk payload.
pub const CRC_LENGTH: usize = 4;

/// How far into a file the chunks are read. Every writer that writes a `cICP`
/// writes it among the chunks that come before the image data, and this is far
/// past the metadata any real file holds.
pub const CHUNK_LIMIT: usize = 1024 * 1024;

/// Bytes of a file that hold everything the walk can read: the chunks up to the
/// limit and the header of one more.
pub const PREFIX_LENGTH: usize = 1024 * 1024 + 8;

/// The kind `IDAT`.
pub const IDAT: u32 = 0x4944_4154;

/// The kind `IEND`.
pub const IEND: u32 = 0x4945_4e44;

/// The kind `cICP`.
pub const CICP: u32 = 0x6349_4350;

/// The colour a `cICP` payload states: three code points and a flag.
pub open spec fn chunk_color(payload: Seq<u8>) -> Option<Cicp> {
    if payload.len() < 4 {
        None
    } else {
        Some(
            Cicp {
                primaries: payload[0],
                transfer: payload[1],
                matrix: payload[2],
                full_range: payload[3] != 0,
            },
        )
    }
}

/// What a `cICP` chunk among the chunks from `at` on states, if it comes before
/// the image data, and nothing is cut short or too far into the file before it.
pub open spec fn color_from(data: Seq<u8>, at: int) -> Option<Cicp>
    decreases data.len() - at,
{
    if at + 8 > data.len() {
        None
    } else {
        let kind = bytes::be32(data, at + 4);
        let end = at + 8 + bytes::be32(data, at) + CRC_LENGTH;
        if kind == IDAT || kind == IEND || end > CHUNK_LIMIT || end > data.len() {
            None
        } else if kind == CICP {
            chunk_color(data.subrange(at + 8, end - CRC_LENGTH))
        } else {
            color_from(data, end)
        }
    }
}

/// The colour a png states with a `cICP` chunk, if `data` is one and has one.
pub open spec fn png_color(data: Seq<u8>) -> Option<Cicp> {
    if data.len() < 8 || bytes::be32(data, 0) != SIGNATURE_HIGH || bytes::be32(data, 4)
        != SIGNATURE_LOW {
        None
    } else {
        color_from(data, 8)
    }
}

/// The colour description a `cICP` chunk payload states.
///
/// The payload is four bytes: the primaries, transfer and matrix code points,
/// then the video full range flag. The flag is a whole byte that conforming
/// files write as `0` or `1`, so it is read as a flag rather than as the top bit
/// of a bit field the way an `nclx` box stores it. Any nonzero byte is the full
/// range, which reads a file that carried the `nclx` convention into this chunk
/// as the writer meant it.
pub fn cicp_chunk(payload: &[u8]) -> (color: Option<Cicp>)
    ensures
        color == chunk_color(payload@),
{
    if payload.len() < 4 {
        return None;
    }
    Some(
        Cicp {
            primaries: payload[0],
            transfer: payload[1],
            matrix: payload[2],
            full_range: payload[3] != 0,
        },
    )
}

/// Walks the chunks until the image data starts, and answers what a `cICP` among
/// them states.
///
/// A `cICP` written after the image data is not what a png states about its
/// samples, so the walk stops there. A truncated or malformed chunk ends it too,
/// which leaves that file with the properties its decoded color type alone
/// describes.
pub fn cicp_from(data: &[u8]) -> (color: Option<Cicp>)
    ensures
        color == png_color(data@),
{
    let len: usize = data.len();
    match (get_be32(data, 0), get_be32(data, 4)) {
        (Some(SIGNATURE_HIGH), Some(SIGNATURE_LOW)) => {},
        _ => {
            return None;
        },
    }
    let mut at: usize = 8;
    while at <= len && len - at >= 8
        invariant
            len == data@.len(),
            at <= len,
            png_color(data@) == color_from(data@, at as int),
        decreases len - at,
    {
        let (length, kind) = match (get_be32(data, at), get_be32(data, at + 4)) {
            (Some(length), Some(kind)) => (length, kind),
            _ => {
                return None;
            },
        };
        if kind == IDAT || kind == IEND {
            return None;
        }
        let whole: u64 = 8 + length as u64 + CRC_LENGTH as u64;
        if whole > (len - at) as u64 || at as u64 > CHUNK_LIMIT as u64 || whole
            > CHUNK_LIMIT as u64 - at as u64 {
            return None;
        }
        let end: usize = at + whole as usize;
        if kind == CICP {
            return cicp_chunk(slice_subrange(data, at + 8, end - CRC_LENGTH));
        }
        at = end;
    }
    None
}

/// Whether a path has the extension of a png.
pub fn has_png_extension(path: &str) -> (png: bool)
    ensures
        text::plain_path(path@) ==> png == text::has_extension(path@, "png"@),
{
    proof {
        reveal_strlit("png");
    }
    path_has_extension(path, "png")
}

/// The colour description a png states with a `cICP` chunk, or `None` when it
/// has none and when it is not a png at all. `data` is the front of the file.
pub fn cicp(path: &str, data: &[u8]) -> (color: Option<Cicp>)
    ensures
        color is None || color == png_color(data@),
        text::plain_path(path@) ==> color == (if text::has_extension(path@, "png"@) {
            png_color(data@)
        } else {
            None
        }),
{
    if !has_png_extension(path) {
        return None;
    }
    cicp_from(data)
}

proof fn lemma_prefix_from(data: Seq<u8>, length: int, at: int)
    requires
        PREFIX_LENGTH <= length <= data.len(),
        0 <= at <= CHUNK_LIMIT,
    ensures
        color_from(data.take(length), at) == color_from(data, at),
    decreases data.len() - at,
{
    let prefix = data.take(length);
    if at + 8 <= prefix.len() {
        assert(bytes::be32(prefix, at) == bytes::be32(data, at));
        assert(bytes::be32(prefix, at + 4) == bytes::be32(data, at + 4));
        let end = at + 8 + bytes::be32(data, at) + CRC_LENGTH;
        if end <= CHUNK_LIMIT {
            assert(prefix.subrange(at + 8, end - CRC_LENGTH) =~= data.subrange(
                at + 8,
                end - CRC_LENGTH,
            ));
            lemma_prefix_from(data, length, end);
        }
    }
}

/// The front of a file states what the whole file does, so no more of it has to
/// be read.
pub proof fn the_front_of_a_file_states_its_colour(data: Seq<u8>, length: int)
    requires
        PREFIX_LENGTH <= length <= data.len(),
    ensures
        png_color(data.take(length)) == png_color(data),
{
    let prefix = data.take(length);
    assert(bytes::be32(prefix, 0) == bytes::be32(data, 0));
    assert(bytes::be32(prefix, 4) == bytes::be32(data, 4));
    lemma_prefix_from(data, length, 8);
}

/// Whether the walk over the chunks from `at` on comes to the chunk at `to`.
pub open spec fn comes_to(data: Seq<u8>, at: int, to: int) -> bool
    decreases data.len() - at,
{
    if at == to {
        true
    } else if at < 0 || at > to || at + 8 > data.len() {
        false
    } else {
        let kind = bytes::be32(data, at + 4);
        let end = at + 8 + bytes::be32(data, at) + CRC_LENGTH;
        &&& kind != IDAT
        &&& kind != IEND
        &&& kind != CICP
        &&& end <= CHUNK_LIMIT
        &&& end <= data.len()
        &&& comes_to(data, end, to)
    }
}

proof fn lemma_image_data_ends_the_walk(data: Seq<u8>, at: int, to: int)
    requires
        0 <= at,
        comes_to(data, at, to),
        to + 8 <= data.len(),
        bytes::be32(data, to + 4) == IDAT,
    ensures
        color_from(data, at) is None,
    decreases data.len() - at,
{
    if at != to {
        lemma_image_data_ends_the_walk(
            data,
            at + 8 + bytes::be32(data, at) + CRC_LENGTH,
            to,
        );
    }
}

/// A png whose image data starts before any `cICP` chunk states no colour,
/// whatever follows.
pub proof fn a_colour_after_the_image_data_is_not_stated(data: Seq<u8>, start: int)
    requires
        comes_to(data, 8, start),
        start + 8 <= data.len(),
        bytes::be32(data, start + 4) == IDAT,
    ensures
        png_color(data) is None,
{
    lemma_image_data_ends_the_walk(data, 8, start);
}

/// The first `cICP` chunk before the image data states the colour with its first
/// four bytes, however many other chunks come before it: the primaries, the
/// transfer and the matrix, and a flag that any value but zero sets.
pub proof fn a_colour_chunk_states_its_four_bytes(data: Seq<u8>, start: int)
    requires
        data.len() >= 8,
        data.take(8) == seq![0x89u8, 0x50, 0x4e, 0x47, 0x0d, 0x0a, 0x1a, 0x0a],
        comes_to(data, 8, start),
        start + 12 + bytes::be32(data, start) <= data.len(),
        start + 12 + bytes::be32(data, start) <= 0x10_0000,
        data.subrange(start + 4, start + 8) == seq![0x63u8, 0x49, 0x43, 0x50],
    ensures
        bytes::be32(data, start) < 4 ==> png_color(data) is None,
        bytes::be32(data, start) >= 4 ==> (png_color(data) matches Some(stated)
            && stated.primaries == data[start + 8] && stated.transfer == data[start + 9]
            && stated.matrix == data[start + 10] && stated.full_range == (data[start + 11] != 0)),
{
    let first = data.take(8);
    assert(bytes::be32(first, 0) == bytes::be32(data, 0));
    assert(bytes::be32(first, 4) == bytes::be32(data, 4));
    let kind = data.subrange(start + 4, start + 8);
    assert(bytes::be32(kind, 0) == bytes::be32(data, start + 4));
    lemma_walk_comes_to(data, 8, start);
}

proof fn lemma_walk_comes_to(data: Seq<u8>, at: int, to: int)
    requires
        comes_to(data, at, to),
    ensures
        color_from(data, at) == color_from(data, to),
    decreases data.len() - at,
{
    if at != to {
        lemma_walk_comes_to(data, at + 8 + bytes::be32(data, at) + CRC_LENGTH, to);
    }
}

/// A chunk of any kind but three is passed over, its length and its checksum with
/// it, and a walk never passes the image data, the end of the file, or a chunk that
/// reaches too far.
pub proof fn a_walk_passes_over_a_chunk_and_its_checksum(data: Seq<u8>, at: int, to: int)
    requires
        8 <= at,
        at + 8 <= data.len(),
        at < to,
    ensures
        comes_to(data, at, to) == ({
            let next = at + 12 + bytes::be32(data, at);
            let kind = data.subrange(at + 4, at + 8);
            &&& kind != seq![0x49u8, 0x44, 0x41, 0x54]
            &&& kind != seq![0x49u8, 0x45, 0x4e, 0x44]
            &&& kind != seq![0x63u8, 0x49, 0x43, 0x50]
            &&& next <= data.len()
            &&& next <= 0x10_0000
            &&& comes_to(data, next, to)
        }),
{
    let kind = data.subrange(at + 4, at + 8);
    assert(bytes::be32(kind, 0) == bytes::be32(data, at + 4));
    lemma_letters(kind, seq![0x49u8, 0x44, 0x41, 0x54]);
    lemma_letters(kind, seq![0x49u8, 0x45, 0x4e, 0x44]);
    lemma_letters(kind, seq![0x63u8, 0x49, 0x43, 0x50]);
}

proof fn lemma_letters(kind: Seq<u8>, letters: Seq<u8>)
    requires
        kind.len() == 4,
        letters.len() == 4,
    ensures
        (kind == letters) == (bytes::be32(kind, 0) == bytes::be32(letters, 0)),
{
    if bytes::be32(kind, 0) == bytes::be32(letters, 0) {
        assert(kind =~= letters);
    }
}

/// What is not a png states no colour.
pub proof fn only_a_png_states_a_colour(data: Seq<u8>)
    requires
        png_color(data) is Some,
    ensures
        data.len() >= 8,
        data.take(8) == seq![0x89u8, 0x50, 0x4e, 0x47, 0x0d, 0x0a, 0x1a, 0x0a],
{
    assert(data.take(8) =~= seq![0x89u8, 0x50, 0x4e, 0x47, 0x0d, 0x0a, 0x1a, 0x0a]);
}

} // verus!
