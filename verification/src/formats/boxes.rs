//! The boxes of a container, as ISO base media files and their relatives lay
//! them out.

use vstd::prelude::*;

use crate::bytes;
use crate::bytes::{get_be32, get_be64};

verus! {

/// One box: its four character kind as a big endian number, and where its
/// payload starts and ends.
#[derive(Clone, Copy, Debug, PartialEq, Eq, Structural)]
pub struct BoxSpan {
    pub kind: u32,
    pub start: usize,
    pub end: usize,
}

/// Bytes of the header of the box at `at`: eight, and eight more where a 64 bit
/// size follows the kind.
pub open spec fn box_header(data: Seq<u8>, at: int) -> int {
    if bytes::be32(data, at) == 1 {
        16
    } else {
        8
    }
}

/// Bytes of the whole box at `at` of a container that ends at `end`: a size of
/// zero runs to the end of the container.
pub open spec fn box_size(data: Seq<u8>, at: int, end: int) -> int {
    let stated = bytes::be32(data, at);
    if stated == 1 {
        bytes::be64(data, at + 8)
    } else if stated == 0 {
        end - at
    } else {
        stated
    }
}

/// Whether the box at `at` lies in a container that ends at `end`.
pub open spec fn box_fits(data: Seq<u8>, at: int, end: int) -> bool {
    let size = box_size(data, at, end);
    &&& at + box_header(data, at) <= end
    &&& box_header(data, at) <= size
    &&& at + size <= end
}

/// The boxes of a container from `at` up to `end`, in order, unless one of them
/// does not fit. What is too short for a header ends the walk.
pub open spec fn boxes_from(data: Seq<u8>, at: int, end: int) -> Option<Seq<BoxSpan>>
    decreases end - at,
{
    if at + 8 > end {
        Some(Seq::empty())
    } else if !box_fits(data, at, end) {
        None
    } else {
        let size = box_size(data, at, end);
        match boxes_from(data, at + size, end) {
            Some(rest) => Some(
                seq![
                    BoxSpan {
                        kind: bytes::be32(data, at + 4) as u32,
                        start: (at + box_header(data, at)) as usize,
                        end: (at + size) as usize,
                    },
                ] + rest,
            ),
            None => None,
        }
    }
}

/// The payload of a box.
pub open spec fn payload(data: Seq<u8>, span: BoxSpan) -> Seq<u8> {
    data.subrange(span.start as int, span.end as int)
}

/// The boxes of the container that `data` holds from `start` up to `end`, in
/// order.
///
/// A box whose size is zero runs to the end of its container, and one whose size
/// is one carries a 64 bit size after its kind. A malformed box ends the walk,
/// which leaves its file to the decoder rather than guessing.
pub fn child_boxes(data: &[u8], start: usize, end: usize) -> (boxes: Option<Vec<BoxSpan>>)
    requires
        start <= end <= data@.len(),
    ensures
        match boxes {
            Some(boxes) => {
                &&& boxes_from(data@, start as int, end as int) == Some(boxes@)
                &&& forall|i: int|
                    0 <= i < boxes@.len() ==> start <= (#[trigger] boxes@[i]).start
                        <= boxes@[i].end <= end
            },
            None => boxes_from(data@, start as int, end as int) is None,
        },
{
    let len: usize = data.len();
    let mut boxes: Vec<BoxSpan> = Vec::new();
    let mut at: usize = start;
    let ghost whole = boxes_from(data@, start as int, end as int);
    proof {
        if whole is Some {
            assert(Seq::<BoxSpan>::empty() + whole->Some_0 =~= whole->Some_0);
        }
    }
    while end - at >= 8
        invariant
            start <= at <= end <= data@.len(),
            len == data@.len(),
            whole == boxes_from(data@, start as int, end as int),
            match boxes_from(data@, at as int, end as int) {
                Some(rest) => whole == Some(boxes@ + rest),
                None => whole is None,
            },
            forall|i: int|
                0 <= i < boxes@.len() ==> start <= (#[trigger] boxes@[i]).start <= boxes@[i].end
                    <= end,
        decreases end - at,
    {
        let stated: u32 = match get_be32(data, at) {
            Some(stated) => stated,
            None => {
                return None;
            },
        };
        let kind: u32 = match get_be32(data, at + 4) {
            Some(kind) => kind,
            None => {
                return None;
            },
        };
        let header: usize = if stated == 1 {
            16
        } else {
            8
        };
        if end - at < header {
            return None;
        }
        let size: u64 = if stated == 1 {
            match get_be64(data, at + 8) {
                Some(size) => size,
                None => {
                    return None;
                },
            }
        } else if stated == 0 {
            (end - at) as u64
        } else {
            stated as u64
        };
        if size < header as u64 || size > (end - at) as u64 {
            return None;
        }
        let size: usize = size as usize;
        let ghost held = boxes@;
        let ghost rest = boxes_from(data@, at + size, end as int);
        let span = BoxSpan { kind, start: at + header, end: at + size };
        boxes.push(span);
        proof {
            if rest is Some {
                assert(held + (seq![span] + rest->Some_0) =~= boxes@ + rest->Some_0);
            }
        }
        at = at + size;
    }
    assert(boxes@ + Seq::<BoxSpan>::empty() =~= boxes@);
    Some(boxes)
}

/// The first box of a kind.
pub open spec fn first_of(boxes: Seq<BoxSpan>, kind: u32) -> Option<BoxSpan>
    decreases boxes.len(),
{
    if boxes.len() == 0 {
        None
    } else if boxes[0].kind == kind {
        Some(boxes[0])
    } else {
        first_of(boxes.skip(1), kind)
    }
}

/// The first box of a kind in the container that `data` holds from `start` up to
/// `end`.
pub open spec fn child_of(data: Seq<u8>, start: int, end: int, kind: u32) -> Option<BoxSpan> {
    match boxes_from(data, start, end) {
        Some(boxes) => first_of(boxes, kind),
        None => None,
    }
}

/// The first box of a kind in the container that `data` holds from `start` up to
/// `end`.
pub fn child(data: &[u8], start: usize, end: usize, kind: u32) -> (found: Option<BoxSpan>)
    requires
        start <= end <= data@.len(),
    ensures
        found == child_of(data@, start as int, end as int, kind),
        match found {
            Some(span) => start <= span.start <= span.end <= end,
            None => true,
        },
{
    let boxes = match child_boxes(data, start, end) {
        Some(boxes) => boxes,
        None => {
            return None;
        },
    };
    let ghost whole = boxes@;
    assert(whole.skip(0) =~= whole);
    let mut at: usize = 0;
    while at < boxes.len()
        invariant
            at <= boxes.len(),
            whole == boxes@,
            forall|i: int|
                0 <= i < boxes@.len() ==> start <= (#[trigger] boxes@[i]).start <= boxes@[i].end
                    <= end,
            boxes_from(data@, start as int, end as int) == Some(whole),
            first_of(whole, kind) == first_of(whole.skip(at as int), kind),
        decreases boxes.len() - at,
    {
        assert(whole.skip(at as int)[0] == whole[at as int]);
        assert(whole.skip(at as int).skip(1) =~= whole.skip(at + 1));
        if boxes[at].kind == kind {
            return Some(boxes[at]);
        }
        at += 1;
    }
    None
}

/// The kind `ftyp`.
pub const FTYP: u32 = 0x6674_7970;

/// The kind `meta`.
pub const META: u32 = 0x6d65_7461;

/// The kind `mdat`.
pub const MDAT: u32 = 0x6d64_6174;

/// What to do with the box that starts a run of leading boxes.
#[derive(Clone, Copy, Debug, PartialEq, Eq, Structural)]
pub enum LeadingBox {
    /// The box holds the media data, so the leading boxes end before it.
    Ends,
    /// The box is kept, and this many bytes follow the ones that were read.
    Keep(usize),
    /// The box is malformed or too large to keep.
    Refuse,
}

/// What is done with a leading box of which the header `header` was read, `kept`
/// bytes into the file: the media data box ends the run, and another is kept if
/// it ends within `limit` bytes.
pub open spec fn leading_box_of(header: Seq<u8>, kept: int, limit: int) -> LeadingBox {
    let size = if bytes::be32(header, 0) == 1 {
        bytes::be64(header, 8)
    } else {
        bytes::be32(header, 0)
    };
    if bytes::be32(header, 4) == MDAT {
        LeadingBox::Ends
    } else if size < header.len() || kept + size > limit {
        LeadingBox::Refuse
    } else {
        LeadingBox::Keep((size - header.len()) as usize)
    }
}

/// Bytes of the header of a leading box that are read before it is decided on:
/// the 64 bit size of a box that has one belongs to them, unless the box is the
/// media data one.
pub open spec fn leading_header(first: Seq<u8>) -> int {
    if bytes::be32(first, 4) == MDAT {
        8
    } else {
        box_header(first, 0)
    }
}

/// How many bytes the header of a leading box has, from its first eight.
pub fn leading_header_bytes(first: &[u8]) -> (count: usize)
    requires
        first@.len() == 8,
    ensures
        count == leading_header(first@),
{
    match (get_be32(first, 0), get_be32(first, 4)) {
        (_, Some(MDAT)) => 8,
        (Some(1), _) => 16,
        _ => 8,
    }
}

/// Decides what is done with a leading box whose header was read.
///
/// The boxes that are kept are a prefix of the file, which is what lets a range
/// into them be read from the file as well.
pub fn leading_box(header: &[u8], kept: usize, limit: usize) -> (action: LeadingBox)
    requires
        header@.len() == 8 || header@.len() == 16,
        header@.len() == leading_header(header@),
        kept <= limit,
    ensures
        action == leading_box_of(header@, kept as int, limit as int),
{
    let stated: u32 = match get_be32(header, 0) {
        Some(stated) => stated,
        None => 0,
    };
    let kind: u32 = match get_be32(header, 4) {
        Some(kind) => kind,
        None => 0,
    };
    if kind == MDAT {
        return LeadingBox::Ends;
    }
    let size: u64 = if stated == 1 {
        match get_be64(header, 8) {
            Some(size) => size,
            None => 0,
        }
    } else {
        stated as u64
    };
    if size < header.len() as u64 || size > (limit - kept) as u64 {
        return LeadingBox::Refuse;
    }
    LeadingBox::Keep(size as usize - header.len())
}

/// The boxes of a container follow one another without a gap: the first starts where
/// the container does, each next one where the one before it ends, and what is left
/// at the end is too short for a header. A box states its length and its kind in its
/// first eight bytes, or its length in eight more, or runs to the end.
pub proof fn the_boxes_of_a_container_follow_one_another(
    data: Seq<u8>,
    at: int,
    end: int,
    index: int,
)
    requires
        0 <= at,
        end <= data.len() <= usize::MAX,
        boxes_from(data, at, end) is Some,
        0 <= index < boxes_from(data, at, end).unwrap().len(),
    ensures
        ({
            let boxes = boxes_from(data, at, end).unwrap();
            let start = if index == 0 {
                at
            } else {
                boxes[index - 1].end as int
            };
            let span = boxes[index];
            &&& span.kind == bytes::be32(data, start + 4)
            &&& span.start <= span.end <= end
            &&& if bytes::be32(data, start) == 0 {
                span.start == start + 8 && span.end == end
            } else if bytes::be32(data, start) == 1 {
                span.start == start + 16 && span.end == start + bytes::be64(data, start + 8)
            } else {
                span.start == start + 8 && span.end == start + bytes::be32(data, start)
            }
            &&& index == boxes.len() - 1 ==> end < span.end + 8
        }),
    decreases end - at,
{
    let size = box_size(data, at, end);
    let rest = boxes_from(data, at + size, end).unwrap();
    let boxes = boxes_from(data, at, end).unwrap();
    assert(boxes.len() == rest.len() + 1);
    assert forall|i: int| 0 < i < boxes.len() implies #[trigger] boxes[i] == rest[i - 1] by {}
    if index > 0 {
        the_boxes_of_a_container_follow_one_another(data, at + size, end, index - 1);
        if index > 1 {
            assert(boxes[index - 1] == rest[index - 2]);
        }
    } else if rest.len() == 0 {
        assert(at + size + 8 > end);
    }
}

/// A container can be read just when its first box fits into it and so do all the
/// others, and one without room for a header holds none.
pub proof fn a_container_is_read_to_its_end(data: Seq<u8>, at: int, end: int)
    requires
        0 <= at,
        end <= data.len() <= usize::MAX,
    ensures
        end < at + 8 ==> boxes_from(data, at, end) == Some(Seq::<BoxSpan>::empty()),
        end >= at + 8 ==> ({
            let header: int = if bytes::be32(data, at) == 1 {
                16
            } else {
                8
            };
            let next = if bytes::be32(data, at) == 0 {
                end
            } else if bytes::be32(data, at) == 1 {
                at + bytes::be64(data, at + 8)
            } else {
                at + bytes::be32(data, at)
            };
            (boxes_from(data, at, end) is Some) == (at + header <= next <= end && boxes_from(
                data,
                next,
                end,
            ) is Some)
        }),
{
}

proof fn lemma_first(boxes: Seq<BoxSpan>, kind: u32)
    ensures
        match first_of(boxes, kind) {
            Some(found) => exists|i: int|
                0 <= i < boxes.len() && #[trigger] boxes[i] == found && found.kind == kind
                    && forall|j: int| 0 <= j < i ==> (#[trigger] boxes[j]).kind != kind,
            None => forall|i: int| 0 <= i < boxes.len() ==> (#[trigger] boxes[i]).kind != kind,
        },
    decreases boxes.len(),
{
    if boxes.len() > 0 {
        let rest = boxes.skip(1);
        if boxes[0].kind == kind {
            assert(boxes[0] == first_of(boxes, kind).unwrap());
        } else {
            lemma_first(rest, kind);
            match first_of(rest, kind) {
                Some(found) => {
                    let i = choose|i: int|
                        0 <= i < rest.len() && #[trigger] rest[i] == found && found.kind == kind
                            && forall|j: int| 0 <= j < i ==> (#[trigger] rest[j]).kind != kind;
                    assert(boxes[i + 1] == found);
                    assert forall|j: int| 0 <= j < i + 1 implies (#[trigger] boxes[j]).kind
                        != kind by {
                        if j > 0 {
                            assert(rest[j - 1] == boxes[j]);
                        }
                    }
                },
                None => {
                    assert forall|i: int| 0 <= i < boxes.len() implies (#[trigger] boxes[i]).kind
                        != kind by {
                        if i > 0 {
                            assert(rest[i - 1] == boxes[i]);
                        }
                    }
                },
            }
        }
    }
}

/// The box of a kind is the first of that kind: no box before it has the kind, and
/// where none is found the container has none, or cannot be read.
pub proof fn a_child_is_the_first_of_its_kind(data: Seq<u8>, start: int, end: int, kind: u32)
    ensures
        match (child_of(data, start, end, kind), boxes_from(data, start, end)) {
            (Some(found), Some(boxes)) => exists|i: int|
                0 <= i < boxes.len() && #[trigger] boxes[i] == found && found.kind == kind
                    && forall|j: int| 0 <= j < i ==> (#[trigger] boxes[j]).kind != kind,
            (None, Some(boxes)) => forall|i: int|
                0 <= i < boxes.len() ==> (#[trigger] boxes[i]).kind != kind,
            (None, None) => true,
            _ => false,
        },
{
    match boxes_from(data, start, end) {
        Some(boxes) => lemma_first(boxes, kind),
        None => {},
    }
}

/// Of a leading box as much is kept as its header says, less the header itself, as
/// long as the whole of it is within the limit. The media data ends the run before
/// its length matters.
pub proof fn a_leading_box_is_kept_whole(header: Seq<u8>, kept: int, limit: int)
    requires
        header.len() == 8 || header.len() == 16,
        0 <= kept <= limit <= usize::MAX,
    ensures
        ({
            let size = if bytes::be32(header, 0) == 1 {
                bytes::be64(header, 8)
            } else {
                bytes::be32(header, 0)
            };
            let media = header[4] == 0x6d && header[5] == 0x64 && header[6] == 0x61 && header[7]
                == 0x74;
            match leading_box_of(header, kept, limit) {
                LeadingBox::Ends => media,
                LeadingBox::Refuse => !media && (size < header.len() || kept + size > limit),
                LeadingBox::Keep(rest) => !media && header.len() + rest == size && kept + size
                    <= limit,
            }
        }),
        leading_header(header) == (if bytes::be32(header, 0) == 1 && !(header[4] == 0x6d
            && header[5] == 0x64 && header[6] == 0x61 && header[7] == 0x74) {
            16int
        } else {
            8
        }),
{
}

} // verus!
