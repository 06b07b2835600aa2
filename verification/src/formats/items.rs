//! The item boxes of a heif family container.

use vstd::prelude::*;

use vstd::slice::slice_subrange;

use crate::bytes;
use crate::bytes::{get_be16, get_be32, get_sized, get_u8};

use crate::formats::boxes;
use crate::formats::boxes::{child_boxes, BoxSpan};

verus! {

/// The kind `iprp`.
pub const IPRP: u32 = 0x6970_7270;

/// The kind `ipco`.
pub const IPCO: u32 = 0x6970_636f;

/// The kind `ipma`.
pub const IPMA: u32 = 0x6970_6d61;

/// The kind `idat`.
pub const IDAT: u32 = 0x6964_6174;

/// The kind `pitm`.
pub const PITM: u32 = 0x7069_746d;

/// The kind `iloc`.
pub const ILOC: u32 = 0x696c_6f63;

/// The kind `iref`.
pub const IREF: u32 = 0x6972_6566;

/// The kind `auxl`.
pub const AUXL: u32 = 0x6175_786c;

/// The kind `dimg`.
pub const DIMG: u32 = 0x6469_6d67;

/// The kind `auxC`.
pub const AUXC: u32 = 0x6175_7843;

/// The property numbers of every item, as `ipma` associates them.
pub type Associations = Vec<(u32, Vec<u32>)>;

/// The extents of every item, as `iloc` states them: the item, its construction
/// method, and the offset and length of each of its extents.
pub type Extents = Vec<(u32, u8, Vec<(usize, usize)>)>;

/// The references of a container, as `iref` states them: the kind of the
/// reference, the item it is from, and the items it is to.
pub type References = Vec<(u32, u32, Vec<u32>)>;

/// What a list of associations holds.
pub open spec fn associations_view(list: Seq<(u32, Vec<u32>)>) -> Seq<(u32, Seq<u32>)> {
    Seq::new(list.len(), |i: int| (list[i].0, list[i].1@))
}

/// What a list of extents holds.
pub open spec fn extents_view(list: Seq<(u32, u8, Vec<(usize, usize)>)>) -> Seq<
    (u32, u8, Seq<(usize, usize)>),
> {
    Seq::new(list.len(), |i: int| (list[i].0, list[i].1, list[i].2@))
}

/// What a list of references holds.
pub open spec fn references_view(list: Seq<(u32, u32, Vec<u32>)>) -> Seq<(u32, u32, Seq<u32>)> {
    Seq::new(list.len(), |i: int| (list[i].0, list[i].1, list[i].2@))
}

/// The item number at `at`, which is 16 bits wide where `narrow`.
pub open spec fn item_at(payload: Seq<u8>, at: int, narrow: bool) -> u32 {
    if narrow {
        bytes::be16(payload, at) as u32
    } else {
        bytes::be32(payload, at) as u32
    }
}

/// Bytes of an item number.
pub open spec fn item_bytes(narrow: bool) -> int {
    if narrow {
        2
    } else {
        4
    }
}

/// Reads an item number.
fn read_item(payload: &[u8], at: usize, narrow: bool) -> (item: Option<u32>)
    ensures
        match item {
            Some(item) => {
                &&& at + item_bytes(narrow) <= payload@.len()
                &&& item == item_at(payload@, at as int, narrow)
            },
            None => at + item_bytes(narrow) > payload@.len(),
        },
{
    if narrow {
        match get_be16(payload, at) {
            Some(item) => Some(item as u32),
            None => None,
        }
    } else {
        get_be32(payload, at)
    }
}

/// The `count` property numbers at `at`: the low fifteen bits of a wide one and
/// the low seven of a narrow one, above which is the flag of an essential
/// property.
pub open spec fn property_numbers(payload: Seq<u8>, at: int, count: int, wide: bool) -> Seq<u32> {
    Seq::new(
        count as nat,
        |i: int|
            if wide {
                (bytes::be16(payload, at + 2 * i) % 0x8000) as u32
            } else {
                (payload[at + i] as int % 0x80) as u32
            },
    )
}

/// Bytes of a property number.
pub open spec fn number_bytes(wide: bool) -> int {
    if wide {
        2
    } else {
        1
    }
}

/// The associations of the next `count` items, from `at` on.
pub open spec fn associations_from(
    payload: Seq<u8>,
    at: int,
    count: nat,
    narrow: bool,
    wide: bool,
) -> Option<Seq<(u32, Seq<u32>)>>
    decreases count,
{
    if count == 0 {
        Some(Seq::empty())
    } else {
        let numbers = at + item_bytes(narrow) + 1;
        let listed = payload[numbers - 1] as int;
        let next = numbers + listed * number_bytes(wide);
        if numbers > payload.len() || next > payload.len() {
            None
        } else {
            match associations_from(payload, next, (count - 1) as nat, narrow, wide) {
                Some(rest) => Some(
                    seq![
                        (
                            item_at(payload, at, narrow),
                            property_numbers(payload, numbers, listed, wide),
                        ),
                    ] + rest,
                ),
                None => None,
            }
        }
    }
}

/// The associations an `ipma` payload states.
pub open spec fn ipma_of(payload: Seq<u8>) -> Option<Seq<(u32, Seq<u32>)>> {
    if payload.len() < 8 {
        None
    } else {
        associations_from(
            payload,
            8,
            bytes::be32(payload, 4) as nat,
            payload[0] < 1,
            payload[3] % 2 == 1,
        )
    }
}

/// Reads the property numbers of one item.
fn read_numbers(payload: &[u8], at: usize, count: usize, wide: bool) -> (numbers: Option<
    Vec<u32>,
>)
    requires
        at <= payload@.len(),
        count <= 255,
    ensures
        match numbers {
            Some(numbers) => {
                &&& at + count * number_bytes(wide) <= payload@.len()
                &&& numbers@ == property_numbers(payload@, at as int, count as int, wide)
            },
            None => at + count * number_bytes(wide) > payload@.len(),
        },
{
    let len: usize = payload.len();
    let each: usize = if wide {
        2
    } else {
        1
    };
    if count * each > len - at {
        return None;
    }
    let mut numbers: Vec<u32> = Vec::new();
    let mut index: usize = 0;
    while index < count
        invariant
            index <= count,
            count <= 255,
            len == payload@.len(),
            each == number_bytes(wide),
            at + count * each <= len,
            numbers@ == property_numbers(payload@, at as int, index as int, wide),
        decreases count - index,
    {
        let number: u32 = if wide {
            match get_be16(payload, at + 2 * index) {
                Some(number) => (number % 0x8000) as u32,
                None => {
                    return None;
                },
            }
        } else {
            (payload[at + index] % 0x80) as u32
        };
        numbers.push(number);
        index += 1;
        assert(numbers@ =~= property_numbers(payload@, at as int, index as int, wide));
    }
    Some(numbers)
}

/// The properties each item is associated with, as `ipma` states them.
pub fn read_ipma(payload: &[u8]) -> (associations: Option<Associations>)
    ensures
        match associations {
            Some(associations) => ipma_of(payload@) == Some(associations_view(associations@)),
            None => ipma_of(payload@) is None,
        },
{
    let len: usize = payload.len();
    if len < 8 {
        return None;
    }
    let narrow: bool = payload[0] < 1;
    let wide: bool = payload[3] % 2 == 1;
    let count: u32 = match get_be32(payload, 4) {
        Some(count) => count,
        None => {
            return None;
        },
    };
    let mut entries: Vec<(u32, Vec<u32>)> = Vec::new();
    let mut at: usize = 8;
    let mut left: u32 = count;
    let ghost whole = associations_from(payload@, 8, count as nat, narrow, wide);
    proof {
        if whole is Some {
            assert(associations_view(entries@) + whole->Some_0 =~= whole->Some_0);
        }
    }
    while left > 0
        invariant
            left <= count,
            at <= len,
            len == payload@.len(),
            whole == ipma_of(payload@),
            match associations_from(payload@, at as int, left as nat, narrow, wide) {
                Some(rest) => whole == Some(associations_view(entries@) + rest),
                None => whole is None,
            },
        decreases left,
    {
        let item: u32 = match read_item(payload, at, narrow) {
            Some(item) => item,
            None => {
                return None;
            },
        };
        let id: usize = if narrow {
            2
        } else {
            4
        };
        let listed: u8 = match get_u8(payload, at + id) {
            Some(listed) => listed,
            None => {
                return None;
            },
        };
        let numbers: usize = at + id + 1;
        let indices = match read_numbers(payload, numbers, listed as usize, wide) {
            Some(indices) => indices,
            None => {
                return None;
            },
        };
        let each: usize = if wide {
            2
        } else {
            1
        };
        let next: usize = numbers + listed as usize * each;
        let ghost held = associations_view(entries@);
        let ghost entry = (item, indices@);
        entries.push((item, indices));
        proof {
            assert(associations_view(entries@) =~= held + seq![entry]);
            let rest = associations_from(payload@, next as int, (left - 1) as nat, narrow, wide);
            if rest is Some {
                assert(held + (seq![entry] + rest->Some_0) =~= associations_view(entries@)
                    + rest->Some_0);
            }
        }
        at = next;
        left -= 1;
    }
    assert(associations_view(entries@) + Seq::<(u32, Seq<u32>)>::empty() =~= associations_view(
        entries@,
    ));
    Some(entries)
}

/// The sizes of the numbers an `iloc` payload states.
pub struct LocationSizes {
    pub offset: int,
    pub length: int,
    pub base: int,
    pub index: int,
}

/// The sizes the two bytes after the version and the flags of an `iloc` payload
/// state; only its later versions have an index.
pub open spec fn sizes_of(payload: Seq<u8>) -> LocationSizes {
    LocationSizes {
        offset: payload[4] as int / 16,
        length: payload[4] as int % 16,
        base: payload[5] as int / 16,
        index: if payload[0] == 0 {
            0
        } else {
            payload[5] as int % 16
        },
    }
}

/// The number of `size` bytes at `at`, as far as a `usize` holds it.
pub open spec fn sized_at(payload: Seq<u8>, at: int, size: int) -> int {
    bytes::wrapped(bytes::be_number(payload, at, size))
}

/// The `count` extents at `at`, whose offsets count from `base`.
pub open spec fn extents_at(
    payload: Seq<u8>,
    at: int,
    count: int,
    base: int,
    sizes: LocationSizes,
) -> Seq<(usize, usize)> {
    let each = sizes.index + sizes.offset + sizes.length;
    Seq::new(
        count as nat,
        |i: int|
            (
                bytes::wrapped(
                    base + sized_at(payload, at + i * each + sizes.index, sizes.offset),
                ) as usize,
                sized_at(
                    payload,
                    at + i * each + sizes.index + sizes.offset,
                    sizes.length,
                ) as usize,
            ),
    )
}

/// Where the construction method of the item at `at` is.
pub open spec fn method_at(at: int, version: int) -> int {
    at + item_bytes(version < 2)
}

/// Where the base offset of the item at `at` is: after its construction method,
/// which the first version does not have, and the data reference.
pub open spec fn base_at(at: int, version: int) -> int {
    method_at(at, version) + (if version == 0 {
        0int
    } else {
        2
    }) + 2
}

/// The extents of the next `count` items, from `at` on.
pub open spec fn locations_from(
    payload: Seq<u8>,
    at: int,
    count: nat,
    version: int,
    sizes: LocationSizes,
) -> Option<Seq<(u32, u8, Seq<(usize, usize)>)>>
    decreases count,
{
    if count == 0 {
        Some(Seq::empty())
    } else {
        let base = base_at(at, version);
        let listed = base + sizes.base;
        let start = listed + 2;
        let extents = bytes::be16(payload, listed);
        let next = start + extents * (sizes.index + sizes.offset + sizes.length);
        if start > payload.len() || next > payload.len() {
            None
        } else {
            match locations_from(payload, next, (count - 1) as nat, version, sizes) {
                Some(rest) => Some(
                    seq![
                        (
                            item_at(payload, at, version < 2),
                            if version == 0 {
                                0u8
                            } else {
                                (bytes::be16(payload, method_at(at, version)) % 16) as u8
                            },
                            extents_at(
                                payload,
                                start,
                                extents,
                                sized_at(payload, base, sizes.base),
                                sizes,
                            ),
                        ),
                    ] + rest,
                ),
                None => None,
            }
        }
    }
}

/// The extents an `iloc` payload states.
pub open spec fn iloc_of(payload: Seq<u8>) -> Option<Seq<(u32, u8, Seq<(usize, usize)>)>> {
    if payload.len() < 6 {
        None
    } else {
        let version = payload[0] as int;
        let first = 6 + item_bytes(version < 2);
        if first > payload.len() {
            None
        } else {
            locations_from(
                payload,
                first,
                item_at(payload, 6, version < 2) as nat,
                version,
                sizes_of(payload),
            )
        }
    }
}

pub(crate) proof fn lemma_wrapping_add(left: usize, right: usize)
    ensures
        left.wrapping_add(right) == bytes::wrapped(left + right),
{
    let whole = usize::MAX + 1;
    if left + right < whole {
        vstd::arithmetic::div_mod::lemma_small_mod((left + right) as nat, whole as nat);
    } else {
        vstd::arithmetic::div_mod::lemma_fundamental_div_mod_converse(
            left + right,
            whole,
            1,
            left + right - whole,
        );
    }
}

/// The sizes of the numbers an `iloc` payload states, as they are read.
struct ReadSizes {
    offset: usize,
    length: usize,
    base: usize,
    index: usize,
}

impl View for ReadSizes {
    type V = LocationSizes;

    closed spec fn view(&self) -> LocationSizes {
        LocationSizes {
            offset: self.offset as int,
            length: self.length as int,
            base: self.base as int,
            index: self.index as int,
        }
    }
}

/// Reads the extents of one item.
fn read_extents(
    payload: &[u8],
    at: usize,
    count: usize,
    base: usize,
    sizes: &ReadSizes,
) -> (extents: Option<Vec<(usize, usize)>>)
    requires
        at <= payload@.len(),
        count <= 0xffff,
        sizes.index < 16,
        sizes.offset < 16,
        sizes.length < 16,
    ensures
        ({
            let each = sizes@.index + sizes@.offset + sizes@.length;
            match extents {
                Some(extents) => {
                    &&& at + count * each <= payload@.len()
                    &&& extents@ == extents_at(
                        payload@,
                        at as int,
                        count as int,
                        base as int,
                        sizes@,
                    )
                },
                None => at + count * each > payload@.len(),
            }
        }),
{
    let len: usize = payload.len();
    let each: usize = sizes.index + sizes.offset + sizes.length;
    assert(0 <= count * each <= 0xffff * 45) by (nonlinear_arith)
        requires
            0 <= count <= 0xffff,
            0 <= each <= 45,
    ;
    if count * each > len - at {
        return None;
    }
    let mut extents: Vec<(usize, usize)> = Vec::new();
    let mut start: usize = at;
    let mut index: usize = 0;
    while index < count
        invariant
            index <= count,
            len == payload@.len(),
            each == sizes.index + sizes.offset + sizes.length,
            each <= 45,
            start == at + index * each,
            at + count * each <= len,
            extents@ == extents_at(payload@, at as int, index as int, base as int, sizes@),
        decreases count - index,
    {
        assert(index * each + each <= count * each) by (nonlinear_arith)
            requires
                index < count,
                0 <= each,
        ;
        assert((index + 1) * each == index * each + each) by (nonlinear_arith);
        let offset: usize = match get_sized(payload, start + sizes.index, sizes.offset) {
            Some(offset) => offset,
            None => {
                return None;
            },
        };
        let length: usize = match get_sized(
            payload,
            start + sizes.index + sizes.offset,
            sizes.length,
        ) {
            Some(length) => length,
            None => {
                return None;
            },
        };
        proof {
            lemma_wrapping_add(base, offset);
        }
        extents.push((base.wrapping_add(offset), length));
        start = start + each;
        index += 1;
        assert(extents@ =~= extents_at(
            payload@,
            at as int,
            index as int,
            base as int,
            sizes@,
        ));
    }
    Some(extents)
}

/// The extents of every item, as `iloc` states them.
///
/// The data reference of an item is not looked at: it is zero for a file that
/// holds its own media data, which is every file this module reads.
pub fn read_iloc(payload: &[u8]) -> (locations: Option<Extents>)
    ensures
        match locations {
            Some(locations) => iloc_of(payload@) == Some(extents_view(locations@)),
            None => iloc_of(payload@) is None,
        },
{
    let len: usize = payload.len();
    if len < 6 {
        return None;
    }
    let version: u8 = payload[0];
    let sizes = ReadSizes {
        offset: (payload[4] / 16) as usize,
        length: (payload[4] % 16) as usize,
        base: (payload[5] / 16) as usize,
        index: if version == 0 {
            0
        } else {
            (payload[5] % 16) as usize
        },
    };
    assert(sizes@ == sizes_of(payload@));
    let narrow: bool = version < 2;
    let id: usize = if narrow {
        2
    } else {
        4
    };
    let count: u32 = match read_item(payload, 6, narrow) {
        Some(count) => count,
        None => {
            return None;
        },
    };
    let mut items: Vec<(u32, u8, Vec<(usize, usize)>)> = Vec::new();
    let mut at: usize = 6 + id;
    let mut left: u32 = count;
    let ghost whole = iloc_of(payload@);
    proof {
        if whole is Some {
            assert(extents_view(items@) + whole->Some_0 =~= whole->Some_0);
        }
    }
    while left > 0
        invariant
            left <= count,
            at <= len,
            len == payload@.len(),
            narrow == (version < 2),
            id == item_bytes(narrow),
            sizes@ == sizes_of(payload@),
            sizes.index < 16,
            sizes.offset < 16,
            sizes.length < 16,
            sizes.base < 16,
            whole == iloc_of(payload@),
            match locations_from(payload@, at as int, left as nat, version as int, sizes@) {
                Some(rest) => whole == Some(extents_view(items@) + rest),
                None => whole is None,
            },
        decreases left,
    {
        let method_bytes: usize = if version == 0 {
            0
        } else {
            2
        };
        let head: usize = id + method_bytes + 2 + sizes.base + 2;
        if head > len - at {
            return None;
        }
        let item: u32 = match read_item(payload, at, narrow) {
            Some(item) => item,
            None => {
                return None;
            },
        };
        let method: u8 = if version == 0 {
            0
        } else {
            match get_be16(payload, at + id) {
                Some(flags) => (flags % 16) as u8,
                None => {
                    return None;
                },
            }
        };
        let base_start: usize = at + id + method_bytes + 2;
        let base: usize = match get_sized(payload, base_start, sizes.base) {
            Some(base) => base,
            None => {
                return None;
            },
        };
        let extents: u16 = match get_be16(payload, base_start + sizes.base) {
            Some(extents) => extents,
            None => {
                return None;
            },
        };
        let start: usize = at + head;
        let ranges = match read_extents(payload, start, extents as usize, base, &sizes) {
            Some(ranges) => ranges,
            None => {
                return None;
            },
        };
        let each: usize = sizes.index + sizes.offset + sizes.length;
        assert(0 <= extents * each <= 0xffff * 45) by (nonlinear_arith)
            requires
                0 <= extents <= 0xffff,
                0 <= each <= 45,
        ;
        let next: usize = start + extents as usize * each;
        let ghost held = extents_view(items@);
        let ghost entry = (item, method, ranges@);
        items.push((item, method, ranges));
        proof {
            assert(extents_view(items@) =~= held + seq![entry]);
            let rest = locations_from(
                payload@,
                next as int,
                (left - 1) as nat,
                version as int,
                sizes@,
            );
            if rest is Some {
                assert(held + (seq![entry] + rest->Some_0) =~= extents_view(items@)
                    + rest->Some_0);
            }
        }
        at = next;
        left -= 1;
    }
    assert(extents_view(items@) + Seq::<(u32, u8, Seq<(usize, usize)>)>::empty() =~= extents_view(
        items@,
    ));
    Some(items)
}

/// The reference one box of an `iref` payload states, from the box's own
/// payload.
pub open spec fn reference_of(kind: u32, reference: Seq<u8>, narrow: bool) -> Option<
    (u32, u32, Seq<u32>),
> {
    let id = item_bytes(narrow);
    let count = item_at(reference, id, narrow) as int;
    if 2 * id > reference.len() || 2 * id + count * id > reference.len() {
        None
    } else {
        Some(
            (
                kind,
                item_at(reference, 0, narrow),
                Seq::new(
                    count as nat,
                    |i: int| item_at(reference, 2 * id + i * id, narrow),
                ),
            ),
        )
    }
}

/// The references the boxes of an `iref` payload state.
pub open spec fn references_from(payload: Seq<u8>, listed: Seq<BoxSpan>, narrow: bool) -> Option<
    Seq<(u32, u32, Seq<u32>)>,
>
    decreases listed.len(),
{
    if listed.len() == 0 {
        Some(Seq::empty())
    } else {
        match (
            reference_of(listed[0].kind, boxes::payload(payload, listed[0]), narrow),
            references_from(payload, listed.skip(1), narrow),
        ) {
            (Some(first), Some(rest)) => Some(seq![first] + rest),
            _ => None,
        }
    }
}

/// The references an `iref` payload states.
pub open spec fn iref_of(payload: Seq<u8>) -> Option<Seq<(u32, u32, Seq<u32>)>> {
    if payload.len() < 4 {
        None
    } else {
        match boxes::boxes_from(payload, 4, payload.len() as int) {
            Some(listed) => references_from(payload, listed, payload[0] == 0),
            None => None,
        }
    }
}

/// Reads the reference one box states.
fn read_reference(kind: u32, reference: &[u8], narrow: bool) -> (stated: Option<
    (u32, u32, Vec<u32>),
>)
    ensures
        match stated {
            Some(stated) => reference_of(kind, reference@, narrow) == Some(
                (stated.0, stated.1, stated.2@),
            ),
            None => reference_of(kind, reference@, narrow) is None,
        },
{
    let len: usize = reference.len();
    let id: usize = if narrow {
        2
    } else {
        4
    };
    let from: u32 = match read_item(reference, 0, narrow) {
        Some(from) => from,
        None => {
            return None;
        },
    };
    let count: u32 = match read_item(reference, id, narrow) {
        Some(count) => count,
        None => {
            return None;
        },
    };
    if count as u64 * id as u64 > (len - 2 * id) as u64 {
        return None;
    }
    let mut to: Vec<u32> = Vec::new();
    let mut at: usize = 2 * id;
    let mut index: u32 = 0;
    let ghost items = |i: int| item_at(reference@, 2 * id + i * id, narrow);
    while index < count
        invariant
            index <= count,
            len == reference@.len(),
            id == item_bytes(narrow),
            at == 2 * id + index * id,
            2 * id + count * id <= len,
            items == (|i: int| item_at(reference@, 2 * id + i * id, narrow)),
            to@ == Seq::new(index as nat, items),
        decreases count - index,
    {
        assert(index * id + id <= count * id && (index + 1) * id == index * id + id)
            by (nonlinear_arith)
            requires
                index < count,
                0 <= id,
        ;
        match read_item(reference, at, narrow) {
            Some(item) => {
                to.push(item);
            },
            None => {
                return None;
            },
        }
        at = at + id;
        index += 1;
        assert(to@ =~= Seq::new(index as nat, items));
    }
    assert(Seq::new(count as nat, items) =~= Seq::new(
        count as nat,
        |i: int| item_at(reference@, 2 * id + i * id, narrow),
    ));
    Some((kind, from, to))
}

/// The references of a container, as `iref` states them.
pub fn read_references(payload: &[u8]) -> (references: Option<References>)
    ensures
        match references {
            Some(references) => iref_of(payload@) == Some(references_view(references@)),
            None => iref_of(payload@) is None,
        },
{
    let len: usize = payload.len();
    if len < 4 {
        return None;
    }
    let narrow: bool = payload[0] == 0;
    let listed = match child_boxes(payload, 4, len) {
        Some(listed) => listed,
        None => {
            return None;
        },
    };
    let mut references: Vec<(u32, u32, Vec<u32>)> = Vec::new();
    let ghost whole = iref_of(payload@);
    proof {
        assert(listed@.skip(0) =~= listed@);
        if whole is Some {
            assert(references_view(references@) + whole->Some_0 =~= whole->Some_0);
        }
    }
    let mut at: usize = 0;
    while at < listed.len()
        invariant
            at <= listed.len(),
            len == payload@.len(),
            whole == iref_of(payload@),
            forall|i: int|
                0 <= i < listed@.len() ==> 4 <= (#[trigger] listed@[i]).start <= listed@[i].end
                    <= len,
            match references_from(payload@, listed@.skip(at as int), narrow) {
                Some(rest) => whole == Some(references_view(references@) + rest),
                None => whole is None,
            },
        decreases listed.len() - at,
    {
        let ghost left = listed@.skip(at as int);
        proof {
            assert(left[0] == listed@[at as int]);
            assert(left.skip(1) =~= listed@.skip(at + 1));
        }
        let span = listed[at];
        let reference = slice_subrange(payload, span.start, span.end);
        match read_reference(span.kind, reference, narrow) {
            Some(stated) => {
                let ghost held = references_view(references@);
                let ghost entry = (stated.0, stated.1, stated.2@);
                references.push(stated);
                proof {
                    assert(references_view(references@) =~= held + seq![entry]);
                    let rest = references_from(payload@, left.skip(1), narrow);
                    if rest is Some {
                        assert(held + (seq![entry] + rest->Some_0) =~= references_view(references@)
                            + rest->Some_0);
                    }
                }
            },
            None => {
                return None;
            },
        }
        at += 1;
    }
    proof {
        assert(listed@.skip(at as int) =~= Seq::<BoxSpan>::empty());
        assert(references_view(references@) + Seq::<(u32, u32, Seq<u32>)>::empty()
            =~= references_view(references@));
    }
    Some(references)
}

/// The number of an item is two bytes in a narrow list and four in a wide one, with
/// the highest byte first.
pub proof fn an_item_has_two_bytes_or_four(payload: Seq<u8>, at: int)
    ensures
        item_at(payload, at, true) == 0x100 * payload[at] + payload[at + 1],
        item_at(payload, at, false) == 0x100_0000 * payload[at] + 0x1_0000 * payload[at + 1]
            + 0x100 * payload[at + 2] + payload[at + 3],
{
}

/// The associations of an `ipma` payload start behind its count. The items are narrow
/// in the first version, and the property numbers are wide where the lowest flag is
/// set. A payload without room for the count lists nothing.
pub proof fn the_associations_follow_their_count(payload: Seq<u8>)
    ensures
        payload.len() < 8 ==> ipma_of(payload) is None,
        payload.len() >= 8 ==> ipma_of(payload) == associations_from(
            payload,
            8,
            (0x100_0000 * payload[4] + 0x1_0000 * payload[5] + 0x100 * payload[6] + payload[7])
                as nat,
            payload[0] == 0,
            payload[3] as int % 2 == 1,
        ),
{
}

/// An association is the item, a count, and that many property numbers below the flag
/// of an essential property. The next association follows at once, and a list that is
/// cut short is none.
pub proof fn an_association_numbers_the_properties_of_its_item(
    payload: Seq<u8>,
    at: int,
    count: nat,
    narrow: bool,
    wide: bool,
)
    requires
        0 <= at,
        count > 0,
    ensures
        ({
            let id: int = if narrow {
                2
            } else {
                4
            };
            let each: int = if wide {
                2
            } else {
                1
            };
            let first = at + id + 1;
            let listed = payload[at + id] as int;
            let next = first + listed * each;
            let rest = associations_from(payload, next, (count - 1) as nat, narrow, wide);
            match associations_from(payload, at, count, narrow, wide) {
                Some(list) => {
                    &&& next <= payload.len()
                    &&& rest == Some(list.skip(1))
                    &&& list.len() > 0
                    &&& list[0].0 == item_at(payload, at, narrow)
                    &&& list[0].1.len() == listed
                    &&& forall|i: int|
                        0 <= i < listed ==> #[trigger] list[0].1[i] == (if wide {
                            (0x100 * payload[first + 2 * i] + payload[first + 2 * i + 1]) % 0x8000
                        } else {
                            payload[first + i] as int % 0x80
                        })
                },
                None => first > payload.len() || next > payload.len() || rest is None,
            }
        }),
        associations_from(payload, at, 0, narrow, wide) == Some(Seq::<(u32, Seq<u32>)>::empty()),
{
    match associations_from(payload, at, count, narrow, wide) {
        Some(list) => {
            let first = at + item_bytes(narrow) + 1;
            let next = first + payload[first - 1] * number_bytes(wide);
            let rest = associations_from(payload, next, (count - 1) as nat, narrow, wide).unwrap();
            assert(list.skip(1) =~= rest);
        },
        None => {},
    }
}

/// An `iloc` payload states the sizes of its numbers in four halves of a byte: of an
/// offset, of a length, of a base, and of an index, which the first version lacks.
/// The items are narrow below the third version, and so is their count.
pub proof fn the_locations_follow_their_sizes(payload: Seq<u8>)
    ensures
        ({
            let sizes = sizes_of(payload);
            &&& payload[4] == 16 * sizes.offset + sizes.length
            &&& payload[5] as int / 16 == sizes.base
            &&& sizes.index == (if payload[0] == 0 {
                0
            } else {
                payload[5] as int % 16
            })
            &&& 0 <= sizes.length < 16
        }),
        payload.len() < (if payload[0] < 2 {
            8int
        } else {
            10
        }) ==> iloc_of(payload) is None,
        payload.len() >= (if payload[0] < 2 {
            8int
        } else {
            10
        }) ==> iloc_of(payload) == (if payload[0] < 2 {
            locations_from(
                payload,
                8,
                (0x100 * payload[6] + payload[7]) as nat,
                payload[0] as int,
                sizes_of(payload),
            )
        } else {
            locations_from(
                payload,
                10,
                (0x100_0000 * payload[6] + 0x1_0000 * payload[7] + 0x100 * payload[8] + payload[9])
                    as nat,
                payload[0] as int,
                sizes_of(payload),
            )
        }),
{
}

/// A location is the item, in later versions how it is constructed, a data reference,
/// a base, a count, and that many extents. An extent starts its offset behind the
/// base and has a length, both stored behind an index, with the highest byte first.
pub proof fn a_location_lists_the_extents_of_its_item(
    payload: Seq<u8>,
    at: int,
    count: nat,
    version: int,
    sizes: LocationSizes,
)
    requires
        0 <= at,
        0 <= version,
        count > 0,
        0 <= sizes.offset,
        0 <= sizes.length,
        0 <= sizes.base,
        0 <= sizes.index,
    ensures
        ({
            let id: int = if version < 2 {
                2
            } else {
                4
            };
            let base = at + id + (if version == 0 {
                2int
            } else {
                4
            });
            let listed = base + sizes.base;
            let start = listed + 2;
            let extents = 0x100 * payload[listed] + payload[listed + 1];
            let each = sizes.index + sizes.offset + sizes.length;
            let next = start + extents * each;
            let rest = locations_from(payload, next, (count - 1) as nat, version, sizes);
            match locations_from(payload, at, count, version, sizes) {
                Some(list) => {
                    &&& next <= payload.len()
                    &&& rest == Some(list.skip(1))
                    &&& list.len() > 0
                    &&& list[0].0 == item_at(payload, at, version < 2)
                    &&& list[0].1 == (if version == 0 {
                        0int
                    } else {
                        payload[at + id + 1] as int % 16
                    })
                    &&& list[0].2.len() == extents
                    &&& forall|i: int|
                        0 <= i < extents ==> {
                            let extent = #[trigger] list[0].2[i];
                            let stored = start + i * each + sizes.index;
                            &&& extent.0 == (bytes::be_number(payload, base, sizes.base) % (
                            usize::MAX + 1) + bytes::be_number(payload, stored, sizes.offset) % (
                            usize::MAX + 1)) % (usize::MAX + 1)
                            &&& extent.1 == bytes::be_number(
                                payload,
                                stored + sizes.offset,
                                sizes.length,
                            ) % (usize::MAX + 1)
                        }
                },
                None => start > payload.len() || next > payload.len() || rest is None,
            }
        }),
        locations_from(payload, at, 0, version, sizes) == Some(
            Seq::<(u32, u8, Seq<(usize, usize)>)>::empty(),
        ),
{
    match locations_from(payload, at, count, version, sizes) {
        Some(list) => {
            let base = base_at(at, version);
            let start = base + sizes.base + 2;
            let extents = bytes::be16(payload, base + sizes.base);
            let next = start + extents * (sizes.index + sizes.offset + sizes.length);
            let rest = locations_from(payload, next, (count - 1) as nat, version, sizes).unwrap();
            assert(list.skip(1) =~= rest);
        },
        None => {},
    }
}

/// A reference is the item it is from, a count, and that many items it is to, all of
/// them narrow or all of them wide. One that is cut short is none.
pub proof fn a_reference_lists_the_items_it_is_to(kind: u32, reference: Seq<u8>, narrow: bool)
    ensures
        ({
            let id: int = if narrow {
                2
            } else {
                4
            };
            let count = item_at(reference, id, narrow) as int;
            match reference_of(kind, reference, narrow) {
                Some(read) => {
                    &&& (2 + count) * id <= reference.len()
                    &&& read.0 == kind
                    &&& read.1 == item_at(reference, 0, narrow)
                    &&& read.2.len() == count
                    &&& forall|i: int|
                        0 <= i < count ==> #[trigger] read.2[i] == item_at(
                            reference,
                            (2 + i) * id,
                            narrow,
                        )
                },
                None => reference.len() < 2 * id || reference.len() < (2 + count) * id,
            }
        }),
{
    let id = item_bytes(narrow);
    let count = item_at(reference, id, narrow) as int;
    assert(2 * id + count * id == (2 + count) * id) by (nonlinear_arith);
    assert forall|i: int| 0 <= i < count implies 2 * id + #[trigger] (i * id) == (2 + i) * id by {
        assert(2 * id + i * id == (2 + i) * id) by (nonlinear_arith);
    }
    match reference_of(kind, reference, narrow) {
        Some(read) => {
            assert forall|i: int| 0 <= i < count implies #[trigger] read.2[i] == item_at(
                reference,
                (2 + i) * id,
                narrow,
            ) by {
                assert(2 * id + i * id == (2 + i) * id) by (nonlinear_arith);
            }
        },
        None => {},
    }
}

} // verus!
