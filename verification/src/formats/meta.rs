//! What the item boxes of a heif family container say of its primary item.

use vstd::prelude::*;

use vstd::slice::slice_subrange;

use crate::bytes;
use crate::bytes::{get_be16, get_be32, get_u8};
use crate::error::{self, ImgSeqError};
use crate::formats::boxes;
use crate::formats::boxes::{child, child_boxes, BoxSpan, META};
use crate::formats::items;
use crate::formats::items::{
    read_iloc, read_ipma, read_references, Associations, Extents, References, AUXC, AUXL, DIMG,
    IDAT, ILOC, IPCO, IPMA, IPRP, IREF, PITM,
};

verus! {

/// The item boxes of one file.
///
/// Every range in here is an offset into the leading boxes, which are a prefix of
/// the file, so the same range reads from either.
pub struct Meta {
    /// The leading boxes this was read from.
    pub boxes: Vec<u8>,
    /// The item property list, in the order it was written.
    pub properties: Vec<BoxSpan>,
    /// The property numbers of every item, as `ipma` associates them.
    pub associations: Associations,
    /// The primary item, as `pitm` names it.
    pub primary: u32,
    /// The extents of every item, as `iloc` names them, with the construction
    /// method that says what their offsets are relative to.
    pub extents: Extents,
    /// The `idat` payload, which is where an extent of construction method one
    /// is read from.
    pub idat: Option<(usize, usize)>,
    /// The item an `auxl` reference points at the primary item from.
    pub aux: Option<u32>,
    /// Whether the primary item is a grid of tiles, whose payload describes the
    /// tiling rather than holding a coded picture.
    pub grid: bool,
    /// The properties of the auxiliary item, which have to name alpha.
    pub aux_properties: Vec<BoxSpan>,
}

/// What the item boxes of a file say.
pub struct MetaView {
    pub boxes: Seq<u8>,
    pub properties: Seq<BoxSpan>,
    pub associations: Seq<(u32, Seq<u32>)>,
    pub primary: u32,
    pub extents: Seq<(u32, u8, Seq<(usize, usize)>)>,
    pub idat: Option<(usize, usize)>,
    pub aux: Option<u32>,
    pub grid: bool,
    pub aux_properties: Seq<BoxSpan>,
}

impl View for Meta {
    type V = MetaView;

    open spec fn view(&self) -> MetaView {
        MetaView {
            boxes: self.boxes@,
            properties: self.properties@,
            associations: items::associations_view(self.associations@),
            primary: self.primary,
            extents: items::extents_view(self.extents@),
            idat: self.idat,
            aux: self.aux,
            grid: self.grid,
            aux_properties: self.aux_properties@,
        }
    }
}

/// Whether every span of a list lies in `data`.
pub open spec fn spans_lie_in(list: Seq<BoxSpan>, data: Seq<u8>) -> bool {
    forall|i: int|
        0 <= i < list.len() ==> (#[trigger] list[i]).start <= list[i].end <= data.len()
}

/// The properties of a list that `numbers` name, which count the list from one.
/// A number that names none is passed over.
pub open spec fn named_properties(properties: Seq<BoxSpan>, numbers: Seq<u32>) -> Seq<BoxSpan>
    decreases numbers.len(),
{
    if numbers.len() == 0 {
        Seq::empty()
    } else {
        let before = named_properties(properties, numbers.drop_last());
        if 1 <= numbers.last() <= properties.len() {
            before.push(properties[numbers.last() - 1])
        } else {
            before
        }
    }
}

/// The property numbers of the first entry of `item`.
pub open spec fn numbers_of(associations: Seq<(u32, Seq<u32>)>, item: u32) -> Option<Seq<u32>>
    decreases associations.len(),
{
    if associations.len() == 0 {
        None
    } else if associations[0].0 == item {
        Some(associations[0].1)
    } else {
        numbers_of(associations.skip(1), item)
    }
}

/// The construction method and the extents of the first entry of `item`.
pub open spec fn location_of(
    extents: Seq<(u32, u8, Seq<(usize, usize)>)>,
    item: u32,
) -> Option<(u8, Seq<(usize, usize)>)>
    decreases extents.len(),
{
    if extents.len() == 0 {
        None
    } else if extents[0].0 == item {
        Some((extents[0].1, extents[0].2))
    } else {
        location_of(extents.skip(1), item)
    }
}

/// The item the first `auxl` reference to `primary` is from.
pub open spec fn aux_of(references: Seq<(u32, u32, Seq<u32>)>, primary: u32) -> Option<u32>
    decreases references.len(),
{
    if references.len() == 0 {
        None
    } else if references[0].0 == AUXL && references[0].2.contains(primary) {
        Some(references[0].1)
    } else {
        aux_of(references.skip(1), primary)
    }
}

/// Whether `primary` references the tiles it is made of.
pub open spec fn grid_of(references: Seq<(u32, u32, Seq<u32>)>, primary: u32) -> bool {
    exists|i: int|
        0 <= i < references.len() && (#[trigger] references[i]).0 == DIMG && references[i].1
            == primary
}

/// The item a `pitm` payload names.
pub open spec fn pitm_of(payload: Seq<u8>) -> Option<u32> {
    if payload.len() < 6 || (payload[0] != 0 && payload.len() < 8) {
        None
    } else {
        Some(items::item_at(payload, 4, payload[0] == 0))
    }
}

/// The references of a container, which are none where it has no `iref` box.
pub open spec fn references_of(data: Seq<u8>, start: int, end: int) -> Option<
    Seq<(u32, u32, Seq<u32>)>,
> {
    match boxes::child_of(data, start, end, IREF) {
        Some(iref) => items::iref_of(boxes::payload(data, iref)),
        None => Some(Seq::empty()),
    }
}

/// The boxes the leading boxes `data` of a file have to hold for their items to
/// be read: the `meta` box, the property list and the associations under it, the
/// primary item and the locations.
pub open spec fn item_boxes(data: Seq<u8>) -> Option<(BoxSpan, BoxSpan, BoxSpan, BoxSpan, BoxSpan)> {
    match boxes::child_of(data, 0, data.len() as int, META) {
        Some(meta) => if meta.end - meta.start < 4 {
            None
        } else {
            let start = meta.start + 4;
            let end = meta.end as int;
            match (
                boxes::child_of(data, start, end, IPRP),
                boxes::child_of(data, start, end, PITM),
                boxes::child_of(data, start, end, ILOC),
            ) {
                (Some(iprp), Some(pitm), Some(iloc)) => match (
                    boxes::child_of(data, iprp.start as int, iprp.end as int, IPCO),
                    boxes::child_of(data, iprp.start as int, iprp.end as int, IPMA),
                ) {
                    (Some(ipco), Some(ipma)) => Some((meta, ipco, ipma, pitm, iloc)),
                    _ => None,
                },
                _ => None,
            }
        },
        None => None,
    }
}

/// What the item boxes among the leading boxes of a file say, if they can be
/// read.
pub open spec fn meta_of(data: Seq<u8>) -> Option<MetaView> {
    match item_boxes(data) {
        None => None,
        Some((meta, ipco, ipma, pitm, iloc)) => {
            let start = meta.start + 4;
            let end = meta.end as int;
            match (
                boxes::boxes_from(data, ipco.start as int, ipco.end as int),
                items::ipma_of(boxes::payload(data, ipma)),
                pitm_of(boxes::payload(data, pitm)),
                items::iloc_of(boxes::payload(data, iloc)),
                references_of(data, start, end),
            ) {
                (
                    Some(properties),
                    Some(associations),
                    Some(primary),
                    Some(extents),
                    Some(references),
                ) => {
                    let aux = aux_of(references, primary);
                    Some(
                        MetaView {
                            boxes: data,
                            properties,
                            associations,
                            primary,
                            extents,
                            idat: match boxes::child_of(data, start, end, IDAT) {
                                Some(idat) => Some((idat.start, idat.end)),
                                None => None,
                            },
                            aux,
                            grid: grid_of(references, primary),
                            aux_properties: match aux {
                                Some(item) => match numbers_of(associations, item) {
                                    Some(numbers) => named_properties(properties, numbers),
                                    None => Seq::empty(),
                                },
                                None => Seq::empty(),
                            },
                        },
                    )
                },
                _ => None,
            }
        },
    }
}

/// Whether `data` holds `text` at `at`, one byte for each character.
pub open spec fn text_at(data: Seq<u8>, at: int, text: Seq<char>) -> bool {
    &&& 0 <= at
    &&& at + text.len() <= data.len()
    &&& forall|i: int| 0 <= i < text.len() ==> data[at + i] as int == (#[trigger] text[i]) as int
}

/// Whether `data` holds `text` anywhere.
pub open spec fn holds_text(data: Seq<u8>, text: Seq<char>) -> bool {
    exists|at: int| #[trigger] text_at(data, at, text)
}

/// The `auxC` type the avif specification requires of an alpha item.
pub open spec fn alpha_type() -> Seq<char> {
    "urn:mpeg:mpegB:cicp:systems:auxiliary:alpha"@
}

/// The older hevc type that heif writers used for one.
pub open spec fn hevc_alpha_type() -> Seq<char> {
    "urn:mpeg:hevc:2015:auxid:1"@
}

/// Whether a property names the item it belongs to as alpha.
pub open spec fn names_alpha(data: Seq<u8>, property: BoxSpan) -> bool {
    property.kind == AUXC && (holds_text(boxes::payload(data, property), alpha_type())
        || holds_text(boxes::payload(data, property), hevc_alpha_type()))
}

impl MetaView {
    /// Whether every range in the boxes lies in them.
    pub open spec fn valid(self) -> bool {
        &&& spans_lie_in(self.properties, self.boxes)
        &&& spans_lie_in(self.aux_properties, self.boxes)
    }

    /// The properties of the primary item.
    pub open spec fn primary_list(self) -> Option<Seq<BoxSpan>> {
        match numbers_of(self.associations, self.primary) {
            Some(numbers) => Some(named_properties(self.properties, numbers)),
            None => None,
        }
    }

    /// Whether an auxiliary item that names alpha belongs to the primary item.
    pub open spec fn alpha(self) -> bool {
        self.aux is Some && exists|i: int|
            0 <= i < self.aux_properties.len() && names_alpha(
                self.boxes,
                #[trigger] self.aux_properties[i],
            )
    }

    /// Where the payload of a located item starts and ends, up to `limit` bytes,
    /// or why it cannot be read.
    pub open spec fn located(
        self,
        method: u8,
        ranges: Seq<(usize, usize)>,
        limit: int,
    ) -> Result<(int, int), Seq<char>> {
        if ranges.len() == 0 {
            Err("the container lists no data for an item"@)
        } else if ranges.len() > 1 {
            Err("the item is split over several extents, which this reader does not join"@)
        } else if method > 1 {
            Err("the item uses a construction method this reader does not read"@)
        } else if method == 1 && self.idat is None {
            Err("the container has no idat box"@)
        } else {
            let base = if method == 1 {
                self.idat.unwrap().0 as int
            } else {
                0
            };
            let start = base + ranges[0].0;
            let length = if ranges[0].1 <= limit {
                ranges[0].1 as int
            } else {
                limit
            };
            if start > usize::MAX {
                Err("the item is past the end of the file"@)
            } else {
                Ok((start, bytes::wrapped(start + length)))
            }
        }
    }

    /// Where the payload of the primary item starts and ends, up to `limit`
    /// bytes, or why it cannot be read.
    pub open spec fn primary_range(self, limit: int) -> Result<(int, int), Seq<char>> {
        match location_of(self.extents, self.primary) {
            Some((method, ranges)) => self.located(method, ranges, limit),
            None => Err("the container does not locate its primary item"@),
        }
    }

    /// Where the payload of the alpha item starts and ends, up to `limit` bytes,
    /// when the container holds one, or why it cannot be read.
    pub open spec fn alpha_range(self, limit: int) -> Result<Option<(int, int)>, Seq<char>> {
        if !self.alpha() {
            Ok(None)
        } else {
            match location_of(self.extents, self.aux.unwrap()) {
                Some((method, ranges)) => match self.located(method, ranges, limit) {
                    Ok(range) => Ok(Some(range)),
                    Err(message) => Err(message),
                },
                None => Err("the container does not locate its alpha item"@),
            }
        }
    }
}

/// Offset of `needle` in `haystack`.
pub fn find_bytes(haystack: &[u8], needle: &str) -> (found: Option<usize>)
    requires
        needle@.len() > 0,
    ensures
        match found {
            Some(at) => {
                &&& text_at(haystack@, at as int, needle@)
                &&& forall|before: int| 0 <= before < at ==> !text_at(haystack@, before, needle@)
            },
            None => !holds_text(haystack@, needle@),
        },
{
    let len: usize = haystack.len();
    let wanted: usize = needle.unicode_len();
    if wanted > len {
        return None;
    }
    let mut at: usize = 0;
    while at <= len - wanted
        invariant
            wanted <= len,
            len == haystack@.len(),
            wanted == needle@.len(),
            wanted > 0,
            at <= len - wanted + 1,
            forall|before: int| 0 <= before < at ==> !text_at(haystack@, before, needle@),
        decreases len - at,
    {
        let mut matched: usize = 0;
        let mut same: bool = true;
        while same && matched < wanted
            invariant
                matched <= wanted,
                wanted == needle@.len(),
                len == haystack@.len(),
                at + wanted <= len,
                same ==> forall|i: int|
                    0 <= i < matched ==> haystack@[at + i] as int == (
                    #[trigger] needle@[i]) as int,
                !same ==> !text_at(haystack@, at as int, needle@),
            decreases wanted - matched, (if same { 1int } else { 0int }),
        {
            if haystack[at + matched] as u32 == needle.get_char(matched) as u32 {
                matched += 1;
            } else {
                assert(haystack@[at + matched] as int != needle@[matched as int] as int);
                same = false;
            }
        }
        if same {
            return Some(at);
        }
        at += 1;
    }
    None
}

/// One property of a property list, by the number `ipma` associates it by, which
/// counts the list from one.
pub fn property(properties: &Vec<BoxSpan>, number: u32) -> (found: Option<BoxSpan>)
    ensures
        found == (if 1 <= number <= properties@.len() {
            Some(properties@[number - 1])
        } else {
            None
        }),
{
    let index: usize = number as usize;
    if 1 <= index && index <= properties.len() {
        Some(properties[index - 1])
    } else {
        None
    }
}

/// Collects the properties `numbers` name.
fn collect_properties(properties: &Vec<BoxSpan>, numbers: &Vec<u32>, data: &[u8]) -> (named: Vec<
    BoxSpan,
>)
    requires
        spans_lie_in(properties@, data@),
    ensures
        named@ == named_properties(properties@, numbers@),
        spans_lie_in(named@, data@),
{
    let mut named: Vec<BoxSpan> = Vec::new();
    let mut at: usize = 0;
    while at < numbers.len()
        invariant
            at <= numbers.len(),
            spans_lie_in(properties@, data@),
            named@ == named_properties(properties@, numbers@.take(at as int)),
            spans_lie_in(named@, data@),
        decreases numbers.len() - at,
    {
        proof {
            assert(numbers@.take(at + 1).drop_last() =~= numbers@.take(at as int));
            assert(numbers@.take(at + 1).last() == numbers@[at as int]);
        }
        match property(properties, numbers[at]) {
            Some(found) => {
                named.push(found);
            },
            None => {},
        }
        at += 1;
    }
    assert(numbers@.take(at as int) =~= numbers@);
    named
}

/// Finds the property numbers of an item.
fn find_numbers(associations: &Associations, item: u32) -> (found: Option<usize>)
    ensures
        match found {
            Some(at) => {
                &&& at < associations@.len()
                &&& numbers_of(items::associations_view(associations@), item) == Some(
                    associations@[at as int].1@,
                )
            },
            None => numbers_of(items::associations_view(associations@), item) is None,
        },
{
    let ghost whole = items::associations_view(associations@);
    assert(whole.skip(0) =~= whole);
    let mut at: usize = 0;
    while at < associations.len()
        invariant
            at <= associations.len(),
            whole == items::associations_view(associations@),
            numbers_of(whole, item) == numbers_of(whole.skip(at as int), item),
        decreases associations.len() - at,
    {
        assert(whole.skip(at as int)[0] == whole[at as int]);
        assert(whole.skip(at as int).skip(1) =~= whole.skip(at + 1));
        if associations[at].0 == item {
            return Some(at);
        }
        at += 1;
    }
    None
}

/// Whether an item is among those a reference is to.
fn holds_item(items: &Vec<u32>, item: u32) -> (held: bool)
    ensures
        held == items@.contains(item),
{
    let mut at: usize = 0;
    while at < items.len()
        invariant
            at <= items.len(),
            forall|i: int| 0 <= i < at ==> items@[i] != item,
        decreases items.len() - at,
    {
        if items[at] == item {
            return true;
        }
        at += 1;
    }
    false
}

/// The item the first `auxl` reference to the primary item is from.
fn find_aux(references: &References, primary: u32) -> (aux: Option<u32>)
    ensures
        aux == aux_of(items::references_view(references@), primary),
{
    let ghost whole = items::references_view(references@);
    assert(whole.skip(0) =~= whole);
    let mut at: usize = 0;
    while at < references.len()
        invariant
            at <= references.len(),
            whole == items::references_view(references@),
            aux_of(whole, primary) == aux_of(whole.skip(at as int), primary),
        decreases references.len() - at,
    {
        assert(whole.skip(at as int)[0] == whole[at as int]);
        assert(whole.skip(at as int).skip(1) =~= whole.skip(at + 1));
        if references[at].0 == AUXL && holds_item(&references[at].2, primary) {
            return Some(references[at].1);
        }
        at += 1;
    }
    None
}

/// Whether the primary item references the tiles it is made of.
fn find_grid(references: &References, primary: u32) -> (grid: bool)
    ensures
        grid == grid_of(items::references_view(references@), primary),
{
    let ghost whole = items::references_view(references@);
    let mut at: usize = 0;
    while at < references.len()
        invariant
            at <= references.len(),
            whole == items::references_view(references@),
            forall|i: int|
                0 <= i < at ==> !((#[trigger] whole[i]).0 == DIMG && whole[i].1 == primary),
        decreases references.len() - at,
    {
        if references[at].0 == DIMG && references[at].1 == primary {
            assert(whole[at as int].0 == DIMG && whole[at as int].1 == primary);
            return true;
        }
        assert(!(whole[at as int].0 == DIMG && whole[at as int].1 == primary));
        at += 1;
    }
    false
}

/// The item a `pitm` payload names.
fn read_pitm(payload: &[u8]) -> (primary: Option<u32>)
    ensures
        primary == pitm_of(payload@),
{
    match get_u8(payload, 0) {
        Some(0) => match get_be16(payload, 4) {
            Some(item) => Some(item as u32),
            None => None,
        },
        Some(_) => get_be32(payload, 4),
        None => None,
    }
}

impl Meta {
    /// Reads the item boxes of a file whose leading boxes are `data`.
    pub fn read(data: &[u8]) -> (meta: Option<Meta>)
        ensures
            match meta {
                Some(meta) => meta_of(data@) == Some(meta@) && meta@.valid(),
                None => meta_of(data@) is None,
            },
    {
        let meta = match child(data, 0, data.len(), META) {
            Some(meta) => meta,
            None => {
                return None;
            },
        };
        if meta.end - meta.start < 4 {
            return None;
        }
        let start: usize = meta.start + 4;
        let end: usize = meta.end;
        // The property list hangs under the item property container, which is
        // what the `ipco` payload holds, and the associations of every item are
        // the `ipma` box beside it.
        let iprp = match child(data, start, end, IPRP) {
            Some(iprp) => iprp,
            None => {
                return None;
            },
        };
        let pitm = match child(data, start, end, PITM) {
            Some(pitm) => pitm,
            None => {
                return None;
            },
        };
        let iloc = match child(data, start, end, ILOC) {
            Some(iloc) => iloc,
            None => {
                return None;
            },
        };
        let ipco = match child(data, iprp.start, iprp.end, IPCO) {
            Some(ipco) => ipco,
            None => {
                return None;
            },
        };
        let ipma = match child(data, iprp.start, iprp.end, IPMA) {
            Some(ipma) => ipma,
            None => {
                return None;
            },
        };
        assert(item_boxes(data@) == Some((meta, ipco, ipma, pitm, iloc)));
        let properties = match child_boxes(data, ipco.start, ipco.end) {
            Some(properties) => properties,
            None => {
                return None;
            },
        };
        assert(spans_lie_in(properties@, data@));
        let associations = match read_ipma(slice_subrange(data, ipma.start, ipma.end)) {
            Some(associations) => associations,
            None => {
                return None;
            },
        };
        let primary: u32 = match read_pitm(slice_subrange(data, pitm.start, pitm.end)) {
            Some(primary) => primary,
            None => {
                return None;
            },
        };
        let extents = match read_iloc(slice_subrange(data, iloc.start, iloc.end)) {
            Some(extents) => extents,
            None => {
                return None;
            },
        };
        // `iref` is only written by a file that has something to reference, so a
        // file without it is a file without an alpha item and without tiles.
        let references = match child(data, start, end, IREF) {
            Some(iref) => match read_references(slice_subrange(data, iref.start, iref.end)) {
                Some(references) => references,
                None => {
                    return None;
                },
            },
            None => Vec::new(),
        };
        assert(references_of(data@, start as int, end as int) == Some(
            items::references_view(references@),
        )) by {
            if boxes::child_of(data@, start as int, end as int, IREF) is None {
                assert(items::references_view(references@) =~= Seq::empty());
            }
        }
        let idat = match child(data, start, end, IDAT) {
            Some(idat) => Some((idat.start, idat.end)),
            None => None,
        };
        let aux = find_aux(&references, primary);
        // A tiled file is one item that references the tiles it is made of, and
        // its own payload describes the tiling rather than holding a picture.
        let grid = find_grid(&references, primary);
        let aux_properties = match aux {
            Some(item) => match find_numbers(&associations, item) {
                Some(at) => collect_properties(&properties, &associations[at].1, data),
                None => Vec::new(),
            },
            None => Vec::new(),
        };
        let read = Meta {
            boxes: vstd::slice::slice_to_vec(data),
            properties,
            associations,
            primary,
            extents,
            idat,
            aux,
            grid,
            aux_properties,
        };
        proof {
            let expected = meta_of(data@)->Some_0;
            assert(read@.aux_properties =~= expected.aux_properties);
            assert(read@.boxes =~= expected.boxes);
        }
        Some(read)
    }

    /// The properties of the primary item.
    pub fn primary_properties(&self) -> (properties: Option<Vec<BoxSpan>>)
        requires
            self@.valid(),
        ensures
            match properties {
                Some(properties) => {
                    &&& self@.primary_list() == Some(properties@)
                    &&& spans_lie_in(properties@, self@.boxes)
                },
                None => self@.primary_list() is None,
            },
    {
        match find_numbers(&self.associations, self.primary) {
            Some(at) => Some(
                collect_properties(
                    &self.properties,
                    &self.associations[at].1,
                    self.boxes.as_slice(),
                ),
            ),
            None => None,
        }
    }

    /// Whether an auxiliary item that names alpha belongs to the primary item.
    pub fn has_alpha(&self) -> (alpha: bool)
        requires
            self@.valid(),
        ensures
            alpha == self@.alpha(),
    {
        if self.aux.is_none() {
            return false;
        }
        let mut at: usize = 0;
        while at < self.aux_properties.len()
            invariant
                at <= self.aux_properties.len(),
                self.aux is Some,
                self@.valid(),
                forall|i: int|
                    0 <= i < at ==> !names_alpha(
                        self@.boxes,
                        #[trigger] self@.aux_properties[i],
                    ),
            decreases self.aux_properties.len() - at,
        {
            let span = self.aux_properties[at];
            assert(self@.aux_properties[at as int] == span);
            if span.kind == AUXC {
                let payload = slice_subrange(self.boxes.as_slice(), span.start, span.end);
                proof {
                    reveal_strlit("urn:mpeg:mpegB:cicp:systems:auxiliary:alpha");
                    reveal_strlit("urn:mpeg:hevc:2015:auxid:1");
                }
                if find_bytes(
                    payload,
                    "urn:mpeg:mpegB:cicp:systems:auxiliary:alpha",
                ).is_some() || find_bytes(payload, "urn:mpeg:hevc:2015:auxid:1").is_some() {
                    return true;
                }
            }
            at += 1;
        }
        false
    }

    /// Where the extents of an item stand in the list of them.
    fn find_location(&self, item: u32) -> (found: Option<usize>)
        ensures
            match found {
                Some(at) => {
                    &&& at < self.extents@.len()
                    &&& location_of(self@.extents, item) == Some(
                        (self.extents@[at as int].1, self.extents@[at as int].2@),
                    )
                },
                None => location_of(self@.extents, item) is None,
            },
    {
        let ghost whole = self@.extents;
        assert(whole.skip(0) =~= whole);
        let mut at: usize = 0;
        while at < self.extents.len()
            invariant
                at <= self.extents.len(),
                whole == self@.extents,
                location_of(whole, item) == location_of(whole.skip(at as int), item),
            decreases self.extents.len() - at,
        {
            assert(whole.skip(at as int)[0] == whole[at as int]);
            assert(whole.skip(at as int).skip(1) =~= whole.skip(at + 1));
            if self.extents[at].0 == item {
                return Some(at);
            }
            at += 1;
        }
        None
    }

    /// The bytes of the primary item's payload, up to `limit` of them, as where
    /// they start and end in the file.
    pub fn primary_data(&self, limit: usize) -> (range: Result<(usize, usize), ImgSeqError>)
        ensures
            match (range, self@.primary_range(limit as int)) {
                (Ok(range), Ok(expected)) => (range.0 as int, range.1 as int) == expected,
                (Err(error), Err(message)) => error@ == error::error_text(message),
                _ => false,
            },
    {
        match self.find_location(self.primary) {
            Some(at) => self.data_range(self.extents[at].1, &self.extents[at].2, limit),
            None => Err(
                ImgSeqError::from_display("the container does not locate its primary item"),
            ),
        }
    }

    /// The bytes of the alpha item's payload, when the container holds one, as
    /// where they start and end in the file.
    pub fn alpha_data(&self, limit: usize) -> (range: Result<Option<(usize, usize)>, ImgSeqError>)
        requires
            self@.valid(),
        ensures
            match (range, self@.alpha_range(limit as int)) {
                (Ok(Some(range)), Ok(Some(expected))) => (range.0 as int, range.1 as int)
                    == expected,
                (Ok(None), Ok(None)) => true,
                (Err(error), Err(message)) => error@ == error::error_text(message),
                _ => false,
            },
    {
        let aux: u32 = match self.aux {
            Some(aux) => aux,
            None => {
                return Ok(None);
            },
        };
        if !self.has_alpha() {
            return Ok(None);
        }
        match self.find_location(aux) {
            Some(at) => match self.data_range(self.extents[at].1, &self.extents[at].2, limit) {
                Ok(range) => Ok(Some(range)),
                Err(error) => Err(error),
            },
            None => Err(ImgSeqError::from_display("the container does not locate its alpha item")),
        }
    }

    /// One contiguous range of an item's bytes.
    ///
    /// An extent of an item written into `idat` is an offset into that box, and
    /// every other one is an offset into the file. Only a payload one extent
    /// holds is read here: a file that splits its item over several extents is
    /// left to the `image` decoder, which joins them.
    fn data_range(&self, method: u8, ranges: &Vec<(usize, usize)>, limit: usize) -> (range: Result<
        (usize, usize),
        ImgSeqError,
    >)
        ensures
            match (range, self@.located(method, ranges@, limit as int)) {
                (Ok(range), Ok(expected)) => (range.0 as int, range.1 as int) == expected,
                (Err(error), Err(message)) => error@ == error::error_text(message),
                _ => false,
            },
    {
        if ranges.len() == 0 {
            return Err(ImgSeqError::from_display("the container lists no data for an item"));
        }
        if ranges.len() > 1 {
            return Err(
                ImgSeqError::from_display(
                    "the item is split over several extents, which this reader does not join",
                ),
            );
        }
        let base: usize = match method {
            0 => 0,
            1 => match self.idat {
                Some((start, _)) => start,
                None => {
                    return Err(ImgSeqError::from_display("the container has no idat box"));
                },
            },
            _ => {
                return Err(
                    ImgSeqError::from_display(
                        "the item uses a construction method this reader does not read",
                    ),
                );
            },
        };
        let (offset, whole) = ranges[0];
        let length: usize = if whole <= limit {
            whole
        } else {
            limit
        };
        match base.checked_add(offset) {
            Some(start) => {
                proof {
                    items::lemma_wrapping_add(start, length);
                }
                Ok((start, start.wrapping_add(length)))
            },
            None => Err(ImgSeqError::from_display("the item is past the end of the file")),
        }
    }
}

/// Where the boxes that describe the items of a file are: in a `meta` box, behind its
/// version and flags, the primary item, the locations and the properties, and in the
/// properties their list and their associations. A file without one of them describes
/// none.
pub proof fn the_item_boxes_are_inside_the_meta_box(data: Seq<u8>)
    ensures
        match boxes::child_of(data, 0, data.len() as int, 0x6d65_7461) {
            None => item_boxes(data) is None,
            Some(meta) => {
                let start = meta.start + 4;
                let end = meta.end as int;
                let properties = boxes::child_of(data, start, end, 0x6970_7270);
                match item_boxes(data) {
                    Some((found, list, associations, primary, locations)) => {
                        &&& found == meta
                        &&& start <= end
                        &&& properties is Some
                        &&& boxes::child_of(
                            data,
                            properties.unwrap().start as int,
                            properties.unwrap().end as int,
                            0x6970_636f,
                        ) == Some(list)
                        &&& boxes::child_of(
                            data,
                            properties.unwrap().start as int,
                            properties.unwrap().end as int,
                            0x6970_6d61,
                        ) == Some(associations)
                        &&& boxes::child_of(data, start, end, 0x7069_746d) == Some(primary)
                        &&& boxes::child_of(data, start, end, 0x696c_6f63) == Some(locations)
                    },
                    None => {
                        ||| start > end
                        ||| properties is None
                        ||| boxes::child_of(data, start, end, 0x7069_746d) is None
                        ||| boxes::child_of(data, start, end, 0x696c_6f63) is None
                        ||| boxes::child_of(
                            data,
                            properties.unwrap().start as int,
                            properties.unwrap().end as int,
                            0x6970_636f,
                        ) is None
                        ||| boxes::child_of(
                            data,
                            properties.unwrap().start as int,
                            properties.unwrap().end as int,
                            0x6970_6d61,
                        ) is None
                    },
                }
            },
        },
{
}

/// What a file describes is what its boxes list, each read from its own box: the
/// properties, whose they are, the primary item, where the items are, and the box
/// some of them are in. Nothing is described where one of them cannot be read.
pub proof fn a_file_describes_what_its_boxes_list(data: Seq<u8>)
    ensures
        match (meta_of(data), item_boxes(data)) {
            (Some(view), Some((meta, list, associations, primary, locations))) => {
                let start = meta.start + 4;
                let end = meta.end as int;
                let references = references_of(data, start, end);
                &&& view.boxes == data
                &&& boxes::boxes_from(data, list.start as int, list.end as int) == Some(
                    view.properties,
                )
                &&& items::ipma_of(boxes::payload(data, associations)) == Some(view.associations)
                &&& pitm_of(boxes::payload(data, primary)) == Some(view.primary)
                &&& items::iloc_of(boxes::payload(data, locations)) == Some(view.extents)
                &&& references is Some
                &&& view.aux == aux_of(references.unwrap(), view.primary)
                &&& view.grid == (exists|i: int|
                    0 <= i < references.unwrap().len() && (#[trigger] references.unwrap()[i]).0
                        == 0x6469_6d67 && references.unwrap()[i].1 == view.primary)
                &&& match boxes::child_of(data, start, end, 0x6964_6174) {
                    Some(inner) => view.idat == Some((inner.start, inner.end)),
                    None => view.idat is None,
                }
                &&& view.aux is None ==> view.aux_properties.len() == 0
            },
            (Some(_), None) => false,
            (None, Some((meta, list, associations, primary, locations))) => {
                ||| boxes::boxes_from(data, list.start as int, list.end as int) is None
                ||| items::ipma_of(boxes::payload(data, associations)) is None
                ||| pitm_of(boxes::payload(data, primary)) is None
                ||| items::iloc_of(boxes::payload(data, locations)) is None
                ||| references_of(data, meta.start + 4, meta.end as int) is None
            },
            (None, None) => true,
        },
{
}

/// The primary item is stored behind the version and the flags, in two bytes in the
/// first version and in four after it.
pub proof fn the_primary_item_has_two_bytes_or_four(payload: Seq<u8>)
    ensures
        match pitm_of(payload) {
            Some(item) => {
                &&& payload[0] == 0 ==> payload.len() >= 6 && item == 0x100 * payload[4]
                    + payload[5]
                &&& payload[0] != 0 ==> payload.len() >= 8 && item == 0x100_0000 * payload[4]
                    + 0x1_0000 * payload[5] + 0x100 * payload[6] + payload[7]
            },
            None => payload.len() < 6 || (payload[0] != 0 && payload.len() < 8),
        },
{
}

/// A number names the property that many places down the list, counted from one, and
/// numbers that all name one leave the order as it is.
pub proof fn a_number_counts_the_properties_from_one(
    properties: Seq<BoxSpan>,
    numbers: Seq<u32>,
    index: int,
)
    requires
        forall|i: int| 0 <= i < numbers.len() ==> 1 <= #[trigger] numbers[i] <= properties.len(),
        0 <= index < numbers.len(),
    ensures
        named_properties(properties, numbers).len() == numbers.len(),
        named_properties(properties, numbers)[index] == properties[numbers[index] - 1],
    decreases numbers.len(),
{
    let before = numbers.drop_last();
    assert forall|i: int| 0 <= i < before.len() implies 1 <= #[trigger] before[i]
        <= properties.len() by {
        assert(before[i] == numbers[i]);
    }
    if index < before.len() {
        a_number_counts_the_properties_from_one(properties, before, index);
    } else if before.len() > 0 {
        a_number_counts_the_properties_from_one(properties, before, 0);
    } else {
        assert(named_properties(properties, before).len() == 0);
    }
}

/// A number that names no property, zero or one past the list, is passed over.
pub proof fn a_number_without_a_property_is_passed_over(
    properties: Seq<BoxSpan>,
    numbers: Seq<u32>,
    number: u32,
)
    requires
        number == 0 || number > properties.len(),
    ensures
        named_properties(properties, numbers.push(number)) == named_properties(properties, numbers),
{
    assert(numbers.push(number).drop_last() =~= numbers);
}

proof fn lemma_first_numbers(associations: Seq<(u32, Seq<u32>)>, item: u32)
    ensures
        match numbers_of(associations, item) {
            Some(numbers) => exists|i: int|
                0 <= i < associations.len() && (#[trigger] associations[i]).0 == item
                    && associations[i].1 == numbers && forall|j: int|
                    0 <= j < i ==> (#[trigger] associations[j]).0 != item,
            None => forall|i: int|
                0 <= i < associations.len() ==> (#[trigger] associations[i]).0 != item,
        },
    decreases associations.len(),
{
    if associations.len() > 0 {
        if associations[0].0 == item {
            assert(associations[0].1 == numbers_of(associations, item).unwrap());
        } else {
            let rest = associations.skip(1);
            lemma_first_numbers(rest, item);
            match numbers_of(rest, item) {
                Some(numbers) => {
                    let i = choose|i: int|
                        0 <= i < rest.len() && (#[trigger] rest[i]).0 == item && rest[i].1
                            == numbers && forall|j: int|
                            0 <= j < i ==> (#[trigger] rest[j]).0 != item;
                    assert(associations[i + 1] == rest[i]);
                    assert forall|j: int| 0 <= j < i + 1 implies (#[trigger] associations[j]).0
                        != item by {
                        if j > 0 {
                            assert(rest[j - 1] == associations[j]);
                        }
                    }
                },
                None => {
                    assert forall|i: int| 0 <= i < associations.len() implies (
                    #[trigger] associations[i]).0 != item by {
                        if i > 0 {
                            assert(rest[i - 1] == associations[i]);
                        }
                    }
                },
            }
        }
    }
}

/// The properties of the primary item are those its first association numbers, and it
/// has none where no association is its own.
pub proof fn the_first_association_of_an_item_counts(view: MetaView)
    ensures
        match view.primary_list() {
            Some(list) => exists|i: int|
                0 <= i < view.associations.len() && (#[trigger] view.associations[i]).0
                    == view.primary && list == named_properties(
                    view.properties,
                    view.associations[i].1,
                ) && forall|j: int|
                    0 <= j < i ==> (#[trigger] view.associations[j]).0 != view.primary,
            None => forall|i: int|
                0 <= i < view.associations.len() ==> (#[trigger] view.associations[i]).0
                    != view.primary,
        },
{
    lemma_first_numbers(view.associations, view.primary);
    if view.primary_list() is Some {
        let numbers = numbers_of(view.associations, view.primary).unwrap();
        let i = choose|i: int|
            0 <= i < view.associations.len() && (#[trigger] view.associations[i]).0 == view.primary
                && view.associations[i].1 == numbers && forall|j: int|
                0 <= j < i ==> (#[trigger] view.associations[j]).0 != view.primary;
        assert(view.associations[i].0 == view.primary);
    }
}

proof fn lemma_first_location(extents: Seq<(u32, u8, Seq<(usize, usize)>)>, item: u32)
    ensures
        match location_of(extents, item) {
            Some((method, ranges)) => exists|i: int|
                0 <= i < extents.len() && #[trigger] extents[i] == (item, method, ranges)
                    && forall|j: int| 0 <= j < i ==> (#[trigger] extents[j]).0 != item,
            None => forall|i: int| 0 <= i < extents.len() ==> (#[trigger] extents[i]).0 != item,
        },
    decreases extents.len(),
{
    if extents.len() > 0 {
        if extents[0].0 == item {
            assert(extents[0] == (item, extents[0].1, extents[0].2));
        } else {
            let rest = extents.skip(1);
            lemma_first_location(rest, item);
            match location_of(rest, item) {
                Some((method, ranges)) => {
                    let i = choose|i: int|
                        0 <= i < rest.len() && #[trigger] rest[i] == (item, method, ranges)
                            && forall|j: int| 0 <= j < i ==> (#[trigger] rest[j]).0 != item;
                    assert(extents[i + 1] == rest[i]);
                    assert forall|j: int| 0 <= j < i + 1 implies (#[trigger] extents[j]).0
                        != item by {
                        if j > 0 {
                            assert(rest[j - 1] == extents[j]);
                        }
                    }
                },
                None => {
                    assert forall|i: int| 0 <= i < extents.len() implies (#[trigger] extents[i]).0
                        != item by {
                        if i > 0 {
                            assert(rest[i - 1] == extents[i]);
                        }
                    }
                },
            }
        }
    }
}

/// The primary item is read from where its first location has it: its one extent, in
/// the file itself or, where it is constructed so, in the `idat` box, and no more of
/// it than the limit. An item that is split, or is not in either place, is refused.
pub proof fn the_primary_item_is_read_from_its_location(view: MetaView, limit: int)
    requires
        0 <= limit,
    ensures
        match view.primary_range(limit) {
            Ok((start, end)) => exists|i: int|
                0 <= i < view.extents.len() && (#[trigger] view.extents[i]).0 == view.primary && ({
                    let (_, method, ranges) = view.extents[i];
                    let (offset, length) = ranges[0];
                    &&& ranges.len() == 1
                    &&& method == 0 || method == 1
                    &&& method == 1 ==> view.idat is Some
                    &&& start == offset + (if method == 1 {
                        view.idat.unwrap().0 as int
                    } else {
                        0
                    })
                    &&& start + (if length <= limit {
                        length as int
                    } else {
                        limit
                    }) <= usize::MAX ==> end == start + (if length <= limit {
                        length as int
                    } else {
                        limit
                    })
                }) && forall|j: int| 0 <= j < i ==> (#[trigger] view.extents[j]).0 != view.primary,
            Err(_) => {
                ||| forall|i: int|
                    0 <= i < view.extents.len() ==> (#[trigger] view.extents[i]).0 != view.primary
                ||| exists|i: int|
                    0 <= i < view.extents.len() && (#[trigger] view.extents[i]).0 == view.primary
                        && ({
                        let (_, method, ranges) = view.extents[i];
                        ||| ranges.len() != 1
                        ||| method > 1
                        ||| method == 1 && (view.idat is None || view.idat.unwrap().0
                            + ranges[0].0 > usize::MAX)
                    })
            },
        },
{
    lemma_first_location(view.extents, view.primary);
    match location_of(view.extents, view.primary) {
        Some((method, ranges)) => {
            let i = choose|i: int|
                0 <= i < view.extents.len() && #[trigger] view.extents[i] == (
                    view.primary,
                    method,
                    ranges,
                ) && forall|j: int| 0 <= j < i ==> (#[trigger] view.extents[j]).0 != view.primary;
            assert(view.extents[i].0 == view.primary);
            match view.primary_range(limit) {
                Ok((start, end)) => {
                    let length = if ranges[0].1 <= limit {
                        ranges[0].1 as int
                    } else {
                        limit
                    };
                    if start + length <= usize::MAX {
                        vstd::arithmetic::div_mod::lemma_small_mod(
                            (start + length) as nat,
                            (usize::MAX + 1) as nat,
                        );
                    }
                },
                Err(_) => {},
            }
        },
        None => {},
    }
}

/// An image has an alpha item when an item of the auxiliary kind refers to the image
/// and one of that item's properties is of the kind and holds one of the two names of
/// alpha.
pub proof fn an_alpha_item_names_itself(view: MetaView)
    ensures
        view.alpha() == (view.aux is Some && exists|i: int|
            0 <= i < view.aux_properties.len() && (#[trigger] view.aux_properties[i]).kind
                == 0x6175_7843 && ({
                let payload = boxes::payload(view.boxes, view.aux_properties[i]);
                ||| holds_text(payload, "urn:mpeg:mpegB:cicp:systems:auxiliary:alpha"@)
                ||| holds_text(payload, "urn:mpeg:hevc:2015:auxid:1"@)
            })),
{
    if view.alpha() {
        let i = choose|i: int|
            0 <= i < view.aux_properties.len() && names_alpha(
                view.boxes,
                #[trigger] view.aux_properties[i],
            );
        assert(view.aux_properties[i].kind == 0x6175_7843);
    } else if view.aux is Some {
        assert forall|i: int| 0 <= i < view.aux_properties.len() implies !names_alpha(
            view.boxes,
            #[trigger] view.aux_properties[i],
        ) by {}
    }
}

/// The auxiliary item of an image is the one the first `auxl` reference to the image
/// is from.
pub proof fn an_auxiliary_item_refers_to_its_image(
    references: Seq<(u32, u32, Seq<u32>)>,
    primary: u32,
)
    ensures
        match aux_of(references, primary) {
            Some(item) => exists|i: int|
                0 <= i < references.len() && (#[trigger] references[i]).0 == 0x6175_786c
                    && references[i].1 == item && references[i].2.contains(primary) && forall|
                    j: int,
                |
                    0 <= j < i ==> (#[trigger] references[j]).0 != 0x6175_786c
                        || !references[j].2.contains(primary),
            None => forall|i: int|
                0 <= i < references.len() ==> (#[trigger] references[i]).0 != 0x6175_786c
                    || !references[i].2.contains(primary),
        },
    decreases references.len(),
{
    if references.len() > 0 {
        if references[0].0 == AUXL && references[0].2.contains(primary) {
            assert(references[0].1 == aux_of(references, primary).unwrap());
        } else {
            let rest = references.skip(1);
            an_auxiliary_item_refers_to_its_image(rest, primary);
            match aux_of(rest, primary) {
                Some(item) => {
                    let i = choose|i: int|
                        0 <= i < rest.len() && (#[trigger] rest[i]).0 == 0x6175_786c && rest[i].1
                            == item && rest[i].2.contains(primary) && forall|j: int|
                            0 <= j < i ==> (#[trigger] rest[j]).0 != 0x6175_786c
                                || !rest[j].2.contains(primary);
                    assert(references[i + 1] == rest[i]);
                    assert forall|j: int| 0 <= j < i + 1 implies (#[trigger] references[j]).0
                        != 0x6175_786c || !references[j].2.contains(primary) by {
                        if j > 0 {
                            assert(rest[j - 1] == references[j]);
                        }
                    }
                },
                None => {
                    assert forall|i: int| 0 <= i < references.len() implies (
                    #[trigger] references[i]).0 != 0x6175_786c || !references[i].2.contains(
                        primary,
                    ) by {
                        if i > 0 {
                            assert(rest[i - 1] == references[i]);
                        }
                    }
                },
            }
        }
    }
}

} // verus!
