//! A frame: what it declares about its samples, its planes and the properties
//! attached to it.

use vstd::prelude::*;

use crate::pixel::samples;
use crate::pixel::PixelFormat;
use crate::text::eq_text;

verus! {

#[derive(Clone, Copy, Debug, PartialEq, Eq, Structural)]
pub enum ColorFamily {
    /// The family of a clip whose frames are not all of one.
    Undefined,
    Gray,
    RGB,
    YUV,
}

#[derive(Clone, Copy, Debug, PartialEq, Eq, Structural)]
pub enum SampleType {
    Integer,
    Float,
}

/// The order the bytes of a sample wider than one byte are stored in.
#[derive(Clone, Copy, Debug, PartialEq, Eq, Structural)]
pub enum ByteOrder {
    Little,
    Big,
}

/// `u16::from_ne_bytes`: the number two bytes of memory are, in whichever of the
/// two orders this machine stores its numbers.
#[verifier::external_body]
fn native_word(first: u8, second: u8) -> (word: u16)
    ensures
        word == first + 256 * second || word == 256 * first + second,
{
    u16::from_ne_bytes([first, second])
}

/// The order in which a byte of one and a byte of zero are the number `word`,
/// which is one or 256.
pub fn order_of_word(word: u16) -> (order: ByteOrder)
    ensures
        order == (if word == 1 {
            ByteOrder::Little
        } else {
            ByteOrder::Big
        }),
        word == 1 || word == 256 ==> samples::word_value(seq![1u8, 0u8], order) == word,
{
    if word == 1 {
        ByteOrder::Little
    } else {
        ByteOrder::Big
    }
}

/// The order this machine stores the bytes of a number in, which is the order a
/// frame holds its samples in: the one [`order_of_word`] reads from the number
/// the machine takes a byte of one and a byte of zero for. Which of the two it
/// is, nothing but the machine decides.
pub fn native_order() -> (order: ByteOrder) {
    order_of_word(native_word(1, 0))
}

/// What a frame declares about its planes.
#[derive(Clone, Copy, Debug, PartialEq, Eq, Structural)]
pub struct VideoFormat {
    pub color_family: ColorFamily,
    pub sample_type: SampleType,
    pub bits_per_sample: i32,
    pub bytes_per_sample: i32,
    pub sub_sampling_w: i32,
    pub sub_sampling_h: i32,
    pub num_planes: i32,
}

impl VideoFormat {
    /// The declaration of a frame of `format`.
    pub open spec fn of(format: PixelFormat) -> VideoFormat {
        VideoFormat {
            color_family: format.family(),
            sample_type: if format.float() {
                SampleType::Float
            } else {
                SampleType::Integer
            },
            bits_per_sample: format.bits() as i32,
            bytes_per_sample: format.word() as i32,
            sub_sampling_w: format.subsampling().0 as i32,
            sub_sampling_h: format.subsampling().1 as i32,
            num_planes: format.planes() as i32,
        }
    }

    /// Whether the declared depth can be reached by moving samples of the
    /// declared size down: only a two byte word ever names a depth below its
    /// own, and no depth is zero.
    pub open spec fn depth_is_sound(self) -> bool {
        &&& self.bytes_per_sample == 1 ==> !(0 <= self.bits_per_sample < 8)
        &&& self.bytes_per_sample == 2 ==> self.bits_per_sample != 0
        &&& self.bytes_per_sample == 4 ==> !(0 <= self.bits_per_sample < 32)
    }
}

/// One plane of a frame: its rows from top to bottom, each as wide as the
/// stride, of which the first bytes are samples and the rest is padding.
#[derive(Debug)]
pub struct Plane {
    pub stride: usize,
    pub rows: Vec<Vec<u8>>,
}

impl Plane {
    pub open spec fn valid(self) -> bool {
        forall|row: int|
            0 <= row < self.rows@.len() ==> (#[trigger] self.rows@[row])@.len() == self.stride
    }
}

/// Value of one property of a frame.
#[derive(Debug)]
pub enum PropertyValue {
    Int(i64),
    Utf8(String),
    Data(Vec<u8>),
}

/// What a property holds.
#[verifier::ext_equal]
pub enum PropertyView {
    Int(int),
    Utf8(Seq<char>),
    Data(Seq<u8>),
}

impl View for PropertyValue {
    type V = PropertyView;

    open spec fn view(&self) -> PropertyView {
        match *self {
            PropertyValue::Int(value) => PropertyView::Int(value as int),
            PropertyValue::Utf8(text) => PropertyView::Utf8(text@),
            PropertyValue::Data(bytes) => PropertyView::Data(bytes@),
        }
    }
}

/// The map a list of entries stands for: of two entries with the same key, the
/// later one counts.
pub open spec fn entries_map(entries: Seq<(String, PropertyValue)>) -> Map<
    Seq<char>,
    PropertyView,
>
    decreases entries.len(),
{
    if entries.len() == 0 {
        Map::empty()
    } else {
        entries_map(entries.drop_last()).insert(entries.last().0@, entries.last().1@)
    }
}

/// The properties of a frame, each with one value.
#[derive(Debug)]
pub struct Properties {
    entries: Vec<(String, PropertyValue)>,
}

impl View for Properties {
    type V = Map<Seq<char>, PropertyView>;

    closed spec fn view(&self) -> Map<Seq<char>, PropertyView> {
        entries_map(self.entries@)
    }
}

proof fn lemma_replaced(
    entries: Seq<(String, PropertyValue)>,
    at: int,
    key: Seq<char>,
    value: PropertyView,
)
    requires
        0 <= at < entries.len(),
        entries[at].0@ == key,
    ensures
        entries_map(entries.remove(at)).insert(key, value) == entries_map(entries).insert(
            key,
            value,
        ),
    decreases entries.len(),
{
    let shorter = entries.remove(at);
    if at == entries.len() - 1 {
        assert(shorter =~= entries.drop_last());
        assert(entries_map(shorter).insert(key, value) =~= entries_map(entries).insert(key, value));
    } else {
        let last = entries.last();
        assert(shorter.drop_last() =~= entries.drop_last().remove(at));
        assert(shorter.last() == last);
        lemma_replaced(entries.drop_last(), at, key, value);
        let left = entries_map(shorter.drop_last());
        let right = entries_map(entries.drop_last());
        assert(left.insert(key, value) == right.insert(key, value));
        let joined_left = left.insert(last.0@, last.1@).insert(key, value);
        let joined_right = right.insert(last.0@, last.1@).insert(key, value);
        assert forall|k: Seq<char>|
            (#[trigger] joined_left.dom().contains(k)) == joined_right.dom().contains(k) by {
            assert(left.insert(key, value).dom().contains(k) == right.insert(
                key,
                value,
            ).dom().contains(k));
        }
        assert forall|k: Seq<char>| #[trigger] joined_left.dom().contains(k) implies joined_left[k]
            == joined_right[k] by {
            assert(left.insert(key, value).dom().contains(k) == right.insert(
                key,
                value,
            ).dom().contains(k));
            assert(left.insert(key, value)[k] == right.insert(key, value)[k]);
        }
        assert(joined_left =~= joined_right);
    }
}

proof fn lemma_last_entry_counts(entries: Seq<(String, PropertyValue)>, at: int)
    requires
        0 <= at < entries.len(),
        forall|i: int| at < i < entries.len() ==> entries[i].0@ != entries[at].0@,
    ensures
        entries_map(entries).contains_key(entries[at].0@),
        entries_map(entries)[entries[at].0@] == entries[at].1@,
    decreases entries.len(),
{
    if at < entries.len() - 1 {
        lemma_last_entry_counts(entries.drop_last(), at);
    }
}

proof fn lemma_no_entry(entries: Seq<(String, PropertyValue)>, key: Seq<char>)
    requires
        forall|i: int| 0 <= i < entries.len() ==> (#[trigger] entries[i]).0@ != key,
    ensures
        !entries_map(entries).contains_key(key),
    decreases entries.len(),
{
    if entries.len() > 0 {
        lemma_no_entry(entries.drop_last(), key);
    }
}

impl Properties {
    /// A frame's properties before any is set.
    pub fn new() -> (properties: Self)
        ensures
            properties@ == Map::<Seq<char>, PropertyView>::empty(),
    {
        Properties { entries: Vec::new() }
    }

    /// Gives the property `key` the value `value` and no other.
    pub fn set(&mut self, key: &str, value: PropertyValue)
        ensures
            final(self)@ == old(self)@.insert(key@, value@),
    {
        let ghost before = self.entries@;
        match self.position(key) {
            Some(at) => {
                proof {
                    lemma_replaced(before, at as int, key@, value@);
                }
                let _ = self.entries.remove(at);
            },
            None => {},
        }
        let ghost kept = self.entries@;
        self.entries.push((String::from_str(key), value));
        assert(self.entries@.drop_last() =~= kept);
    }

    fn position(&self, key: &str) -> (position: Option<usize>)
        ensures
            match position {
                Some(at) => {
                    &&& at < self.entries@.len()
                    &&& self.entries@[at as int].0@ == key@
                    &&& forall|i: int|
                        at < i < self.entries@.len() ==> (#[trigger] self.entries@[i]).0@ != key@
                },
                None => forall|i: int|
                    0 <= i < self.entries@.len() ==> (#[trigger] self.entries@[i]).0@ != key@,
            },
    {
        let mut at: usize = self.entries.len();
        while at > 0
            invariant
                at <= self.entries.len(),
                forall|i: int|
                    at <= i < self.entries@.len() ==> (#[trigger] self.entries@[i]).0@ != key@,
            decreases at,
        {
            at -= 1;
            if eq_text(self.entries[at].0.as_str(), key) {
                return Some(at);
            }
        }
        None
    }

    /// The value of the property `key`, if it has one.
    pub fn get(&self, key: &str) -> (value: Option<&PropertyValue>)
        ensures
            match value {
                Some(value) => self@.contains_key(key@) && self@[key@] == value@,
                None => !self@.contains_key(key@),
            },
    {
        match self.position(key) {
            Some(at) => {
                proof {
                    lemma_last_entry_counts(self.entries@, at as int);
                }
                Some(&self.entries[at].1)
            },
            None => {
                proof {
                    lemma_no_entry(self.entries@, key@);
                }
                None
            },
        }
    }

    /// How many entries there are to hand over.
    pub fn len(&self) -> (count: usize)
        ensures
            count == self.listed().len(),
    {
        self.entries.len()
    }

    /// The entries in the order they are handed over.
    pub closed spec fn listed(&self) -> Seq<(String, PropertyValue)> {
        self.entries@
    }

    /// The properties are what their entries, handed over in order, leave.
    pub proof fn listed_entries_are_the_properties(&self)
        ensures
            self@ == entries_map(self.listed()),
    {
    }

    /// The entry at `index`, in the order they are handed over.
    pub fn entry(&self, index: usize) -> (entry: (&str, &PropertyValue))
        requires
            index < self.listed().len(),
        ensures
            entry.0@ == self.listed()[index as int].0@,
            *entry.1 == self.listed()[index as int].1,
    {
        (self.entries[index].0.as_str(), &self.entries[index].1)
    }
}

/// A frame, whose samples are stored in `order`.
#[derive(Debug)]
pub struct Frame {
    pub format: VideoFormat,
    pub order: ByteOrder,
    pub planes: Vec<Plane>,
    pub properties: Properties,
}

impl Frame {
    /// Whether every row of every plane is as wide as the plane's stride.
    pub open spec fn valid(self) -> bool {
        forall|plane: int| 0 <= plane < self.planes@.len() ==> (#[trigger] self.planes@[plane]).valid()
    }

    /// Whether plane `plane`, if there is one, has at least `rows` rows.
    pub open spec fn has_rows(self, plane: int, rows: int) -> bool {
        0 <= plane < self.planes@.len() ==> rows <= self.planes@[plane].rows@.len()
    }
}

/// Whether a plane has `rows` rows of `stride` bytes, all of them zero.
pub open spec fn blank_plane(plane: Plane, stride: int, rows: int) -> bool {
    &&& plane.stride == stride
    &&& plane.rows@.len() == rows
    &&& forall|row: int|
        0 <= row < rows ==> (#[trigger] plane.rows@[row])@ == Seq::new(
            stride as nat,
            |at: int| 0u8,
        )
}

/// Makes a plane of zeros.
fn make_plane(stride: usize, rows: usize) -> (plane: Plane)
    ensures
        blank_plane(plane, stride as int, rows as int),
        plane.valid(),
{
    let mut made: Vec<Vec<u8>> = Vec::new();
    let mut row: usize = 0;
    while row < rows
        invariant
            row <= rows,
            made@.len() == row,
            forall|before: int|
                0 <= before < row ==> (#[trigger] made@[before])@ == Seq::new(
                    stride as nat,
                    |at: int| 0u8,
                ),
        decreases rows - row,
    {
        let zeros: Vec<u8> = vec![0u8; stride];
        assert(zeros@ =~= Seq::new(stride as nat, |at: int| 0u8));
        made.push(zeros);
        row = row + 1;
    }
    Plane { stride, rows: made }
}

/// The bytes a row of `row` bytes takes where every row starts on a multiple of
/// `alignment` bytes.
pub open spec fn padded(row: int, alignment: int) -> int {
    if row % alignment == 0 {
        row
    } else {
        row - row % alignment + alignment
    }
}

fn pad(row: usize, alignment: usize) -> (stride: Option<usize>)
    requires
        0 < alignment,
    ensures
        match stride {
            Some(stride) => stride == padded(row as int, alignment as int),
            None => padded(row as int, alignment as int) > usize::MAX,
        },
{
    let rest: usize = row % alignment;
    proof {
        vstd::arithmetic::div_mod::lemma_mod_decreases(row as nat, alignment as nat);
    }
    if rest == 0 {
        Some(row)
    } else {
        (row - rest).checked_add(alignment)
    }
}

proof fn lemma_padded(shorter: int, longer: int, alignment: int)
    requires
        0 <= shorter <= longer,
        0 < alignment,
    ensures
        padded(shorter, alignment) <= padded(longer, alignment),
{
    let short_rest = shorter % alignment;
    let long_rest = longer % alignment;
    let few = shorter / alignment;
    let many = longer / alignment;
    vstd::arithmetic::div_mod::lemma_fundamental_div_mod(shorter, alignment);
    vstd::arithmetic::div_mod::lemma_fundamental_div_mod(longer, alignment);
    vstd::arithmetic::div_mod::lemma_mod_bound(shorter, alignment);
    vstd::arithmetic::div_mod::lemma_mod_bound(longer, alignment);
    vstd::arithmetic::div_mod::lemma_div_is_ordered(shorter, longer, alignment);
    if few < many {
        assert(alignment * few + alignment <= alignment * many) by (nonlinear_arith)
            requires
                few + 1 <= many,
                0 < alignment,
        ;
    }
}

impl VideoFormat {
    /// The declaration of a frame of `format`.
    pub fn new(format: PixelFormat) -> (declared: VideoFormat)
        ensures
            declared == VideoFormat::of(format),
            declared.depth_is_sound(),
    {
        let (sub_sampling_w, sub_sampling_h) = format.sub_sampling();
        VideoFormat {
            color_family: format.color_family(),
            sample_type: format.sample_type(),
            bits_per_sample: format.bits_per_sample(),
            bytes_per_sample: format.bytes_per_sample() as i32,
            sub_sampling_w,
            sub_sampling_h,
            num_planes: format.plane_count() as i32,
        }
    }
}

/// Whether `frame` is a frame of `format` and of a size that nothing has been
/// written into.
pub open spec fn blank_frame(
    frame: Frame,
    format: PixelFormat,
    width: int,
    height: int,
    order: ByteOrder,
    alignment: int,
) -> bool {
    &&& frame.format == VideoFormat::of(format)
    &&& frame.order == order
    &&& frame.properties@ == Map::<Seq<char>, PropertyView>::empty()
    &&& frame.planes@.len() == format.planes()
    &&& forall|plane: int|
        0 <= plane < format.planes() ==> blank_plane(
            #[trigger] frame.planes@[plane],
            padded(format.frame_plane(plane, width, height).0 * format.word(), alignment),
            format.frame_plane(plane, width, height).1,
        )
}

/// Whether `frame` has the planes of a frame of `format` and of a size.
pub open spec fn shaped(frame: Frame, format: PixelFormat, width: int, height: int) -> bool {
    &&& frame.format == VideoFormat::of(format)
    &&& frame.planes@.len() == format.planes()
    &&& forall|plane: int|
        0 <= plane < format.planes() ==> (#[trigger] frame.planes@[plane]).rows@.len()
            == format.frame_plane(plane, width, height).1
}

/// Makes a frame nothing has been written into, if its rows can be addressed.
pub fn make_frame(
    format: PixelFormat,
    width: u32,
    height: u32,
    order: ByteOrder,
    alignment: usize,
) -> (frame: Option<Frame>)
    requires
        0 < alignment,
    ensures
        match frame {
            Some(frame) => {
                &&& blank_frame(
                    frame,
                    format,
                    width as int,
                    height as int,
                    order,
                    alignment as int,
                )
                &&& frame.valid()
                &&& frame.format.depth_is_sound()
                &&& padded(width * format.word(), alignment as int) <= usize::MAX
            },
            None => padded(width * format.word(), alignment as int) > usize::MAX,
        },
{
    let count: usize = format.plane_count();
    let word: usize = format.bytes_per_sample();
    let mut planes: Vec<Plane> = Vec::new();
    let mut index: usize = 0;
    while index < count
        invariant
            index <= count,
            count == format.planes(),
            1 <= count <= 3,
            word == format.word(),
            1 <= word <= 4,
            0 < alignment,
            planes@.len() == index,
            0 < index ==> padded(width * format.word(), alignment as int) <= usize::MAX,
            forall|plane: int|
                0 <= plane < index ==> (#[trigger] planes@[plane]).valid() && blank_plane(
                    planes@[plane],
                    padded(
                        format.frame_plane(plane, width as int, height as int).0 * format.word(),
                        alignment as int,
                    ),
                    format.frame_plane(plane, width as int, height as int).1,
                ),
        decreases count - index,
    {
        let (plane_width, plane_height) = format.frame_plane_dimensions(
            index,
            width as usize,
            height as usize,
        );
        proof {
            assert(0 <= plane_width * word <= width * word) by (nonlinear_arith)
                requires
                    0 <= plane_width <= width,
                    0 <= word,
            ;
            lemma_padded(plane_width * word, width * word, alignment as int);
            vstd::arithmetic::div_mod::lemma_mod_bound(plane_width * word, alignment as int);
        }
        let row: usize = match plane_width.checked_mul(word) {
            Some(row) => row,
            None => {
                return None;
            },
        };
        let stride: usize = match pad(row, alignment) {
            Some(stride) => stride,
            None => {
                return None;
            },
        };
        planes.push(make_plane(stride, plane_height));
        index = index + 1;
    }
    Some(
        Frame { format: VideoFormat::new(format), order, planes, properties: Properties::new() },
    )
}

/// A padded row is the next multiple of the alignment: it holds the row, and leaves
/// less than an alignment of it unused.
pub proof fn a_row_is_padded_to_the_next_multiple(row: int, alignment: int)
    requires
        0 <= row,
        0 < alignment,
    ensures
        padded(row, alignment) % alignment == 0,
        row <= padded(row, alignment) < row + alignment,
{
    vstd::arithmetic::div_mod::lemma_fundamental_div_mod(row, alignment);
    vstd::arithmetic::div_mod::lemma_mod_bound(row, alignment);
    if row % alignment != 0 {
        let whole = row / alignment;
        assert(padded(row, alignment) == (whole + 1) * alignment) by (nonlinear_arith)
            requires
                row == alignment * whole + row % alignment,
                padded(row, alignment) == row - row % alignment + alignment,
        ;
        vstd::arithmetic::div_mod::lemma_mod_multiples_basic(whole + 1, alignment);
    }
}

/// What is declared of a frame is what its format is, number by number, and its depth is
/// one that samples of its size can be moved to.
pub proof fn a_declaration_is_its_format(format: PixelFormat)
    ensures
        ({
            let declared = VideoFormat::of(format);
            &&& declared.color_family == format.family()
            &&& (declared.sample_type == SampleType::Float) == format.float()
            &&& declared.bits_per_sample == format.bits()
            &&& declared.bytes_per_sample == format.word()
            &&& declared.sub_sampling_w == format.subsampling().0
            &&& declared.sub_sampling_h == format.subsampling().1
            &&& declared.num_planes == format.planes()
            &&& declared.depth_is_sound()
        }),
{
}

/// A property is read back under its key, and a later value takes the place of an
/// earlier one; the other keys stay as they are.
pub proof fn a_property_is_read_back_under_its_key(
    entries: Seq<(String, PropertyValue)>,
    entry: (String, PropertyValue),
    key: Seq<char>,
)
    ensures
        entries_map(entries.push(entry)).contains_pair(entry.0@, entry.1@),
        key != entry.0@ ==> entries_map(entries.push(entry)).dom().contains(key) == entries_map(
            entries,
        ).dom().contains(key),
        key != entry.0@ && entries_map(entries).dom().contains(key) ==> entries_map(
            entries.push(entry),
        )[key] == entries_map(entries)[key],
{
    assert(entries.push(entry).drop_last() =~= entries);
}

} // verus!
