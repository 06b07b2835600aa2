//! The formats a frame is handed out in.

use vstd::prelude::*;

use vstd::arithmetic::power2::pow2;

use crate::error::ImgSeqError;
use crate::frame::{ColorFamily, SampleType};
use crate::image_types::ColorType;
use crate::text;

verus! {

#[derive(Clone, Copy, Debug, PartialEq, Eq, Structural)]
pub enum PixelFormat {
    Gray8,
    /// Planar 4:2:0, the format lossy webp is decoded into.
    Yuv420P8,
    /// Planar 4:2:0 at ten bits, which is what a ten bit heif or avif holds.
    Yuv420P10,
    /// Planar 4:2:2.
    Yuv422P8,
    Yuv422P10,
    /// Planar 4:4:4.
    Yuv444P8,
    Yuv444P10,
    Yuv444P12,
    Yuv444P16,
    /// Gray or r,g,b at the depth a container states, for the depths between
    /// the eight bits and the sixteen bits a decoder's colour type knows. See
    /// [`PixelFormat::at_depth`].
    Gray9,
    Gray10,
    Gray11,
    Gray12,
    Gray13,
    Gray14,
    Gray15,
    Gray16,
    Gray32F,
    Rgb8,
    Rgb9,
    Rgb10,
    Rgb11,
    Rgb12,
    Rgb13,
    Rgb14,
    Rgb15,
    Rgb16,
    Rgb32F,
}

/// `value`, or the largest number a `usize` holds when it is larger.
pub open spec fn saturated(value: int) -> int {
    if value > usize::MAX {
        usize::MAX as int
    } else {
        value
    }
}

/// Half of `value`, rounded up.
pub open spec fn half_up(value: int) -> int {
    (value + 1) / 2
}

impl PixelFormat {
    /// Significant bits of one sample.
    pub open spec fn bits(self) -> int {
        match self {
            PixelFormat::Gray8
            | PixelFormat::Rgb8
            | PixelFormat::Yuv420P8
            | PixelFormat::Yuv422P8
            | PixelFormat::Yuv444P8 => 8,
            PixelFormat::Gray9 | PixelFormat::Rgb9 => 9,
            PixelFormat::Gray10
            | PixelFormat::Rgb10
            | PixelFormat::Yuv420P10
            | PixelFormat::Yuv422P10
            | PixelFormat::Yuv444P10 => 10,
            PixelFormat::Gray11 | PixelFormat::Rgb11 => 11,
            PixelFormat::Gray12 | PixelFormat::Rgb12 | PixelFormat::Yuv444P12 => 12,
            PixelFormat::Gray13 | PixelFormat::Rgb13 => 13,
            PixelFormat::Gray14 | PixelFormat::Rgb14 => 14,
            PixelFormat::Gray15 | PixelFormat::Rgb15 => 15,
            PixelFormat::Gray16 | PixelFormat::Rgb16 | PixelFormat::Yuv444P16 => 16,
            PixelFormat::Gray32F | PixelFormat::Rgb32F => 32,
        }
    }

    /// Bytes of the word one sample is stored in: the smallest of one, two and
    /// four that holds its bits.
    pub open spec fn word(self) -> int {
        if self.bits() <= 8 {
            1
        } else if self.bits() <= 16 {
            2
        } else {
            4
        }
    }

    /// The family of colours its planes hold.
    pub open spec fn family(self) -> ColorFamily {
        match self {
            PixelFormat::Gray8
            | PixelFormat::Gray9
            | PixelFormat::Gray10
            | PixelFormat::Gray11
            | PixelFormat::Gray12
            | PixelFormat::Gray13
            | PixelFormat::Gray14
            | PixelFormat::Gray15
            | PixelFormat::Gray16
            | PixelFormat::Gray32F => ColorFamily::Gray,
            PixelFormat::Rgb8
            | PixelFormat::Rgb9
            | PixelFormat::Rgb10
            | PixelFormat::Rgb11
            | PixelFormat::Rgb12
            | PixelFormat::Rgb13
            | PixelFormat::Rgb14
            | PixelFormat::Rgb15
            | PixelFormat::Rgb16
            | PixelFormat::Rgb32F => ColorFamily::RGB,
            _ => ColorFamily::YUV,
        }
    }

    /// Whether its samples are floating point numbers rather than integers.
    pub open spec fn float(self) -> bool {
        self.bits() == 32
    }

    /// Planes of a frame of this format.
    pub open spec fn planes(self) -> int {
        if self.family() == ColorFamily::Gray {
            1
        } else {
            3
        }
    }

    /// How often the width and the height of a chroma plane are halved.
    pub open spec fn subsampling(self) -> (int, int) {
        match self {
            PixelFormat::Yuv420P8 | PixelFormat::Yuv420P10 => (1, 1),
            PixelFormat::Yuv422P8 | PixelFormat::Yuv422P10 => (1, 0),
            _ => (0, 0),
        }
    }

    /// Largest sample a format of this depth holds, up to a sixteen bit word.
    pub open spec fn maximum(self) -> int {
        if self.bits() >= 16 {
            65535
        } else {
            pow2(self.bits() as nat) - 1
        }
    }

    /// Size of one plane as a decoder lays it out: a halved side is rounded up.
    pub open spec fn decoded_plane(self, plane: int, width: int, height: int) -> (int, int) {
        let (halved_width, halved_height) = self.subsampling();
        (
            if plane != 0 && halved_width == 1 {
                half_up(width)
            } else {
                width
            },
            if plane != 0 && halved_height == 1 {
                half_up(height)
            } else {
                height
            },
        )
    }

    /// Size of one plane of a frame: a halved side is rounded down.
    pub open spec fn frame_plane(self, plane: int, width: int, height: int) -> (int, int) {
        let (halved_width, halved_height) = self.subsampling();
        (
            if plane != 0 && halved_width == 1 {
                width / 2
            } else {
                width
            },
            if plane != 0 && halved_height == 1 {
                height / 2
            } else {
                height
            },
        )
    }

    /// Bytes one tightly packed plane occupies, however many that is.
    pub open spec fn packed_plane(self, plane: int, width: int, height: int) -> int {
        let (plane_width, plane_height) = self.decoded_plane(plane, width, height);
        if 0 <= plane < self.planes() {
            plane_width * plane_height * self.word()
        } else {
            0
        }
    }

    /// Bytes the first `count` tightly packed planes occupy together.
    pub open spec fn packed_planes(self, count: int, width: int, height: int) -> int
        decreases count,
    {
        if count <= 0 {
            0
        } else {
            self.packed_planes(count - 1, width, height) + self.packed_plane(
                count - 1,
                width,
                height,
            )
        }
    }

    /// The name VapourSynth gives this format.
    pub open spec fn text(self) -> Seq<char> {
        match self {
            PixelFormat::Gray8 => "Gray8"@,
            PixelFormat::Gray9 => "Gray9"@,
            PixelFormat::Gray10 => "Gray10"@,
            PixelFormat::Gray11 => "Gray11"@,
            PixelFormat::Gray12 => "Gray12"@,
            PixelFormat::Gray13 => "Gray13"@,
            PixelFormat::Gray14 => "Gray14"@,
            PixelFormat::Gray15 => "Gray15"@,
            PixelFormat::Gray16 => "Gray16"@,
            PixelFormat::Gray32F => "GrayS"@,
            PixelFormat::Rgb8 => "RGB24"@,
            PixelFormat::Rgb9 => "RGB27"@,
            PixelFormat::Rgb10 => "RGB30"@,
            PixelFormat::Rgb11 => "RGB33"@,
            PixelFormat::Rgb12 => "RGB36"@,
            PixelFormat::Rgb13 => "RGB39"@,
            PixelFormat::Rgb14 => "RGB42"@,
            PixelFormat::Rgb15 => "RGB45"@,
            PixelFormat::Rgb16 => "RGB48"@,
            PixelFormat::Rgb32F => "RGBS"@,
            PixelFormat::Yuv420P8 => "YUV420P8"@,
            PixelFormat::Yuv420P10 => "YUV420P10"@,
            PixelFormat::Yuv422P8 => "YUV422P8"@,
            PixelFormat::Yuv422P10 => "YUV422P10"@,
            PixelFormat::Yuv444P8 => "YUV444P8"@,
            PixelFormat::Yuv444P10 => "YUV444P10"@,
            PixelFormat::Yuv444P12 => "YUV444P12"@,
            PixelFormat::Yuv444P16 => "YUV444P16"@,
        }
    }

    /// The format of a decoder's colour type, whatever its alpha channel.
    pub open spec fn of_color_type(color_type: ColorType) -> Option<PixelFormat> {
        match color_type {
            ColorType::L8 | ColorType::La8 => Some(PixelFormat::Gray8),
            ColorType::L16 | ColorType::La16 => Some(PixelFormat::Gray16),
            ColorType::Rgb8 | ColorType::Rgba8 => Some(PixelFormat::Rgb8),
            ColorType::Rgb16 | ColorType::Rgba16 => Some(PixelFormat::Rgb16),
            ColorType::Rgb32F | ColorType::Rgba32F => Some(PixelFormat::Rgb32F),
            ColorType::Unknown => None,
        }
    }

    /// The format `self` becomes when a container states `bits` per sample: the
    /// format of its family with that depth, for the two sixteen bit words and
    /// the depths that have one.
    pub open spec fn narrowed(self, bits: u32) -> PixelFormat {
        if self == PixelFormat::Gray16 && 8 <= bits <= 16 {
            gray_at(bits as int)
        } else if self == PixelFormat::Rgb16 && 8 <= bits <= 16 {
            rgb_at(bits as int)
        } else {
            self
        }
    }

    /// The gray format of this format's depth.
    pub open spec fn alpha(self) -> PixelFormat {
        gray_at(self.bits())
    }

    pub fn from_color_type(color_type: ColorType) -> (format: Option<PixelFormat>)
        ensures
            format == Self::of_color_type(color_type),
    {
        match color_type {
            ColorType::L8 | ColorType::La8 => Some(PixelFormat::Gray8),
            ColorType::L16 | ColorType::La16 => Some(PixelFormat::Gray16),
            ColorType::Rgb8 | ColorType::Rgba8 => Some(PixelFormat::Rgb8),
            ColorType::Rgb16 | ColorType::Rgba16 => Some(PixelFormat::Rgb16),
            ColorType::Rgb32F | ColorType::Rgba32F => Some(PixelFormat::Rgb32F),
            ColorType::Unknown => None,
        }
    }

    /// Format a decoder's color type is handed out as when a container states
    /// `bits` per sample.
    ///
    /// The colour type knows eight bits, sixteen bits and float and nothing in
    /// between, so a ten bit file arrives left aligned in `Gray16` or `Rgb16`.
    /// A container that states a depth narrows that word here, and the writer
    /// moves the samples down into the depth the narrower format names. A depth
    /// outside eight to sixteen leaves the word alone, and every other format
    /// already is the depth it holds.
    pub fn at_depth(self, bits: u32) -> (format: PixelFormat)
        ensures
            format == self.narrowed(bits),
    {
        match self {
            PixelFormat::Gray16 => match gray_format(bits) {
                Some(format) => format,
                None => self,
            },
            PixelFormat::Rgb16 => match rgb_format(bits) {
                Some(format) => format,
                None => self,
            },
            other => other,
        }
    }

    /// Gray format that carries the alpha channel of this format.
    ///
    /// The alpha clip of a source is the same depth as its colour, so a ten bit
    /// file's alpha plane is a ten bit frame and is opaque at 1023 rather than
    /// at 65535.
    pub fn alpha_format(self) -> (format: PixelFormat)
        ensures
            format == self.alpha(),
    {
        match self {
            PixelFormat::Gray8
            | PixelFormat::Rgb8
            | PixelFormat::Yuv420P8
            | PixelFormat::Yuv422P8
            | PixelFormat::Yuv444P8 => PixelFormat::Gray8,
            PixelFormat::Gray9 | PixelFormat::Rgb9 => PixelFormat::Gray9,
            PixelFormat::Gray10
            | PixelFormat::Rgb10
            | PixelFormat::Yuv420P10
            | PixelFormat::Yuv422P10
            | PixelFormat::Yuv444P10 => PixelFormat::Gray10,
            PixelFormat::Gray11 | PixelFormat::Rgb11 => PixelFormat::Gray11,
            PixelFormat::Gray12 | PixelFormat::Rgb12 | PixelFormat::Yuv444P12 => {
                PixelFormat::Gray12
            },
            PixelFormat::Gray13 | PixelFormat::Rgb13 => PixelFormat::Gray13,
            PixelFormat::Gray14 | PixelFormat::Rgb14 => PixelFormat::Gray14,
            PixelFormat::Gray15 | PixelFormat::Rgb15 => PixelFormat::Gray15,
            PixelFormat::Gray16 | PixelFormat::Rgb16 | PixelFormat::Yuv444P16 => {
                PixelFormat::Gray16
            },
            PixelFormat::Gray32F | PixelFormat::Rgb32F => PixelFormat::Gray32F,
        }
    }

    pub fn color_family(self) -> (family: ColorFamily)
        ensures
            family == self.family(),
    {
        match self {
            PixelFormat::Gray8
            | PixelFormat::Gray9
            | PixelFormat::Gray10
            | PixelFormat::Gray11
            | PixelFormat::Gray12
            | PixelFormat::Gray13
            | PixelFormat::Gray14
            | PixelFormat::Gray15
            | PixelFormat::Gray16
            | PixelFormat::Gray32F => ColorFamily::Gray,
            PixelFormat::Rgb8
            | PixelFormat::Rgb9
            | PixelFormat::Rgb10
            | PixelFormat::Rgb11
            | PixelFormat::Rgb12
            | PixelFormat::Rgb13
            | PixelFormat::Rgb14
            | PixelFormat::Rgb15
            | PixelFormat::Rgb16
            | PixelFormat::Rgb32F => ColorFamily::RGB,
            PixelFormat::Yuv420P8
            | PixelFormat::Yuv420P10
            | PixelFormat::Yuv422P8
            | PixelFormat::Yuv422P10
            | PixelFormat::Yuv444P8
            | PixelFormat::Yuv444P10
            | PixelFormat::Yuv444P12
            | PixelFormat::Yuv444P16 => ColorFamily::YUV,
        }
    }

    pub fn sample_type(self) -> (sample_type: SampleType)
        ensures
            sample_type == (if self.float() {
                SampleType::Float
            } else {
                SampleType::Integer
            }),
    {
        match self {
            PixelFormat::Gray32F | PixelFormat::Rgb32F => SampleType::Float,
            _ => SampleType::Integer,
        }
    }

    pub fn bits_per_sample(self) -> (bits: i32)
        ensures
            bits == self.bits(),
            8 <= bits <= 32,
    {
        match self {
            PixelFormat::Gray8
            | PixelFormat::Rgb8
            | PixelFormat::Yuv420P8
            | PixelFormat::Yuv422P8
            | PixelFormat::Yuv444P8 => 8,
            PixelFormat::Gray9 | PixelFormat::Rgb9 => 9,
            PixelFormat::Gray10
            | PixelFormat::Rgb10
            | PixelFormat::Yuv420P10
            | PixelFormat::Yuv422P10
            | PixelFormat::Yuv444P10 => 10,
            PixelFormat::Gray11 | PixelFormat::Rgb11 => 11,
            PixelFormat::Gray12 | PixelFormat::Rgb12 | PixelFormat::Yuv444P12 => 12,
            PixelFormat::Gray13 | PixelFormat::Rgb13 => 13,
            PixelFormat::Gray14 | PixelFormat::Rgb14 => 14,
            PixelFormat::Gray15 | PixelFormat::Rgb15 => 15,
            PixelFormat::Gray16 | PixelFormat::Rgb16 | PixelFormat::Yuv444P16 => 16,
            PixelFormat::Gray32F | PixelFormat::Rgb32F => 32,
        }
    }

    pub fn bytes_per_sample(self) -> (bytes: usize)
        ensures
            bytes == self.word(),
            bytes == 1 || bytes == 2 || bytes == 4,
    {
        match self {
            PixelFormat::Gray8
            | PixelFormat::Rgb8
            | PixelFormat::Yuv420P8
            | PixelFormat::Yuv422P8
            | PixelFormat::Yuv444P8 => 1,
            PixelFormat::Gray32F | PixelFormat::Rgb32F => 4,
            // Every depth from nine to sixteen bits is stored in a 16 bit word.
            _ => 2,
        }
    }

    /// Largest sample an integer format holds, which is what an opaque alpha
    /// plane is filled with.
    ///
    /// A ten or twelve bit format is not stored wider than its depth allows, so
    /// the two byte integer formats do not share one maximum. Float samples have
    /// no largest value, and nothing asks one for them.
    pub fn integer_max(self) -> (maximum: u16)
        ensures
            maximum == self.maximum(),
    {
        largest_sample(self.bits_per_sample() as u32)
    }

    pub fn plane_count(self) -> (count: usize)
        ensures
            count == self.planes(),
            count == 1 || count == 3,
    {
        match self {
            PixelFormat::Gray8
            | PixelFormat::Gray9
            | PixelFormat::Gray10
            | PixelFormat::Gray11
            | PixelFormat::Gray12
            | PixelFormat::Gray13
            | PixelFormat::Gray14
            | PixelFormat::Gray15
            | PixelFormat::Gray16
            | PixelFormat::Gray32F => 1,
            _ => 3,
        }
    }

    /// Chroma subsampling of this format, as VapourSynth reports it.
    pub fn sub_sampling(self) -> (halved: (i32, i32))
        ensures
            (halved.0 as int, halved.1 as int) == self.subsampling(),
    {
        match self {
            PixelFormat::Yuv420P8 | PixelFormat::Yuv420P10 => (1, 1),
            PixelFormat::Yuv422P8 | PixelFormat::Yuv422P10 => (1, 0),
            _ => (0, 0),
        }
    }

    /// Width and height of one plane of a `width` x `height` frame as a
    /// decoder lays it out, which rounds a half size plane up.
    ///
    /// VapourSynth rounds the other way, so on an odd size the two disagree by
    /// one row or column; [`Self::frame_plane_dimensions`] is the size a frame
    /// actually holds.
    pub fn plane_dimensions(self, plane: usize, width: usize, height: usize) -> (size: (
        usize,
        usize,
    ))
        ensures
            (size.0 as int, size.1 as int) == self.decoded_plane(
                plane as int,
                width as int,
                height as int,
            ),
    {
        let (halved_width, halved_height) = self.sub_sampling();
        if plane == 0 {
            (width, height)
        } else if halved_width == 1 && halved_height == 1 {
            (width / 2 + width % 2, height / 2 + height % 2)
        } else if halved_width == 1 {
            (width / 2 + width % 2, height)
        } else {
            (width, height)
        }
    }

    /// Width and height of one plane of a `width` x `height` VapourSynth frame.
    ///
    /// A subsampled plane is half the size of the frame, truncated, whatever
    /// the decoder produced, because that is what the frame holds.
    pub fn frame_plane_dimensions(self, plane: usize, width: usize, height: usize) -> (size: (
        usize,
        usize,
    ))
        ensures
            (size.0 as int, size.1 as int) == self.frame_plane(
                plane as int,
                width as int,
                height as int,
            ),
    {
        let (halved_width, halved_height) = self.sub_sampling();
        if plane == 0 {
            (width, height)
        } else if halved_width == 1 && halved_height == 1 {
            (width / 2, height / 2)
        } else if halved_width == 1 {
            (width / 2, height)
        } else {
            (width, height)
        }
    }

    /// Bytes one plane of a `width` x `height` frame occupies when it is
    /// tightly packed, which is how the decoder buffers are laid out.
    pub fn plane_bytes(self, plane: usize, width: usize, height: usize) -> (bytes: usize)
        ensures
            bytes == saturated(self.packed_plane(plane as int, width as int, height as int)),
    {
        if plane >= self.plane_count() {
            return 0;
        }
        let (plane_width, plane_height) = self.plane_dimensions(plane, width, height);
        let area: usize = saturating_product(plane_width, plane_height);
        let word: usize = self.bytes_per_sample();
        proof {
            let exact: int = plane_width * plane_height;
            assert(0 <= exact) by (nonlinear_arith)
                requires
                    exact == plane_width * plane_height,
            ;
            assert(exact * word >= exact) by (nonlinear_arith)
                requires
                    exact >= 0,
                    word >= 1,
            ;
            assert(usize::MAX * word >= usize::MAX) by (nonlinear_arith)
                requires
                    word >= 1,
            ;
        }
        saturating_product(area, word)
    }

    /// Bytes every plane of a `width` x `height` frame occupies together.
    pub fn planes_bytes(self, width: usize, height: usize) -> (bytes: usize)
        ensures
            bytes == saturated(self.packed_planes(self.planes(), width as int, height as int)),
    {
        let count: usize = self.plane_count();
        let mut total: usize = 0;
        let mut plane: usize = 0;
        while plane < count
            invariant
                plane <= count,
                count == self.planes(),
                total == saturated(
                    self.packed_planes(plane as int, width as int, height as int),
                ),
                self.packed_planes(plane as int, width as int, height as int) >= 0,
            decreases count - plane,
        {
            let bytes: usize = self.plane_bytes(plane, width, height);
            proof {
                let (w, h) = self.decoded_plane(plane as int, width as int, height as int);
                assert(w * h * self.word() >= 0) by (nonlinear_arith)
                    requires
                        w >= 0,
                        h >= 0,
                        self.word() >= 0,
                ;
            }
            total = total.saturating_add(bytes);
            plane += 1;
        }
        total
    }

    pub fn name(self) -> (name: &'static str)
        ensures
            name@ == self.text(),
    {
        match self {
            PixelFormat::Gray8 => "Gray8",
            PixelFormat::Gray9 => "Gray9",
            PixelFormat::Gray10 => "Gray10",
            PixelFormat::Gray11 => "Gray11",
            PixelFormat::Gray12 => "Gray12",
            PixelFormat::Gray13 => "Gray13",
            PixelFormat::Gray14 => "Gray14",
            PixelFormat::Gray15 => "Gray15",
            PixelFormat::Gray16 => "Gray16",
            PixelFormat::Gray32F => "GrayS",
            PixelFormat::Rgb8 => "RGB24",
            PixelFormat::Rgb9 => "RGB27",
            PixelFormat::Rgb10 => "RGB30",
            PixelFormat::Rgb11 => "RGB33",
            PixelFormat::Rgb12 => "RGB36",
            PixelFormat::Rgb13 => "RGB39",
            PixelFormat::Rgb14 => "RGB42",
            PixelFormat::Rgb15 => "RGB45",
            PixelFormat::Rgb16 => "RGB48",
            PixelFormat::Rgb32F => "RGBS",
            PixelFormat::Yuv420P8 => "YUV420P8",
            PixelFormat::Yuv420P10 => "YUV420P10",
            PixelFormat::Yuv422P8 => "YUV422P8",
            PixelFormat::Yuv422P10 => "YUV422P10",
            PixelFormat::Yuv444P8 => "YUV444P8",
            PixelFormat::Yuv444P10 => "YUV444P10",
            PixelFormat::Yuv444P12 => "YUV444P12",
            PixelFormat::Yuv444P16 => "YUV444P16",
        }
    }
}

/// The gray format of a depth of eight to sixteen bits, or of a float.
pub open spec fn gray_at(bits: int) -> PixelFormat {
    if bits == 8 {
        PixelFormat::Gray8
    } else if bits == 9 {
        PixelFormat::Gray9
    } else if bits == 10 {
        PixelFormat::Gray10
    } else if bits == 11 {
        PixelFormat::Gray11
    } else if bits == 12 {
        PixelFormat::Gray12
    } else if bits == 13 {
        PixelFormat::Gray13
    } else if bits == 14 {
        PixelFormat::Gray14
    } else if bits == 15 {
        PixelFormat::Gray15
    } else if bits == 16 {
        PixelFormat::Gray16
    } else {
        PixelFormat::Gray32F
    }
}

/// The r,g,b format of a depth of eight to sixteen bits, or of a float.
pub open spec fn rgb_at(bits: int) -> PixelFormat {
    if bits == 8 {
        PixelFormat::Rgb8
    } else if bits == 9 {
        PixelFormat::Rgb9
    } else if bits == 10 {
        PixelFormat::Rgb10
    } else if bits == 11 {
        PixelFormat::Rgb11
    } else if bits == 12 {
        PixelFormat::Rgb12
    } else if bits == 13 {
        PixelFormat::Rgb13
    } else if bits == 14 {
        PixelFormat::Rgb14
    } else if bits == 15 {
        PixelFormat::Rgb15
    } else if bits == 16 {
        PixelFormat::Rgb16
    } else {
        PixelFormat::Rgb32F
    }
}

/// The gray format that names `bits` per sample, which VapourSynth has for every
/// depth from eight to sixteen.
///
/// A depth outside that range answers `None`, which leaves a caller the format
/// it started from.
pub fn gray_format(bits: u32) -> (format: Option<PixelFormat>)
    ensures
        format == (if 8 <= bits <= 16 {
            Some(gray_at(bits as int))
        } else {
            None
        }),
{
    match bits {
        8 => Some(PixelFormat::Gray8),
        9 => Some(PixelFormat::Gray9),
        10 => Some(PixelFormat::Gray10),
        11 => Some(PixelFormat::Gray11),
        12 => Some(PixelFormat::Gray12),
        13 => Some(PixelFormat::Gray13),
        14 => Some(PixelFormat::Gray14),
        15 => Some(PixelFormat::Gray15),
        16 => Some(PixelFormat::Gray16),
        _ => None,
    }
}

/// The r,g,b format that names `bits` per sample; see [`gray_format`].
pub fn rgb_format(bits: u32) -> (format: Option<PixelFormat>)
    ensures
        format == (if 8 <= bits <= 16 {
            Some(rgb_at(bits as int))
        } else {
            None
        }),
{
    match bits {
        8 => Some(PixelFormat::Rgb8),
        9 => Some(PixelFormat::Rgb9),
        10 => Some(PixelFormat::Rgb10),
        11 => Some(PixelFormat::Rgb11),
        12 => Some(PixelFormat::Rgb12),
        13 => Some(PixelFormat::Rgb13),
        14 => Some(PixelFormat::Rgb14),
        15 => Some(PixelFormat::Rgb15),
        16 => Some(PixelFormat::Rgb16),
        _ => None,
    }
}

/// Largest number `bits` bits hold, or a sixteen bit word holds if that is
/// narrower.
pub(crate) fn largest_sample(bits: u32) -> (maximum: u16)
    ensures
        maximum == (if bits >= 16 {
            65535
        } else {
            pow2(bits as nat) - 1
        }),
{
    if bits >= 16 {
        u16::MAX
    } else {
        proof {
            vstd::arithmetic::power2::lemma2_to64();
            vstd::arithmetic::power2::lemma_pow2_pos(bits as nat);
            if bits < 15 {
                vstd::arithmetic::power2::lemma_pow2_strictly_increases(bits as nat, 15);
            }
            vstd::bits::lemma_u32_shl_is_mul(1u32, bits);
        }
        ((1u32 << bits) - 1) as u16
    }
}

/// `left * right`, or the largest number a `usize` holds when it is larger.
pub(crate) fn saturating_product(left: usize, right: usize) -> (product: usize)
    ensures
        product == saturated(left * right),
{
    match left.checked_mul(right) {
        Some(product) => product,
        None => usize::MAX,
    }
}

/// Interleaved channel that carries alpha when the color type has one.
pub open spec fn alpha_index(color_type: ColorType) -> Option<int> {
    match color_type {
        ColorType::La8 | ColorType::La16 => Some(1),
        ColorType::Rgba8 | ColorType::Rgba16 | ColorType::Rgba32F => Some(3),
        _ => None,
    }
}

/// Interleaved channels of a colour type.
pub open spec fn channels_of(color_type: ColorType) -> Option<int> {
    match color_type {
        ColorType::L8 | ColorType::L16 => Some(1),
        ColorType::La8 | ColorType::La16 => Some(2),
        ColorType::Rgb8 | ColorType::Rgb16 | ColorType::Rgb32F => Some(3),
        ColorType::Rgba8 | ColorType::Rgba16 | ColorType::Rgba32F => Some(4),
        ColorType::Unknown => None,
    }
}

/// Interleaved channel that carries alpha when the color type has one.
pub fn alpha_channel(color_type: ColorType) -> (channel: Option<usize>)
    ensures
        match channel {
            Some(channel) => alpha_index(color_type) == Some(channel as int),
            None => alpha_index(color_type) is None,
        },
{
    match color_type {
        ColorType::La8 | ColorType::La16 => Some(1),
        ColorType::Rgba8 | ColorType::Rgba16 | ColorType::Rgba32F => Some(3),
        _ => None,
    }
}

/// What a buffer of a layout this library does not write is refused with.
pub open spec fn unsupported_color_text(color_type: ColorType) -> Seq<char> {
    "unsupported image color type "@ + color_type.text()
}

pub(crate) fn unsupported_color(color_type: ColorType) -> (error: ImgSeqError)
    ensures
        error@ == crate::error::error_text(unsupported_color_text(color_type)),
{
    let mut message = String::from_str("unsupported image color type ");
    message.append(color_type.name());
    ImgSeqError::new(message)
}

/// Interleaved channels of a colour type.
pub fn channel_count(color_type: ColorType) -> (count: Result<usize, ImgSeqError>)
    ensures
        match count {
            Ok(count) => channels_of(color_type) == Some(count as int),
            Err(error) => {
                &&& channels_of(color_type) is None
                &&& error@ == crate::error::error_text(unsupported_color_text(color_type))
            },
        },
{
    match color_type {
        ColorType::L8 | ColorType::L16 => Ok(1),
        ColorType::La8 | ColorType::La16 => Ok(2),
        ColorType::Rgb8 | ColorType::Rgb16 | ColorType::Rgb32F => Ok(3),
        ColorType::Rgba8 | ColorType::Rgba16 | ColorType::Rgba32F => Ok(4),
        ColorType::Unknown => Err(unsupported_color(color_type)),
    }
}

/// A container that states a depth from eight to sixteen bits has its gray or
/// r,g,b word handed out as the format of that family and that depth.
pub proof fn a_stated_depth_is_the_depth_of_the_format(word: PixelFormat, bits: u32)
    requires
        word == PixelFormat::Gray16 || word == PixelFormat::Rgb16,
        8 <= bits <= 16,
    ensures
        word.narrowed(bits).bits() == bits,
        word.narrowed(bits).family() == word.family(),
        !word.narrowed(bits).float(),
{
}

/// The alpha clip of a format is gray, at the depth and with the opaque value of
/// the format itself.
pub proof fn an_alpha_format_keeps_the_depth(format: PixelFormat)
    ensures
        format.alpha().family() == ColorFamily::Gray,
        format.alpha().bits() == format.bits(),
        format.alpha().word() == format.word(),
        format.alpha().float() == format.float(),
        format.alpha().maximum() == format.maximum(),
        format.alpha().planes() == 1,
        format.alpha().alpha() == format.alpha(),
{
}

/// A frame's plane is never larger than the plane a decoder lays out for the
/// same size, and never more than one row or column smaller.
pub proof fn a_frame_plane_fits_the_decoded_plane(
    format: PixelFormat,
    plane: int,
    width: int,
    height: int,
)
    requires
        width >= 0,
        height >= 0,
    ensures
        format.frame_plane(plane, width, height).0 <= format.decoded_plane(plane, width, height).0
            <= format.frame_plane(plane, width, height).0 + 1,
        format.frame_plane(plane, width, height).1 <= format.decoded_plane(plane, width, height).1
            <= format.frame_plane(plane, width, height).1 + 1,
{
}

/// A format is what VapourSynth calls it: the name of an integer format is its
/// family, how its chroma planes are halved, and the bits of one sample, or of all
/// three for r,g,b. The two formats that name no number hold floating point.
pub proof fn a_format_is_what_it_is_called(format: PixelFormat)
    ensures
        match format {
            PixelFormat::Gray32F => format.family() == ColorFamily::Gray && format.float()
                && format.subsampling() == (0int, 0int) && format.word() == 4,
            PixelFormat::Rgb32F => format.family() == ColorFamily::RGB && format.float()
                && format.subsampling() == (0int, 0int) && format.word() == 4,
            _ => {
                &&& !format.float()
                &&& format.word() == (if format.bits() == 8 {
                    1int
                } else {
                    2
                })
                &&& format.text() == (if format.family() == ColorFamily::Gray {
                    "Gray"@ + text::decimal_text(format.bits() as nat)
                } else if format.family() == ColorFamily::RGB {
                    "RGB"@ + text::decimal_text((3 * format.bits()) as nat)
                } else if format.subsampling() == (1int, 1int) {
                    "YUV420P"@ + text::decimal_text(format.bits() as nat)
                } else if format.subsampling() == (1int, 0int) {
                    "YUV422P"@ + text::decimal_text(format.bits() as nat)
                } else {
                    "YUV444P"@ + text::decimal_text(format.bits() as nat)
                })
                &&& format.family() != ColorFamily::YUV ==> format.subsampling() == (0int, 0int)
            },
        },
        format.planes() == (if format.family() == ColorFamily::Gray {
            1int
        } else {
            3
        }),
{
    reveal_with_fuel(text::decimal_text, 3);
    reveal_strlit("Gray");
    reveal_strlit("RGB");
    reveal_strlit("YUV420P");
    reveal_strlit("YUV422P");
    reveal_strlit("YUV444P");
    reveal_strlit("Gray10");
    reveal_strlit("Gray11");
    reveal_strlit("Gray12");
    reveal_strlit("Gray13");
    reveal_strlit("Gray14");
    reveal_strlit("Gray15");
    reveal_strlit("Gray16");
    reveal_strlit("Gray8");
    reveal_strlit("Gray9");
    reveal_strlit("RGB24");
    reveal_strlit("RGB27");
    reveal_strlit("RGB30");
    reveal_strlit("RGB33");
    reveal_strlit("RGB36");
    reveal_strlit("RGB39");
    reveal_strlit("RGB42");
    reveal_strlit("RGB45");
    reveal_strlit("RGB48");
    reveal_strlit("YUV420P10");
    reveal_strlit("YUV420P8");
    reveal_strlit("YUV422P10");
    reveal_strlit("YUV422P8");
    reveal_strlit("YUV444P10");
    reveal_strlit("YUV444P12");
    reveal_strlit("YUV444P16");
    reveal_strlit("YUV444P8");
    match format {
        PixelFormat::Gray32F | PixelFormat::Rgb32F => {},
        _ => {
            assert(format.text() =~= (if format.family() == ColorFamily::Gray {
                "Gray"@ + text::decimal_text(format.bits() as nat)
            } else if format.family() == ColorFamily::RGB {
                "RGB"@ + text::decimal_text((3 * format.bits()) as nat)
            } else if format.subsampling() == (1int, 1int) {
                "YUV420P"@ + text::decimal_text(format.bits() as nat)
            } else if format.subsampling() == (1int, 0int) {
                "YUV422P"@ + text::decimal_text(format.bits() as nat)
            } else {
                "YUV444P"@ + text::decimal_text(format.bits() as nat)
            }));
        },
    }
}

/// A frame has a plane for every channel of a colour type but the alpha one, which
/// is the last, with samples of the size the decoder hands over: a byte, two, or a
/// four byte float.
pub proof fn a_colour_type_has_a_plane_for_every_colour(color_type: ColorType)
    ensures
        match (PixelFormat::of_color_type(color_type), channels_of(color_type)) {
            (Some(format), Some(channels)) => {
                &&& color_type != ColorType::Unknown
                &&& match alpha_index(color_type) {
                    Some(alpha) => alpha == channels - 1 && format.planes() == channels - 1,
                    None => format.planes() == channels,
                }
                &&& (alpha_index(color_type) is Some) == (match color_type {
                    ColorType::La8
                    | ColorType::La16
                    | ColorType::Rgba8
                    | ColorType::Rgba16
                    | ColorType::Rgba32F => true,
                    _ => false,
                })
                &&& format.planes() == (match color_type {
                    ColorType::L8 | ColorType::La8 | ColorType::L16 | ColorType::La16 => 1int,
                    _ => 3,
                })
                &&& format.family() != ColorFamily::YUV
                &&& format.bits() == (match color_type {
                    ColorType::L8 | ColorType::La8 | ColorType::Rgb8 | ColorType::Rgba8 => 8int,
                    ColorType::Rgb32F | ColorType::Rgba32F => 32,
                    _ => 16,
                })
            },
            (None, None) => color_type == ColorType::Unknown,
            _ => false,
        },
{
}

/// The depth a container states only ever narrows a sixteen bit word, and never
/// turns gray into colour.
pub proof fn a_depth_narrows_nothing_but_a_sixteen_bit_word(format: PixelFormat, bits: u32)
    ensures
        format.narrowed(bits).family() == format.family(),
        format.narrowed(bits).bits() == (if 8 <= bits <= 16 && format.bits() == 16
            && format.family() != ColorFamily::YUV {
            bits as int
        } else {
            format.bits()
        }),
{
}

/// A plane has its share of the picture: the first all of it, and a further one half of
/// the columns or rows the format halves, which a decoder rounds up and a frame down. A
/// packed plane has a sample for every place, and the planes of a format come to one,
/// three, two or one and a half times the picture.
pub proof fn a_plane_has_its_share_of_the_picture(
    format: PixelFormat,
    plane: int,
    width: int,
    height: int,
)
    requires
        0 <= plane < format.planes(),
        0 <= width,
        0 <= height,
    ensures
        ({
            let across = plane > 0 && format.subsampling().0 == 1;
            let down = plane > 0 && format.subsampling().1 == 1;
            let (columns, rows) = format.decoded_plane(plane, width, height);
            let (shown_columns, shown_rows) = format.frame_plane(plane, width, height);
            &&& across ==> shown_columns == width / 2 && columns == width - width / 2
            &&& !across ==> shown_columns == width && columns == width
            &&& down ==> shown_rows == height / 2 && rows == height - height / 2
            &&& !down ==> shown_rows == height && rows == height
            &&& format.packed_plane(plane, width, height) == columns * rows * format.word()
        }),
        format.planes() == 1 ==> format.packed_planes(1, width, height) == width * height
            * format.word(),
        format.planes() == 3 ==> format.packed_planes(3, width, height) == width * height
            * format.word() + 2 * format.packed_plane(1, width, height),
        format.planes() == 3 ==> format.packed_plane(1, width, height) == format.packed_plane(
            2,
            width,
            height,
        ),
        !format.float() && format.bits() <= 16 ==> format.maximum() + 1 == pow2(
            format.bits() as nat,
        ),
{
    vstd::arithmetic::power2::lemma2_to64();
    reveal_with_fuel(PixelFormat::packed_planes, 4);
}

} // verus!
