//! The clips an image sequence hands out, and the frames they deliver.
//!
//! The lookahead worker that reads a file also builds the frames of every clip
//! of the call, so the thread that answers a frame request only has to hand out
//! a finished frame.

use std::sync::Arc;

use vstd::prelude::*;

use crate::color;
use crate::color::set_frame_properties;
use crate::decoder::{DecodeTimings, DecodedImage, ImageInfo, Pixels};
use crate::error::{self, ImgSeqError};
use crate::frame;
use crate::frame::{make_frame, ByteOrder, Frame, VideoFormat};
use crate::pixel::alpha;
use crate::pixel::channel;
use crate::pixel::interleaved;
use crate::pixel::layout;
use crate::pixel::pixel_format;
use crate::pixel::pixel_format::saturating_product;
use crate::pixel::planar;
use crate::pixel::samples;
use crate::pixel::transform;
use crate::pixel::{
    write_alpha, write_decoded_plane, write_decoded_planes, write_opaque_alpha, write_planar,
    PixelFormat, Transform, WriteTimings,
};
use crate::prefetch::state::saturating_sum;
use crate::prefetch::{Payload, Prepare};
use crate::text;
use crate::text::decimal_signed;

verus! {

/// One of the clips an image sequence hands out.
#[derive(Clone, Copy, Debug, PartialEq, Eq, Structural)]
pub enum Clip {
    /// Color planes of every frame.
    Color,
    /// Alpha plane of every frame, filled with the opaque value when the file
    /// has no alpha channel.
    Alpha,
}

impl Clip {
    /// The format this clip has for an image of `format`.
    pub open spec fn format_of(self, format: PixelFormat) -> PixelFormat {
        match self {
            Clip::Color => format,
            Clip::Alpha => format.alpha(),
        }
    }

    /// What the frames of this clip say of being an alpha clip.
    pub open spec fn marker(self) -> Option<bool> {
        match self {
            Clip::Color => None,
            Clip::Alpha => Some(true),
        }
    }

    pub open spec fn text(self) -> Seq<char> {
        match self {
            Clip::Color => "color"@,
            Clip::Alpha => "alpha"@,
        }
    }

    /// Pixel format this clip uses for an image decoded as `format`.
    pub fn pixel_format(self, format: PixelFormat) -> (used: PixelFormat)
        ensures
            used == self.format_of(format),
    {
        match self {
            Clip::Color => format,
            Clip::Alpha => format.alpha_format(),
        }
    }

    /// `ImgSeqAlpha` property of this clip's frames; color clips have none.
    pub fn alpha_marker(self) -> (marker: Option<bool>)
        ensures
            marker == self.marker(),
    {
        match self {
            Clip::Color => None,
            Clip::Alpha => Some(true),
        }
    }

    pub fn name(self) -> (name: &'static str)
        ensures
            name@ == self.text(),
    {
        match self {
            Clip::Color => "color",
            Clip::Alpha => "alpha",
        }
    }
}

/// Clips `Read` hands out.
pub const READ_CLIPS: [Clip; 1] = [Clip::Color];

/// Clips `ReadAlpha` hands out.
pub const READ_ALPHA_CLIPS: [Clip; 2] = [Clip::Color, Clip::Alpha];

/// Output format of one clip of a sequence of `format` images.
pub fn query_format(format: PixelFormat) -> (declared: VideoFormat)
    ensures
        declared == VideoFormat::of(format),
{
    VideoFormat::new(format)
}

/// Frame bytes the frames of `clips` are expected to need for an image.
pub open spec fn frames_need(clips: Seq<Clip>, image: ImageInfo) -> int
    decreases clips.len(),
{
    if clips.len() == 0 {
        0
    } else {
        let (width, height) = image.transform.size(image.width as int, image.height as int);
        let format = clips.last().format_of(image.format);
        frames_need(clips.drop_last(), image) + pixel_format::saturated(
            format.packed_planes(format.planes(), width, height),
        )
    }
}

/// Frame bytes one image of `clips` is expected to need.
///
/// This is the planar size of every frame the image is written into, which is
/// what the lookahead budget is sized from before anything is decoded. The
/// frames are sized from the same answer the probe gave, so an orientation that
/// swaps width and height is accounted for here as well. Rows are padded when a
/// frame is made, so what the frames really hold is a little more than this.
pub fn expected_bytes(clips: &[Clip], image: &ImageInfo) -> (bytes: usize)
    ensures
        bytes == pixel_format::saturated(frames_need(clips@, *image)),
{
    let width: usize = image.output_width() as usize;
    let height: usize = image.output_height() as usize;
    let len: usize = clips.len();
    let mut bytes: usize = 0;
    let mut index: usize = 0;
    while index < len
        invariant
            index <= len,
            len == clips@.len(),
            (width as int, height as int) == image.transform.size(
                image.width as int,
                image.height as int,
            ),
            bytes == pixel_format::saturated(frames_need(clips@.take(index as int), *image)),
            0 <= frames_need(clips@.take(index as int), *image),
        decreases len - index,
    {
        assert(clips@.take(index + 1).drop_last() =~= clips@.take(index as int));
        let format = clips[index].pixel_format(image.format);
        bytes = saturating_sum(bytes, format.planes_bytes(width, height));
        index = index + 1;
    }
    assert(clips@.take(index as int) =~= clips@);
    bytes
}

/// What one clip's frame needed, measured where the work happened.
#[derive(Clone, Copy, Debug)]
pub struct FrameTimings {
    /// Creating the frame.
    pub allocate: std::time::Duration,
    /// Writing the decoded pixels into its planes.
    pub write: WriteTimings,
    /// Attaching the source metadata.
    pub properties: std::time::Duration,
}

/// Why a frame of a size cannot be made, if it cannot.
pub open spec fn frame_problem(
    format: PixelFormat,
    width: u32,
    height: u32,
    alignment: usize,
) -> Option<Seq<char>> {
    if width > i32::MAX {
        Some("image width does not fit VapourSynth"@)
    } else if height > i32::MAX {
        Some("image height does not fit VapourSynth"@)
    } else if frame::padded(width * format.word(), alignment as int) > usize::MAX {
        Some("image plane row is too large"@)
    } else {
        None
    }
}

/// Creates one frame of `format`, whose rows start on multiples of `alignment`
/// bytes.
pub fn new_frame(
    format: PixelFormat,
    width: u32,
    height: u32,
    order: ByteOrder,
    alignment: usize,
) -> (made: Result<Frame, ImgSeqError>)
    requires
        0 < alignment,
    ensures
        match (made, frame_problem(format, width, height, alignment)) {
            (Ok(made), None) => {
                &&& frame::blank_frame(
                    made,
                    format,
                    width as int,
                    height as int,
                    order,
                    alignment as int,
                )
                &&& frame::shaped(made, format, width as int, height as int)
                &&& made.valid()
                &&& made.format.depth_is_sound()
            },
            (Err(error), Some(message)) => error@ == error::error_text(message),
            _ => false,
        },
{
    if width > i32::MAX as u32 {
        return Err(ImgSeqError::from_display("image width does not fit VapourSynth"));
    }
    if height > i32::MAX as u32 {
        return Err(ImgSeqError::from_display("image height does not fit VapourSynth"));
    }
    match make_frame(format, width, height, order, alignment) {
        Some(frame) => Ok(frame),
        None => Err(ImgSeqError::from_display("image plane row is too large")),
    }
}

/// Whether the pixels of an image are laid out for its format: only a format
/// that halves nothing is written from interleaved samples.
pub open spec fn laid_out(decoded: DecodedImage) -> bool {
    decoded.pixels is Interleaved ==> decoded.format.subsampling() == (0int, 0int)
}

/// Whether the pixels of an image are laid out for its format.
pub fn is_laid_out(decoded: &DecodedImage) -> (sound: bool)
    ensures
        sound == laid_out(*decoded),
{
    match &decoded.pixels {
        Pixels::Interleaved { .. } => {
            let (across, down) = decoded.format.sub_sampling();
            across == 0 && down == 0
        },
        Pixels::Planar { .. } => true,
    }
}

/// What writing the pixels of one image into one clip's frame comes to.
pub open spec fn write_outcome<T>(
    before: Frame,
    after: Frame,
    result: Result<T, ImgSeqError>,
    clip: Clip,
    decoded: DecodedImage,
) -> bool {
    let (output_width, output_height) = decoded.transform.size(
        decoded.width as int,
        decoded.height as int,
    );
    match (clip, decoded.pixels) {
        (Clip::Color, Pixels::Planar { planes, .. }) => planar::buffers_outcome(
            before,
            after,
            result,
            decoded.format,
            decoded.width,
            decoded.height,
            planes@,
            decoded.transform,
        ),
        (Clip::Color, Pixels::Interleaved { color_type, buffer }) => interleaved::planar_outcome(
            before,
            after,
            result,
            color_type,
            decoded.width,
            decoded.height,
            buffer@,
            decoded.transform,
        ),
        (Clip::Alpha, Pixels::Planar { alpha: Some(plane), .. }) => planar::buffers_outcome(
            before,
            after,
            result,
            decoded.format.alpha(),
            decoded.width,
            decoded.height,
            seq![plane],
            decoded.transform,
        ),
        (Clip::Alpha, Pixels::Planar { alpha: None, .. }) => alpha::fill_outcome(
            before,
            after,
            result,
            output_width,
            output_height,
            decoded.format.alpha().word(),
            decoded.format.alpha().maximum(),
        ),
        (Clip::Alpha, Pixels::Interleaved { color_type, buffer }) => alpha::alpha_outcome(
            before,
            after,
            result,
            color_type,
            decoded.width,
            decoded.height,
            buffer@,
            decoded.transform,
        ),
    }
}

/// The sample plane `plane` of a frame holds in column `x` of row `y`, of `bytes`
/// bytes.
pub open spec fn held_sample(frame: Frame, plane: int, x: int, y: int, bytes: int) -> Seq<u8> {
    samples::sample_at(frame.planes@[plane].rows@[y]@, x * bytes, bytes)
}

/// The alpha plane lands where the colour planes do: what the two clips of an
/// image with interleaved alpha hold in one place are the channels of one and
/// the same pixel.
pub proof fn both_clips_show_the_same_pixel(
    decoded: DecodedImage,
    color: (Frame, Frame),
    color_written: Result<WriteTimings, ImgSeqError>,
    alpha: (Frame, Frame),
    alpha_written: Result<WriteTimings, ImgSeqError>,
    plane: int,
    x: int,
    y: int,
)
    requires
        write_outcome(color.0, color.1, color_written, Clip::Color, decoded),
        write_outcome(alpha.0, alpha.1, alpha_written, Clip::Alpha, decoded),
        color_written is Ok,
        alpha_written is Ok,
        decoded.pixels matches Pixels::Interleaved { color_type, .. }
            && pixel_format::alpha_index(color_type) is Some,
        color.0.format.depth_is_sound(),
        alpha.0.format.depth_is_sound(),
        0 <= plane < color.0.format.num_planes,
        0 <= x < decoded.transform.size(decoded.width as int, decoded.height as int).0,
        0 <= y < decoded.transform.size(decoded.width as int, decoded.height as int).1,
        color.0.has_rows(
            plane,
            decoded.transform.size(decoded.width as int, decoded.height as int).1,
        ),
        alpha.0.has_rows(
            0,
            decoded.transform.size(decoded.width as int, decoded.height as int).1,
        ),
    ensures
        decoded.pixels matches Pixels::Interleaved { color_type, buffer } && {
            let (columns, rows) = decoded.transform.size(
                decoded.width as int,
                decoded.height as int,
            );
            let (column, row) = decoded.transform.source(x, y, columns, rows);
            let shape = layout::layout_of(
                color_type,
                decoded.width,
                decoded.height,
                buffer@.len() as int,
            )->Ok_0;
            let bytes = shape.format.word();
            &&& 0 <= column < decoded.width
            &&& 0 <= row < decoded.height
            &&& held_sample(color.1, plane, x, y, bytes) == interleaved::channel_of(
                buffer@,
                shape,
                plane,
                layout::depth_of(color.0.format, shape.format)->Ok_0.shift,
                color.0.order,
            ).sample(column, row)
            &&& held_sample(alpha.1, 0, x, y, bytes) == interleaved::channel_of(
                buffer@,
                shape,
                pixel_format::alpha_index(color_type)->Some_0,
                layout::depth_of(alpha.0.format, shape.format)->Ok_0.shift,
                alpha.0.order,
            ).sample(column, row)
        },
{
    let transform = decoded.transform;
    let (columns, rows) = transform.size(decoded.width as int, decoded.height as int);
    if let Pixels::Interleaved { color_type, buffer } = decoded.pixels {
        let shape = layout::layout_of(
            color_type,
            decoded.width,
            decoded.height,
            buffer@.len() as int,
        )->Ok_0;
        let planes = color.0.format.num_planes as int;
        let row_bytes = columns * shape.format.word();
        let channel = pixel_format::alpha_index(color_type)->Some_0;
        let color_shift = layout::depth_of(color.0.format, shape.format)->Ok_0.shift;
        let alpha_shift = layout::depth_of(alpha.0.format, shape.format)->Ok_0.shift;
        interleaved::lemma_layout_holds(color_type, decoded.width, decoded.height, buffer@);
        interleaved::lemma_channel_holds(buffer@, shape, plane, color_shift, color.0.order);
        interleaved::lemma_channel_holds(buffer@, shape, channel, alpha_shift, alpha.0.order);
        transform::a_source_lies_inside_the_picture(
            transform,
            x,
            y,
            decoded.width as int,
            decoded.height as int,
        );
        let problem = |index: int| layout::target_problem(color.0, index, row_bytes);
        layout::lemma_leading_fine_bound(problem, planes);
        layout::lemma_leading_fine_is_fine(problem, planes, plane);
        assert(problem(plane) is None);
        assert(channel::plane_shows(
            color.0.planes@[plane],
            color.1.planes@[plane],
            columns,
            rows,
            interleaved::channel_of(buffer@, shape, plane, color_shift, color.0.order),
            transform,
        ));
        channel::a_shown_sample_is_the_one_the_transform_finds(
            color.0.planes@[plane],
            color.1.planes@[plane],
            columns,
            rows,
            interleaved::channel_of(buffer@, shape, plane, color_shift, color.0.order),
            transform,
            x,
            y,
        );
        channel::a_shown_sample_is_the_one_the_transform_finds(
            alpha.0.planes@[0],
            alpha.1.planes@[0],
            columns,
            rows,
            interleaved::channel_of(buffer@, shape, channel, alpha_shift, alpha.0.order),
            transform,
            x,
            y,
        );
    }
}

proof fn lemma_whole_plane(
    frames: (Frame, Frame),
    written: Result<WriteTimings, ImgSeqError>,
    format: PixelFormat,
    width: u32,
    height: u32,
    buffers: Seq<Vec<u8>>,
    transform: Transform,
    plane: int,
    x: int,
    y: int,
)
    requires
        planar::buffers_outcome(
            frames.0,
            frames.1,
            written,
            format,
            width,
            height,
            buffers,
            transform,
        ),
        written is Ok,
        0 <= plane < format.planes(),
        plane == 0 || format.subsampling() == (0int, 0int),
        0 <= x < transform.size(width as int, height as int).0,
        0 <= y < transform.size(width as int, height as int).1,
        frames.0.has_rows(plane, transform.size(width as int, height as int).1),
    ensures
        ({
            let (columns, rows) = transform.size(width as int, height as int);
            let (column, row) = transform.source(x, y, columns, rows);
            held_sample(frames.1, plane, x, y, format.word()) == planar::plane_channel(
                buffers[plane]@,
                format,
                width as int,
                frames.0.order,
            ).sample(column, row)
        }),
{
    let (columns, rows) = transform.size(width as int, height as int);
    let source = planar::plane_channel(buffers[plane]@, format, width as int, frames.0.order);
    let problem = |index: int|
        planar::plane_problem(
            frames.0,
            format,
            width as int,
            height as int,
            buffers,
            transform,
            index,
        );
    layout::lemma_leading_fine_bound(problem, format.planes());
    layout::lemma_leading_fine_is_fine(problem, format.planes(), plane);
    assert(problem(plane) is None);
    assert(width * (1 * format.word()) <= source.row_bytes) by (nonlinear_arith)
        requires
            source.row_bytes == width * format.word(),
    ;
    assert(height * source.row_bytes == source.row_bytes * height) by (nonlinear_arith);
    assert(0 <= source.row_bytes) by (nonlinear_arith)
        requires
            source.row_bytes == width * format.word(),
            0 <= format.word(),
    ;
    channel::a_shown_sample_is_the_one_the_transform_finds(
        frames.0.planes@[plane],
        frames.1.planes@[plane],
        columns,
        rows,
        source,
        transform,
        x,
        y,
    );
}

/// The alpha plane lands where the colour planes do: what the two clips of an
/// image with an alpha plane of its own hold in one place was decoded in one and
/// the same place. A plane that is halved holds no place of its own for every
/// pixel.
pub proof fn both_clips_show_the_same_place(
    decoded: DecodedImage,
    color: (Frame, Frame),
    color_written: Result<WriteTimings, ImgSeqError>,
    alpha: (Frame, Frame),
    alpha_written: Result<WriteTimings, ImgSeqError>,
    plane: int,
    x: int,
    y: int,
)
    requires
        write_outcome(color.0, color.1, color_written, Clip::Color, decoded),
        write_outcome(alpha.0, alpha.1, alpha_written, Clip::Alpha, decoded),
        color_written is Ok,
        alpha_written is Ok,
        decoded.pixels matches Pixels::Planar { alpha: Some(_), .. },
        0 <= plane < decoded.format.planes(),
        plane == 0 || decoded.format.subsampling() == (0int, 0int),
        0 <= x < decoded.transform.size(decoded.width as int, decoded.height as int).0,
        0 <= y < decoded.transform.size(decoded.width as int, decoded.height as int).1,
        color.0.has_rows(
            plane,
            decoded.transform.size(decoded.width as int, decoded.height as int).1,
        ),
        alpha.0.has_rows(
            0,
            decoded.transform.size(decoded.width as int, decoded.height as int).1,
        ),
    ensures
        decoded.pixels matches Pixels::Planar { planes, alpha: Some(opacity) } && {
            let (columns, rows) = decoded.transform.size(
                decoded.width as int,
                decoded.height as int,
            );
            let (column, row) = decoded.transform.source(x, y, columns, rows);
            &&& 0 <= column < decoded.width
            &&& 0 <= row < decoded.height
            &&& held_sample(color.1, plane, x, y, decoded.format.word())
                == planar::plane_channel(
                planes@[plane]@,
                decoded.format,
                decoded.width as int,
                color.0.order,
            ).sample(column, row)
            &&& held_sample(alpha.1, 0, x, y, decoded.format.alpha().word())
                == planar::plane_channel(
                opacity@,
                decoded.format.alpha(),
                decoded.width as int,
                alpha.0.order,
            ).sample(column, row)
        },
{
    transform::a_source_lies_inside_the_picture(
        decoded.transform,
        x,
        y,
        decoded.width as int,
        decoded.height as int,
    );
    if let Pixels::Planar { planes, alpha: Some(opacity) } = decoded.pixels {
        lemma_whole_plane(
            color,
            color_written,
            decoded.format,
            decoded.width,
            decoded.height,
            planes@,
            decoded.transform,
            plane,
            x,
            y,
        );
        lemma_whole_plane(
            alpha,
            alpha_written,
            decoded.format.alpha(),
            decoded.width,
            decoded.height,
            seq![opacity],
            decoded.transform,
            0,
            x,
            y,
        );
    }
}

/// Writes the decoded pixels of one image into one clip's frame.
///
/// The frames are the size `decoded.transform` produces, and both clips of an
/// image are written with the same transform, so the alpha plane lands where the
/// colour planes do.
pub fn write_frame(
    frame: &mut Frame,
    clip: Clip,
    format: PixelFormat,
    decoded: &DecodedImage,
) -> (written: Result<WriteTimings, ImgSeqError>)
    requires
        format == clip.format_of(decoded.format),
        laid_out(*decoded),
        old(frame).valid(),
        old(frame).format.depth_is_sound(),
        frame::shaped(
            *old(frame),
            format,
            decoded.transform.size(decoded.width as int, decoded.height as int).0,
            decoded.transform.size(decoded.width as int, decoded.height as int).1,
        ),
    ensures
        final(frame).valid(),
        write_outcome(*old(frame), *final(frame), written, clip, *decoded),
{
    let transform = decoded.transform;
    match (clip, &decoded.pixels) {
        (Clip::Color, Pixels::Planar { planes, .. }) => write_decoded_planes(
            frame,
            decoded.format,
            decoded.width,
            decoded.height,
            planes.as_slice(),
            transform,
        ),
        (Clip::Color, Pixels::Interleaved { color_type, buffer }) => write_planar(
            frame,
            *color_type,
            decoded.width,
            decoded.height,
            buffer.as_slice(),
            transform,
        ),
        (Clip::Alpha, Pixels::Planar { alpha: Some(plane), .. }) => write_decoded_plane(
            frame,
            format,
            decoded.width,
            decoded.height,
            plane,
            transform,
        ),
        // A planar decode without an alpha plane has no alpha channel to read.
        (Clip::Alpha, Pixels::Planar { alpha: None, .. }) => write_opaque_alpha(
            frame,
            format,
            decoded.output_width(),
            decoded.output_height(),
        ),
        (Clip::Alpha, Pixels::Interleaved { color_type, buffer }) => write_alpha(
            frame,
            *color_type,
            decoded.width,
            decoded.height,
            buffer.as_slice(),
            transform,
        ),
    }
}

/// Bytes some planes hold, row padding included.
pub open spec fn planes_total(planes: Seq<frame::Plane>) -> int
    decreases planes.len(),
{
    if planes.len() == 0 {
        0
    } else {
        planes_total(planes.drop_last()) + planes.last().stride * planes.last().rows@.len()
    }
}

/// Bytes one frame holds, row padding included.
pub fn frame_bytes(frame: &Frame) -> (bytes: usize)
    ensures
        bytes == pixel_format::saturated(planes_total(frame.planes@)),
{
    let mut bytes: usize = 0;
    let mut index: usize = 0;
    while index < frame.planes.len()
        invariant
            index <= frame.planes@.len(),
            bytes == pixel_format::saturated(planes_total(frame.planes@.take(index as int))),
            0 <= planes_total(frame.planes@.take(index as int)),
        decreases frame.planes@.len() - index,
    {
        assert(frame.planes@.take(index + 1).drop_last() =~= frame.planes@.take(index as int));
        let stride: usize = frame.planes[index].stride;
        let rows: usize = frame.planes[index].rows.len();
        assert(0 <= stride * rows) by (nonlinear_arith)
            requires
                0 <= stride,
                0 <= rows,
        ;
        bytes = saturating_sum(bytes, saturating_product(stride, rows));
        index = index + 1;
    }
    assert(frame.planes@.take(index as int) =~= frame.planes@);
    bytes
}

/// The frames of every clip of one call, built from one decoded image.
///
/// Cloning one hands out the same frames again: a clone only takes a reference
/// to the frames, so a second clip of a call asks the pool for this payload and
/// takes the frame it needs.
pub struct ClipFrames {
    clips: Arc<Vec<Clip>>,
    frames: Arc<Vec<Frame>>,
    timings: Arc<Vec<FrameTimings>>,
    decode: DecodeTimings,
    bytes: usize,
}

/// Whether `index` is where `clip` is among the clips of a call.
pub open spec fn is_clip_at(clips: Seq<Clip>, clip: Clip, index: int) -> bool {
    &&& 0 <= index < clips.len()
    &&& clips[index] == clip
    &&& forall|before: int| 0 <= before < index ==> #[trigger] clips[before] != clip
}

/// What a call that does not hand out a clip is refused with.
pub open spec fn no_clip_text(clip: Clip) -> Seq<char> {
    "this call does not hand out the "@ + clip.text() + " clip"@
}

impl ClipFrames {
    /// The clips of the call.
    pub closed spec fn listed(self) -> Seq<Clip> {
        self.clips@
    }

    /// The frame of each clip.
    pub closed spec fn built(self) -> Seq<Frame> {
        self.frames@
    }

    /// What writing each frame took.
    pub closed spec fn measured(self) -> Seq<FrameTimings> {
        self.timings@
    }

    /// What decoding the image took.
    pub closed spec fn decoded_in(self) -> DecodeTimings {
        self.decode
    }

    /// What the frames are counted as.
    pub closed spec fn counted(self) -> usize {
        self.bytes
    }

    #[verifier::type_invariant]
    spec fn one_frame_each(self) -> bool {
        &&& self.frames@.len() == self.clips@.len()
        &&& self.timings@.len() == self.clips@.len()
    }

    /// Frame of `clip`.
    pub fn frame(&self, clip: Clip) -> (frame: Result<&Frame, ImgSeqError>)
        ensures
            if self.listed().contains(clip) {
                exists|index: int|
                    #[trigger] is_clip_at(self.listed(), clip, index) && frame == Ok::<
                        &Frame,
                        ImgSeqError,
                    >(&self.built()[index])
            } else {
                error::fails_with(frame, no_clip_text(clip))
            },
    {
        proof {
            use_type_invariant(self);
        }
        match self.clip_index(clip) {
            Ok(index) => Ok(&self.frames[index]),
            Err(error) => Err(error),
        }
    }

    /// Decode timings of the image these frames were written from.
    pub fn decode_timings(&self) -> (timings: &DecodeTimings)
        ensures
            *timings == self.decoded_in(),
    {
        &self.decode
    }

    /// What writing one clip's frame cost, in the worker that did it.
    pub fn frame_timings(&self, clip: Clip) -> (timings: Option<FrameTimings>)
        ensures
            if self.listed().contains(clip) {
                exists|index: int|
                    #[trigger] is_clip_at(self.listed(), clip, index) && timings == Some(
                        self.measured()[index],
                    )
            } else {
                timings is None
            },
    {
        proof {
            use_type_invariant(self);
        }
        match self.clip_index(clip) {
            Ok(index) => Some(self.timings[index]),
            Err(_) => None,
        }
    }

    fn clip_index(&self, clip: Clip) -> (index: Result<usize, ImgSeqError>)
        ensures
            match index {
                Ok(index) => is_clip_at(self.clips@, clip, index as int) && self.clips@.contains(
                    clip,
                ),
                Err(error) => !self.clips@.contains(clip) && error@ == error::error_text(
                    no_clip_text(clip),
                ),
            },
    {
        let mut index: usize = 0;
        while index < self.clips.len()
            invariant
                index <= self.clips@.len(),
                forall|before: int| 0 <= before < index ==> #[trigger] self.clips@[before] != clip,
            decreases self.clips@.len() - index,
        {
            if self.clips[index] == clip {
                assert(self.clips@[index as int] == clip);
                return Ok(index);
            }
            index = index + 1;
        }
        let mut message = String::from_str("this call does not hand out the ");
        message.append(clip.name());
        message.append(" clip");
        Err(ImgSeqError::new(message))
    }
}

impl Clone for ClipFrames {
    fn clone(&self) -> (same: Self)
        ensures
            same == *self,
    {
        proof {
            use_type_invariant(self);
        }
        ClipFrames {
            clips: Arc::clone(&self.clips),
            frames: Arc::clone(&self.frames),
            timings: Arc::clone(&self.timings),
            decode: self.decode,
            bytes: self.bytes,
        }
    }
}

impl Payload for ClipFrames {
    closed spec fn held(&self) -> usize {
        self.bytes
    }

    fn bytes(&self) -> (bytes: usize) {
        self.bytes
    }
}

/// Whether `frame` is what one clip of a call hands out for a decoded image:
/// the pixels written into a frame nothing was written into before, with the
/// metadata of the image.
#[verifier::opaque]
pub open spec fn frame_finished(
    frame: Frame,
    clip: Clip,
    image: ImageInfo,
    index: int,
    decoded: DecodedImage,
    order: ByteOrder,
    alignment: usize,
) -> bool {
    let format = clip.format_of(decoded.format);
    let (width, height) = decoded.transform.size(decoded.width as int, decoded.height as int);
    exists|blank: Frame, written: Frame, timings: WriteTimings|
        {
            &&& #[trigger] write_outcome(
                blank,
                written,
                Ok::<WriteTimings, ImgSeqError>(timings),
                clip,
                decoded,
            )
            &&& frame::blank_frame(blank, format, width, height, order, alignment as int)
            &&& frame.format == written.format
            &&& frame.order == written.order
            &&& frame.planes == written.planes
            &&& frame.properties@ == color::tagged(
                written.properties@,
                image,
                index,
                format,
                clip.marker(),
                false,
            )
        }
}

/// Whether making or writing the frame of a clip fails with `error`.
#[verifier::opaque]
pub open spec fn frame_fails(
    error: ImgSeqError,
    clip: Clip,
    decoded: DecodedImage,
    order: ByteOrder,
    alignment: usize,
) -> bool {
    let format = clip.format_of(decoded.format);
    let (width, height) = decoded.transform.size(decoded.width as int, decoded.height as int);
    match frame_problem(format, width as u32, height as u32, alignment) {
        Some(message) => error@ == error::error_text(message),
        None => exists|blank: Frame, after: Frame|
            {
                &&& #[trigger] write_outcome(
                    blank,
                    after,
                    Err::<WriteTimings, ImgSeqError>(error),
                    clip,
                    decoded,
                )
                &&& frame::blank_frame(blank, format, width, height, order, alignment as int)
            },
    }
}

/// Bytes some frames hold together.
pub open spec fn frames_total(frames: Seq<Frame>) -> int
    decreases frames.len(),
{
    if frames.len() == 0 {
        0
    } else {
        frames_total(frames.drop_last()) + planes_total(frames.last().planes@)
    }
}

proof fn lemma_planes_total(planes: Seq<frame::Plane>)
    ensures
        0 <= planes_total(planes),
    decreases planes.len(),
{
    if planes.len() > 0 {
        lemma_planes_total(planes.drop_last());
        let last = planes.last();
        assert(0 <= last.stride * last.rows@.len()) by (nonlinear_arith)
            requires
                0 <= last.stride,
                0 <= last.rows@.len(),
        ;
    }
}

/// What a request for a frame before the first is refused with.
pub open spec fn invalid_text(index: i32) -> Seq<char> {
    "requested invalid frame "@ + text::signed_text(index as int)
}

/// Error for a frame index before the first.
pub fn invalid_frame(index: i32) -> (error: ImgSeqError)
    ensures
        error@ == error::error_text(invalid_text(index)),
{
    let mut message = String::from_str("requested invalid frame ");
    let digits = decimal_signed(index as i64);
    message.append(digits.as_str());
    ImgSeqError::new(message)
}

/// Whether the clip after the ones with a finished frame is the one that fails
/// with `error`.
pub open spec fn fails_after(
    finished: Seq<Frame>,
    error: ImgSeqError,
    clips: Seq<Clip>,
    image: ImageInfo,
    index: int,
    decoded: DecodedImage,
    order: ByteOrder,
    alignment: usize,
) -> bool {
    &&& finished.len() < clips.len()
    &&& frame_fails(error, clips[finished.len() as int], decoded, order, alignment)
    &&& forall|at: int|
        0 <= at < finished.len() ==> frame_finished(
            #[trigger] finished[at],
            clips[at],
            image,
            index,
            decoded,
            order,
            alignment,
        )
}

/// Whether one of the clips of a call is the first that fails, and with `error`.
pub open spec fn one_fails(
    error: ImgSeqError,
    clips: Seq<Clip>,
    image: ImageInfo,
    index: int,
    decoded: DecodedImage,
    order: ByteOrder,
    alignment: usize,
) -> bool {
    exists|finished: Seq<Frame>| #[trigger]
        fails_after(finished, error, clips, image, index, decoded, order, alignment)
}

/// Whether every clip of a call has its finished frame.
pub open spec fn all_finished(
    built: ClipFrames,
    clips: Seq<Clip>,
    image: ImageInfo,
    index: int,
    decoded: DecodedImage,
    order: ByteOrder,
    alignment: usize,
) -> bool {
    &&& built.listed() == clips
    &&& built.built().len() == clips.len()
    &&& forall|at: int|
        0 <= at < clips.len() ==> frame_finished(
            #[trigger] built.built()[at],
            clips[at],
            image,
            index,
            decoded,
            order,
            alignment,
        )
    &&& built.counted() == pixel_format::saturated(frames_total(built.built()))
    &&& built.decoded_in() == decoded.timings
}

/// What building the frames of every clip of a call comes to: a frame for each
/// clip, or the failure of the first clip that has one.
pub open spec fn frames_outcome(
    built: Result<ClipFrames, ImgSeqError>,
    clips: Seq<Clip>,
    image: ImageInfo,
    index: i32,
    decoded: DecodedImage,
    order: ByteOrder,
    alignment: usize,
) -> bool {
    if index < 0 {
        error::fails_with(built, invalid_text(index))
    } else {
        match built {
            Ok(built) => all_finished(
                built,
                clips,
                image,
                index as int,
                decoded,
                order,
                alignment,
            ),
            Err(error) => one_fails(error, clips, image, index as int, decoded, order, alignment),
        }
    }
}

/// Builds the frames of every clip of one call, on the worker that decoded the
/// image.
pub struct FrameBuilder {
    clips: Arc<Vec<Clip>>,
    order: ByteOrder,
    alignment: usize,
}

impl FrameBuilder {
    /// The clips of the call.
    pub closed spec fn listed(self) -> Seq<Clip> {
        self.clips@
    }

    /// The order the samples of the frames are stored in.
    pub closed spec fn byte_order(self) -> ByteOrder {
        self.order
    }

    /// What every row of a frame starts on a multiple of.
    pub closed spec fn row_alignment(self) -> usize {
        self.alignment
    }

    #[verifier::type_invariant]
    spec fn aligned(self) -> bool {
        0 < self.alignment
    }

    /// Builder of the clips of one call, for frames whose rows start on
    /// multiples of `alignment` bytes.
    pub fn new(clips: Vec<Clip>, order: ByteOrder, alignment: usize) -> (builder: Self)
        requires
            0 < alignment,
        ensures
            builder.listed() == clips@,
            builder.byte_order() == order,
            builder.row_alignment() == alignment,
    {
        FrameBuilder { clips: Arc::new(clips), order, alignment }
    }

    /// Builds the frame of one clip of the call.
    fn frame_of(&self, clip: Clip, image: &ImageInfo, index: i32, decoded: &DecodedImage) -> (built:
        Result<(Frame, FrameTimings), ImgSeqError>)
        requires
            0 <= index,
            laid_out(*decoded),
        ensures
            match built {
                Ok((frame, _)) => frame_finished(
                    frame,
                    clip,
                    *image,
                    index as int,
                    *decoded,
                    self.order,
                    self.alignment,
                ),
                Err(error) => frame_fails(error, clip, *decoded, self.order, self.alignment),
            },
    {
        proof {
            use_type_invariant(self);
            reveal(frame_finished);
            reveal(frame_fails);
        }
        // A rotation may have swapped the stored size, and the frames are the
        // size the pixels are written as rather than the size the file holds.
        let output_width: u32 = decoded.output_width();
        let output_height: u32 = decoded.output_height();
        let format = clip.pixel_format(decoded.format);
        let allocate_started = std::time::Instant::now();
        let mut frame = match new_frame(
            format,
            output_width,
            output_height,
            self.order,
            self.alignment,
        ) {
            Ok(frame) => frame,
            Err(error) => {
                return Err(error);
            },
        };
        let allocate = allocate_started.elapsed();
        let ghost blank = frame;
        let write = match write_frame(&mut frame, clip, format, decoded) {
            Ok(write) => write,
            Err(error) => {
                assert(write_outcome(
                    blank,
                    frame,
                    Err::<WriteTimings, ImgSeqError>(error),
                    clip,
                    *decoded,
                ));
                return Err(error);
            },
        };
        let ghost written = frame;
        assert(write_outcome(
            blank,
            written,
            Ok::<WriteTimings, ImgSeqError>(write),
            clip,
            *decoded,
        ));
        let properties_started = std::time::Instant::now();
        match set_frame_properties(
            &mut frame,
            image,
            index as usize,
            format,
            clip.alpha_marker(),
            false,
        ) {
            Ok(_) => {},
            Err(error) => {
                return Err(error);
            },
        }
        let properties = properties_started.elapsed();
        Ok((frame, FrameTimings { allocate, write, properties }))
    }

    /// Builds every frame of the call from one decoded image.
    pub fn frames(&self, image: &ImageInfo, index: i32, decoded: DecodedImage) -> (built: Result<
        ClipFrames,
        ImgSeqError,
    >)
        requires
            laid_out(decoded),
        ensures
            frames_outcome(
                built,
                self.listed(),
                *image,
                index,
                decoded,
                self.byte_order(),
                self.row_alignment(),
            ),
    {
        proof {
            use_type_invariant(self);
        }
        if index < 0 {
            return Err(invalid_frame(index));
        }
        let ghost order = self.order;
        let ghost alignment = self.alignment;
        let ghost clips = self.clips@;
        let mut frames: Vec<Frame> = Vec::new();
        let mut timings: Vec<FrameTimings> = Vec::new();
        let mut bytes: usize = 0;
        let mut at: usize = 0;
        while at < self.clips.len()
            invariant
                at <= self.clips@.len(),
                clips == self.clips@,
                0 <= index,
                order == self.order,
                alignment == self.alignment,
                laid_out(decoded),
                frames@.len() == at,
                timings@.len() == at,
                forall|done: int|
                    0 <= done < at ==> frame_finished(
                        #[trigger] frames@[done],
                        clips[done],
                        *image,
                        index as int,
                        decoded,
                        order,
                        alignment,
                    ),
                bytes == pixel_format::saturated(frames_total(frames@)),
                0 <= frames_total(frames@),
            decreases self.clips@.len() - at,
        {
            let (frame, measured) = match self.frame_of(self.clips[at], image, index, &decoded) {
                Ok(finished) => finished,
                Err(error) => {
                    assert(fails_after(
                        frames@,
                        error,
                        self.listed(),
                        *image,
                        index as int,
                        decoded,
                        self.byte_order(),
                        self.row_alignment(),
                    ));
                    assert(one_fails(
                        error,
                        self.listed(),
                        *image,
                        index as int,
                        decoded,
                        self.byte_order(),
                        self.row_alignment(),
                    ));
                    return Err(error);
                },
            };
            proof {
                lemma_planes_total(frame.planes@);
                assert(frames@.push(frame).drop_last() =~= frames@);
            }
            bytes = saturating_sum(bytes, frame_bytes(&frame));
            frames.push(frame);
            timings.push(measured);
            at = at + 1;
        }
        Ok(
            ClipFrames {
                clips: Arc::clone(&self.clips),
                frames: Arc::new(frames),
                timings: Arc::new(timings),
                decode: decoded.timings,
                bytes,
            },
        )
    }
}

impl Prepare for FrameBuilder {
    type Payload = ClipFrames;

    closed spec fn estimated(&self, image: ImageInfo) -> usize {
        pixel_format::saturated(frames_need(self.clips@, image)) as usize
    }

    open spec fn buildable(&self, decoded: DecodedImage) -> bool {
        laid_out(decoded)
    }

    fn estimate(&self, image: &ImageInfo) -> (bytes: usize)
        ensures
            bytes == pixel_format::saturated(frames_need(self.listed(), *image)),
    {
        expected_bytes(self.clips.as_slice(), image)
    }

    fn build(&self, image: &ImageInfo, index: i32, decoded: DecodedImage) -> (built: Result<
        ClipFrames,
        ImgSeqError,
    >)
        ensures
            frames_outcome(
                built,
                self.listed(),
                *image,
                index,
                decoded,
                self.byte_order(),
                self.row_alignment(),
            ),
    {
        self.frames(image, index, decoded)
    }
}

/// What a call is expected to hold for an image grows with every clip by the bytes of
/// its frame: all the planes of the image for the colour clip, and one sample of the
/// same size for each pixel for the alpha clip.
pub proof fn a_further_clip_needs_its_own_frame(clips: Seq<Clip>, clip: Clip, image: ImageInfo)
    ensures
        ({
            let columns = if image.transform.transpose {
                image.height as int
            } else {
                image.width as int
            };
            let rows = if image.transform.transpose {
                image.width as int
            } else {
                image.height as int
            };
            let word = image.format.word();
            let grown = frames_need(clips.push(clip), image) - frames_need(clips, image);
            let bytes = if clip == Clip::Alpha || image.format.planes() == 1 {
                columns * rows * word
            } else {
                columns * rows * word + 2 * image.format.packed_plane(1, columns, rows)
            };
            grown == (if bytes > usize::MAX {
                usize::MAX as int
            } else {
                bytes
            })
        }),
        frames_need(Seq::<Clip>::empty(), image) == 0,
{
    assert(clips.push(clip).drop_last() =~= clips);
    let (columns, rows) = image.transform.size(image.width as int, image.height as int);
    let format = clip.format_of(image.format);
    pixel_format::an_alpha_format_keeps_the_depth(image.format);
    pixel_format::a_plane_has_its_share_of_the_picture(format, 0, columns, rows);
    assert(format.planes() == 1 || format.planes() == 3);
}

/// The colour clip has the format of the image and says nothing of alpha; the alpha clip
/// has a gray plane of the same depth and says that it is one.
pub proof fn a_clip_has_the_format_of_its_samples(clip: Clip, format: PixelFormat)
    ensures
        match clip {
            Clip::Color => clip.format_of(format) == format && clip.marker() is None,
            Clip::Alpha => {
                &&& clip.marker() == Some(true)
                &&& clip.format_of(format).planes() == 1
                &&& clip.format_of(format).bits() == format.bits()
                &&& clip.format_of(format).float() == format.float()
            },
        },
{
    pixel_format::an_alpha_format_keeps_the_depth(format);
}

/// A frame can be made just when both sides of the picture fit a number VapourSynth has
/// for them and a row of its first plane, padded, can be counted.
pub proof fn a_frame_is_refused_for_its_size_alone(
    format: PixelFormat,
    width: u32,
    height: u32,
    alignment: usize,
)
    requires
        0 < alignment,
    ensures
        (frame_problem(format, width, height, alignment) is None) == (width <= 0x7fff_ffff && height
            <= 0x7fff_ffff && frame::padded(width * format.word(), alignment as int)
            <= usize::MAX),
{
}

/// The bytes of a frame are those of all of its rows, with what pads them.
pub proof fn a_further_plane_adds_its_rows(planes: Seq<frame::Plane>, plane: frame::Plane)
    ensures
        planes_total(planes.push(plane)) == planes_total(planes) + plane.stride
            * plane.rows@.len(),
        planes_total(Seq::<frame::Plane>::empty()) == 0,
{
    assert(planes.push(plane).drop_last() =~= planes);
}

/// A finished payload has a frame for each clip that was asked for, in their order, and
/// counts the bytes of all of them.
pub proof fn every_clip_of_a_call_has_its_frame(
    built: ClipFrames,
    clips: Seq<Clip>,
    image: ImageInfo,
    index: i32,
    decoded: DecodedImage,
    order: ByteOrder,
    alignment: usize,
    at: int,
)
    requires
        frames_outcome(Ok(built), clips, image, index, decoded, order, alignment),
    ensures
        index >= 0,
        built.listed() == clips,
        built.built().len() == clips.len(),
        built.decoded_in() == decoded.timings,
        frames_total(built.built()) <= usize::MAX ==> built.counted() == frames_total(
            built.built(),
        ),
        0 <= at < clips.len() ==> frame_finished(
            built.built()[at],
            clips[at],
            image,
            index as int,
            decoded,
            order,
            alignment,
        ),
{
}

/// A clip is found where it first stands among those of the call, and a further frame
/// adds the bytes of its planes.
pub proof fn a_clip_is_found_where_it_first_stands(
    clips: Seq<Clip>,
    clip: Clip,
    index: int,
    frames: Seq<Frame>,
    frame: Frame,
)
    ensures
        is_clip_at(clips, clip, index) ==> 0 <= index < clips.len() && clips[index] == clip
            && !clips.take(index).contains(clip),
        frames_total(frames.push(frame)) == frames_total(frames) + planes_total(frame.planes@),
        frames_total(Seq::<Frame>::empty()) == 0,
{
    assert(frames.push(frame).drop_last() =~= frames);
}

/// Interleaved samples are laid out for a format just when none of its planes is halved,
/// and planes of their own for every format.
pub proof fn interleaved_samples_are_never_halved(decoded: DecodedImage)
    ensures
        decoded.pixels is Planar ==> laid_out(decoded),
        decoded.pixels is Interleaved ==> laid_out(decoded) == (decoded.format.subsampling().0 == 0
            && decoded.format.subsampling().1 == 0),
{
}

} // verus!
