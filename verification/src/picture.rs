//! What the frames of a clip show of a decoded picture, byte by byte.

use vstd::prelude::*;

use vstd::arithmetic::power2::{lemma2_to64, lemma_pow2_pos, pow2};

use crate::clip;
use crate::clip::Clip;
use crate::decoder::{DecodedImage, ImageInfo, Pixels};
use crate::error::ImgSeqError;
use crate::frame;
use crate::frame::{ByteOrder, ColorFamily, Frame, Plane, VideoFormat};
use crate::image_types::ColorType;
use crate::pixel::alpha;
use crate::pixel::channel;
use crate::pixel::channel::Channel;
use crate::pixel::interleaved;
use crate::pixel::layout;
use crate::pixel::pixel_format;
use crate::pixel::planar;
use crate::pixel::samples;
use crate::pixel::transform;
use crate::pixel::{PixelFormat, Transform, WriteTimings};

verus! {

/// Two bytes, one after the other, as the frame of a byte order reads them.
pub open spec fn read_as(order: ByteOrder, first: u8, second: u8) -> int {
    match order {
        ByteOrder::Little => first as int + 256 * second as int,
        ByteOrder::Big => 256 * first as int + second as int,
    }
}

proof fn lemma_moved_word(raw: Seq<u8>, shift: int, order: ByteOrder)
    requires
        raw.len() == 2,
        0 <= shift < 16,
    ensures
        samples::moved(raw, shift, order).len() == 2,
        read_as(
            order,
            samples::moved(raw, shift, order)[0],
            samples::moved(raw, shift, order)[1],
        ) == read_as(order, raw[0], raw[1]) / pow2(shift as nat) as int,
{
    lemma2_to64();
    lemma_pow2_pos(shift as nat);
    let value = read_as(order, raw[0], raw[1]);
    let step = pow2(shift as nat) as int;
    let moved = value / step;
    assert(0 <= moved <= value) by (nonlinear_arith)
        requires
            0 <= value,
            1 <= step,
            moved == value / step,
    ;
    if shift == 0 {
        assert(value / 1 == value);
    }
}

proof fn lemma_shown_bytes(
    before: Plane,
    after: Plane,
    shown: (int, int),
    source: Channel,
    turn: Transform,
    x: int,
    y: int,
    stored: (int, int),
)
    requires
        channel::plane_shows(before, after, shown.0, shown.1, source, turn),
        shown.1 <= before.rows@.len(),
        source.holds(stored.0, stored.1),
        turn.size(shown.0, shown.1).0 <= stored.0,
        turn.size(shown.0, shown.1).1 <= stored.1,
        0 <= x < shown.0,
        0 <= y < shown.1,
    ensures
        ({
            let (column, row) = turn.source(x, y, shown.0, shown.1);
            let start = row * source.row_bytes + column * (source.channels * source.bytes)
                + source.channel * source.bytes;
            let line = after.rows@[y]@;
            &&& 0 <= column < stored.0
            &&& 0 <= row < stored.1
            &&& 0 <= start
            &&& start + source.bytes <= source.pixels.len()
            &&& x * source.bytes + source.bytes <= line.len()
            &&& source.shift == 0 ==> line.subrange(
                x * source.bytes,
                x * source.bytes + source.bytes,
            ) == source.pixels.subrange(start, start + source.bytes)
            &&& source.bytes == 2 ==> read_as(source.order, line[x * 2], line[x * 2 + 1])
                == read_as(source.order, source.pixels[start], source.pixels[start + 1]) / pow2(
                source.shift as nat,
            ) as int
        }),
{
    let (width, height) = turn.size(shown.0, shown.1);
    let (column, row) = turn.source(x, y, shown.0, shown.1);
    transform::a_source_lies_inside_the_picture(turn, x, y, width, height);
    assert(source.holds(width, height)) by {
        let group = source.channels * source.bytes;
        assert(0 <= group) by (nonlinear_arith)
            requires
                group == source.channels * source.bytes,
                0 <= source.channels,
                0 <= source.bytes,
        ;
        assert(width * group <= stored.0 * group && height * source.row_bytes <= stored.1
            * source.row_bytes) by (nonlinear_arith)
            requires
                width <= stored.0,
                height <= stored.1,
                0 <= group,
                0 <= source.row_bytes,
        ;
    }
    channel::a_shown_sample_is_the_one_the_transform_finds(
        before,
        after,
        shown.0,
        shown.1,
        source,
        turn,
        x,
        y,
    );
    channel::lemma_start_inside(source, stored.0, stored.1, column, row);
    samples::lemma_room(x, shown.0, source.bytes);
    let start = source.start(column, row);
    let line = after.rows@[y]@;
    let raw = source.pixels.subrange(start, start + source.bytes);
    let held = line.subrange(x * source.bytes, x * source.bytes + source.bytes);
    assert(held == source.sample(column, row));
    assert(line.len() >= shown.0 * source.bytes);
    if source.bytes == 2 {
        lemma_moved_word(raw, source.shift, source.order);
        assert(held[0] == line[x * 2] && held[1] == line[x * 2 + 1]);
        assert(raw[0] == source.pixels[start] && raw[1] == source.pixels[start + 1]);
    }
}

/// Every sample of a colour frame is a sample of the decoded buffer, named by
/// where its bytes are: plane `plane` holds channel `plane`, so that red, green
/// and blue are planes zero, one and two, whether or not an alpha channel follows
/// them. The pixel is the one the orientation shows in that place, and a frame of
/// a smaller depth than the decoder's word holds the top bits of the sample.
pub proof fn a_colour_sample_is_its_bytes_of_the_buffer(
    decoded: DecodedImage,
    before: Frame,
    after: Frame,
    written: Result<WriteTimings, ImgSeqError>,
    color_type: ColorType,
    buffer: Seq<u8>,
    plane: int,
    x: int,
    y: int,
)
    requires
        clip::write_outcome(before, after, written, Clip::Color, decoded),
        written is Ok,
        decoded.pixels matches Pixels::Interleaved { color_type: stated, buffer: held }
            && stated == color_type && held@ == buffer,
        before.format.depth_is_sound(),
        0 <= plane < before.format.num_planes,
        0 <= x < (if decoded.transform.transpose {
            decoded.height
        } else {
            decoded.width
        }),
        0 <= y < (if decoded.transform.transpose {
            decoded.width
        } else {
            decoded.height
        }),
        before.planes@[plane].rows@.len() >= (if decoded.transform.transpose {
            decoded.width
        } else {
            decoded.height
        }),
    ensures
        ({
            let width = decoded.width as int;
            let height = decoded.height as int;
            let channels: int = match color_type {
                ColorType::L8 | ColorType::L16 => 1,
                ColorType::La8 | ColorType::La16 => 2,
                ColorType::Rgb8 | ColorType::Rgb16 | ColorType::Rgb32F => 3,
                _ => 4,
            };
            let word: int = match color_type {
                ColorType::L8 | ColorType::La8 | ColorType::Rgb8 | ColorType::Rgba8 => 1,
                ColorType::L16 | ColorType::La16 | ColorType::Rgb16 | ColorType::Rgba16 => 2,
                _ => 4,
            };
            let across = if decoded.transform.flip_x {
                (if decoded.transform.transpose {
                    height
                } else {
                    width
                }) - 1 - x
            } else {
                x
            };
            let down = if decoded.transform.flip_y {
                (if decoded.transform.transpose {
                    width
                } else {
                    height
                }) - 1 - y
            } else {
                y
            };
            let (column, row) = if decoded.transform.transpose {
                (down, across)
            } else {
                (across, down)
            };
            let start = row * (width * channels * word) + column * (channels * word) + plane
                * word;
            let line = after.planes@[plane].rows@[y]@;
            &&& color_type != ColorType::Unknown
            &&& plane < channels
            &&& buffer.len() == width * channels * word * height
            &&& 0 <= column < width
            &&& 0 <= row < height
            &&& 0 <= start
            &&& start + word <= buffer.len()
            &&& before.format.bytes_per_sample == word
            &&& x * word + word <= line.len()
            &&& before.format.bits_per_sample == 8 * word ==> line.subrange(
                x * word,
                x * word + word,
            ) == buffer.subrange(start, start + word)
            &&& word == 2 ==> read_as(after.order, line[x * 2], line[x * 2 + 1]) == read_as(
                after.order,
                buffer[start],
                buffer[start + 1],
            ) / pow2((16 - before.format.bits_per_sample) as nat) as int
        }),
{
    let shape = layout::layout_of(
        color_type,
        decoded.width,
        decoded.height,
        buffer.len() as int,
    )->Ok_0;
    let turn = decoded.transform;
    let (columns, rows) = turn.size(decoded.width as int, decoded.height as int);
    let planes = before.format.num_planes as int;
    let word = shape.format.word();
    let row_bytes = columns * word;
    let shift = layout::depth_of(before.format, shape.format)->Ok_0.shift;
    let source = interleaved::channel_of(buffer, shape, plane, shift, before.order);
    interleaved::lemma_layout_holds(color_type, decoded.width, decoded.height, buffer);
    interleaved::lemma_channel_holds(buffer, shape, plane, shift, before.order);
    transform::a_source_lies_inside_the_picture(
        turn,
        x,
        y,
        decoded.width as int,
        decoded.height as int,
    );
    let problem = |index: int| layout::target_problem(before, index, row_bytes);
    layout::lemma_leading_fine_bound(problem, planes);
    layout::lemma_leading_fine_is_fine(problem, planes, plane);
    assert(problem(plane) is None);
    assert(channel::plane_shows(
        before.planes@[plane],
        after.planes@[plane],
        columns,
        rows,
        source,
        turn,
    ));
    lemma_shown_bytes(
        before.planes@[plane],
        after.planes@[plane],
        (columns, rows),
        source,
        turn,
        x,
        y,
        (decoded.width as int, decoded.height as int),
    );
}

/// Every sample of the alpha frame of a picture with an alpha channel is a sample
/// of the last channel of the decoded buffer, of the pixel that the orientation
/// shows in that place.
pub proof fn an_alpha_sample_is_its_bytes_of_the_buffer(
    decoded: DecodedImage,
    before: Frame,
    after: Frame,
    written: Result<WriteTimings, ImgSeqError>,
    color_type: ColorType,
    buffer: Seq<u8>,
    x: int,
    y: int,
)
    requires
        clip::write_outcome(before, after, written, Clip::Alpha, decoded),
        written is Ok,
        decoded.pixels matches Pixels::Interleaved { color_type: stated, buffer: held }
            && stated == color_type && held@ == buffer,
        match color_type {
            ColorType::La8
            | ColorType::La16
            | ColorType::Rgba8
            | ColorType::Rgba16
            | ColorType::Rgba32F => true,
            _ => false,
        },
        before.format.depth_is_sound(),
        0 <= x < (if decoded.transform.transpose {
            decoded.height
        } else {
            decoded.width
        }),
        0 <= y < (if decoded.transform.transpose {
            decoded.width
        } else {
            decoded.height
        }),
        before.planes@[0].rows@.len() >= (if decoded.transform.transpose {
            decoded.width
        } else {
            decoded.height
        }),
    ensures
        ({
            let width = decoded.width as int;
            let height = decoded.height as int;
            let channels: int = match color_type {
                ColorType::La8 | ColorType::La16 => 2,
                _ => 4,
            };
            let word: int = match color_type {
                ColorType::La8 | ColorType::Rgba8 => 1,
                ColorType::La16 | ColorType::Rgba16 => 2,
                _ => 4,
            };
            let across = if decoded.transform.flip_x {
                (if decoded.transform.transpose {
                    height
                } else {
                    width
                }) - 1 - x
            } else {
                x
            };
            let down = if decoded.transform.flip_y {
                (if decoded.transform.transpose {
                    width
                } else {
                    height
                }) - 1 - y
            } else {
                y
            };
            let (column, row) = if decoded.transform.transpose {
                (down, across)
            } else {
                (across, down)
            };
            let start = row * (width * channels * word) + column * (channels * word) + (channels
                - 1) * word;
            let line = after.planes@[0].rows@[y]@;
            &&& buffer.len() == width * channels * word * height
            &&& 0 <= column < width
            &&& 0 <= row < height
            &&& 0 <= start
            &&& start + word <= buffer.len()
            &&& before.format.bytes_per_sample == word
            &&& x * word + word <= line.len()
            &&& before.format.bits_per_sample == 8 * word ==> line.subrange(
                x * word,
                x * word + word,
            ) == buffer.subrange(start, start + word)
            &&& word == 2 ==> read_as(after.order, line[x * 2], line[x * 2 + 1]) == read_as(
                after.order,
                buffer[start],
                buffer[start + 1],
            ) / pow2((16 - before.format.bits_per_sample) as nat) as int
        }),
{
    let shape = layout::layout_of(
        color_type,
        decoded.width,
        decoded.height,
        buffer.len() as int,
    )->Ok_0;
    let turn = decoded.transform;
    let (columns, rows) = turn.size(decoded.width as int, decoded.height as int);
    let shift = layout::depth_of(before.format, shape.format)->Ok_0.shift;
    let channel = pixel_format::alpha_index(color_type)->Some_0;
    let source = interleaved::channel_of(buffer, shape, channel, shift, before.order);
    interleaved::lemma_layout_holds(color_type, decoded.width, decoded.height, buffer);
    interleaved::lemma_channel_holds(buffer, shape, channel, shift, before.order);
    lemma_shown_bytes(
        before.planes@[0],
        after.planes@[0],
        (columns, rows),
        source,
        turn,
        x,
        y,
        (decoded.width as int, decoded.height as int),
    );
}

proof fn lemma_filled_sample(
    before: Plane,
    after: Plane,
    width: int,
    rows: int,
    sample: Seq<u8>,
    x: int,
    y: int,
    byte: int,
)
    requires
        alpha::plane_filled(before, after, width, rows, sample),
        0 <= x < width,
        0 <= y < rows <= before.rows@.len(),
        0 <= byte < sample.len(),
    ensures
        after.rows@[y]@[x * sample.len() + byte] == sample[byte],
{
    samples::lemma_room(x, width, sample.len() as int);
    samples::lemma_sample_byte(x, byte, sample.len() as int);
    let line = after.rows@[y]@;
    let filled = samples::packed(width, sample.len() as int, |at: int| sample);
    assert(line == filled + before.rows@[y]@.skip(width * sample.len()));
    assert(line[x * sample.len() + byte] == filled[x * sample.len() + byte]);
}

/// The alpha frame of a picture without an alpha channel is opaque in every
/// place: the largest number its depth holds, or one where its samples are
/// floating point.
pub proof fn a_picture_without_alpha_is_opaque(
    decoded: DecodedImage,
    before: Frame,
    after: Frame,
    written: Result<WriteTimings, ImgSeqError>,
    x: int,
    y: int,
)
    requires
        clip::write_outcome(before, after, written, Clip::Alpha, decoded),
        written is Ok,
        match decoded.pixels {
            Pixels::Interleaved { color_type, .. } => match color_type {
                ColorType::La8
                | ColorType::La16
                | ColorType::Rgba8
                | ColorType::Rgba16
                | ColorType::Rgba32F => false,
                _ => true,
            },
            Pixels::Planar { alpha, .. } => alpha is None,
        },
        before.format == VideoFormat::of(decoded.format.alpha()),
        0 <= x < (if decoded.transform.transpose {
            decoded.height
        } else {
            decoded.width
        }),
        0 <= y < (if decoded.transform.transpose {
            decoded.width
        } else {
            decoded.height
        }),
        before.planes@[0].rows@.len() >= (if decoded.transform.transpose {
            decoded.width
        } else {
            decoded.height
        }),
    ensures
        ({
            let bits = before.format.bits_per_sample as int;
            let line = after.planes@[0].rows@[y]@;
            &&& before.format.bytes_per_sample == 1 ==> line[x] == 255
            &&& before.format.bytes_per_sample == 2 ==> read_as(
                after.order,
                line[x * 2],
                line[x * 2 + 1],
            ) == pow2(bits as nat) - 1
            &&& before.format.bytes_per_sample == 4 ==> match after.order {
                ByteOrder::Little => line[x * 4] == 0 && line[x * 4 + 1] == 0 && line[x * 4 + 2]
                    == 0x80 && line[x * 4 + 3] == 0x3f,
                ByteOrder::Big => line[x * 4] == 0x3f && line[x * 4 + 1] == 0x80 && line[x * 4
                    + 2] == 0 && line[x * 4 + 3] == 0,
            }
        }),
{
    lemma2_to64();
    let turn = decoded.transform;
    let (columns, rows) = turn.size(decoded.width as int, decoded.height as int);
    let bits = before.format.bits_per_sample as int;
    let word = before.format.bytes_per_sample as int;
    let maximum: int = if bits >= 16 {
        65535
    } else {
        pow2(bits as nat) - 1
    };
    if bits < 16 {
        lemma_pow2_pos(bits as nat);
        vstd::arithmetic::power2::lemma_pow2_strictly_increases(bits as nat, 16);
    }
    let sample = alpha::opaque_sample(word, maximum, before.order);
    assert(alpha::plane_filled(before.planes@[0], after.planes@[0], columns, rows, sample));
    assert(sample.len() == word);
    assert(x * 1 == x);
    lemma_filled_sample(before.planes@[0], after.planes@[0], columns, rows, sample, x, y, 0);
    if word >= 2 {
        lemma_filled_sample(before.planes@[0], after.planes@[0], columns, rows, sample, x, y, 1);
    }
    if word == 4 {
        lemma_filled_sample(before.planes@[0], after.planes@[0], columns, rows, sample, x, y, 2);
        lemma_filled_sample(before.planes@[0], after.planes@[0], columns, rows, sample, x, y, 3);
    }
}

/// Every sample of a frame whose planes were decoded as planes is the sample the
/// decoder laid out for it, plane by plane and unmoved: luma, blue and red
/// difference stay planes zero, one and two. A chroma plane of a 4:2:0 picture
/// has half as many columns and rows, and one of a 4:2:2 picture half as many
/// columns, rounded up by the decoder and down in the frame.
pub proof fn a_decoded_plane_is_shown_in_its_own_plane(
    decoded: DecodedImage,
    before: Frame,
    after: Frame,
    written: Result<WriteTimings, ImgSeqError>,
    buffers: Seq<Vec<u8>>,
    plane: int,
    x: int,
    y: int,
)
    requires
        clip::write_outcome(before, after, written, Clip::Color, decoded),
        written is Ok,
        decoded.pixels matches Pixels::Planar { planes: held, .. } && held@ == buffers,
        0 <= plane < buffers.len(),
        ({
            let (halved_columns, halved_rows) = match decoded.format {
                PixelFormat::Yuv420P8 | PixelFormat::Yuv420P10 => (plane != 0, plane != 0),
                PixelFormat::Yuv422P8 | PixelFormat::Yuv422P10 => (plane != 0, false),
                _ => (false, false),
            };
            let (columns, rows) = if decoded.transform.transpose {
                (decoded.height as int, decoded.width as int)
            } else {
                (decoded.width as int, decoded.height as int)
            };
            &&& 0 <= x < (if halved_columns {
                columns / 2
            } else {
                columns
            })
            &&& 0 <= y < (if halved_rows {
                rows / 2
            } else {
                rows
            })
            &&& before.planes@[plane].rows@.len() >= (if halved_rows {
                rows / 2
            } else {
                rows
            })
        }),
    ensures
        ({
            let (halved_columns, halved_rows) = match decoded.format {
                PixelFormat::Yuv420P8 | PixelFormat::Yuv420P10 => (plane != 0, plane != 0),
                PixelFormat::Yuv422P8 | PixelFormat::Yuv422P10 => (plane != 0, false),
                _ => (false, false),
            };
            let (columns, rows) = if decoded.transform.transpose {
                (decoded.height as int, decoded.width as int)
            } else {
                (decoded.width as int, decoded.height as int)
            };
            let held_columns = if halved_columns {
                columns / 2
            } else {
                columns
            };
            let held_rows = if halved_rows {
                rows / 2
            } else {
                rows
            };
            let laid_out = if halved_columns {
                (decoded.width + 1) / 2
            } else {
                decoded.width as int
            };
            let word: int = match decoded.format {
                PixelFormat::Gray8
                | PixelFormat::Rgb8
                | PixelFormat::Yuv420P8
                | PixelFormat::Yuv422P8
                | PixelFormat::Yuv444P8 => 1,
                PixelFormat::Gray32F | PixelFormat::Rgb32F => 4,
                _ => 2,
            };
            let across = if decoded.transform.flip_x {
                held_columns - 1 - x
            } else {
                x
            };
            let down = if decoded.transform.flip_y {
                held_rows - 1 - y
            } else {
                y
            };
            let (column, row) = if decoded.transform.transpose {
                (down, across)
            } else {
                (across, down)
            };
            let start = row * (laid_out * word) + column * word;
            let line = after.planes@[plane].rows@[y]@;
            &&& 0 <= start
            &&& start + word <= buffers[plane]@.len()
            &&& x * word + word <= line.len()
            &&& line.subrange(x * word, x * word + word) == buffers[plane]@.subrange(
                start,
                start + word,
            )
        }),
{
    lemma_planar(
        decoded.format,
        decoded.width,
        decoded.height,
        decoded.transform,
        before,
        after,
        written,
        buffers,
        plane,
        x,
        y,
    );
}

#[verifier::spinoff_prover]
proof fn lemma_planar(
    format: PixelFormat,
    width: u32,
    height: u32,
    turn: Transform,
    before: Frame,
    after: Frame,
    written: Result<WriteTimings, ImgSeqError>,
    buffers: Seq<Vec<u8>>,
    plane: int,
    x: int,
    y: int,
)
    requires
        planar::buffers_outcome(before, after, written, format, width, height, buffers, turn),
        written is Ok,
        0 <= plane < buffers.len(),
        ({
            let output = turn.size(width as int, height as int);
            let held = format.frame_plane(plane, output.0, output.1);
            &&& 0 <= x < held.0
            &&& 0 <= y < held.1
            &&& held.1 <= before.planes@[plane].rows@.len()
        }),
    ensures
        ({
            let output = turn.size(width as int, height as int);
            let held = format.frame_plane(plane, output.0, output.1);
            let laid_out = format.decoded_plane(plane, width as int, height as int).0;
            let (column, row) = turn.source(x, y, held.0, held.1);
            let word = format.word();
            let start = row * (laid_out * word) + column * word;
            let line = after.planes@[plane].rows@[y]@;
            &&& 0 <= start
            &&& start + word <= buffers[plane]@.len()
            &&& x * word + word <= line.len()
            &&& line.subrange(x * word, x * word + word) == buffers[plane]@.subrange(
                start,
                start + word,
            )
        }),
{
    let output = turn.size(width as int, height as int);
    let held = format.frame_plane(plane, output.0, output.1);
    let laid_out = format.decoded_plane(plane, width as int, height as int);
    let word = format.word();
    let source = planar::plane_channel(buffers[plane]@, format, laid_out.0, before.order);
    let problem = |index: int|
        planar::plane_problem(
            before,
            format,
            width as int,
            height as int,
            buffers,
            turn,
            index,
        );
    layout::lemma_leading_fine_bound(problem, format.planes());
    layout::lemma_leading_fine_is_fine(problem, format.planes(), plane);
    assert(problem(plane) is None);
    assert(laid_out.0 * (1 * word) <= source.row_bytes) by (nonlinear_arith)
        requires
            source.row_bytes == laid_out.0 * word,
    ;
    assert(laid_out.1 * source.row_bytes == source.row_bytes * laid_out.1) by (nonlinear_arith);
    assert(0 <= source.row_bytes) by (nonlinear_arith)
        requires
            source.row_bytes == laid_out.0 * word,
            0 <= laid_out.0,
            0 <= word,
    ;
    let (column, row) = turn.source(x, y, held.0, held.1);
    assert(column * (1 * word) == column * word) by (nonlinear_arith);
    lemma_shown_bytes(
        before.planes@[plane],
        after.planes@[plane],
        held,
        source,
        turn,
        x,
        y,
        laid_out,
    );
    let start = row * source.row_bytes + column * (source.channels * source.bytes)
        + source.channel * source.bytes;
    assert(source.channels * source.bytes == 1 * word);
    assert(source.channel * source.bytes == 0 * word);
    assert(start == row * (laid_out.0 * word) + column * word) by (nonlinear_arith)
        requires
            start == row * source.row_bytes + column * (1 * word) + 0 * word,
            source.row_bytes == laid_out.0 * word,
    ;
}

/// Every sample of the alpha frame of a picture that was decoded with an alpha
/// plane of its own is the sample of that plane, at the full size of the picture
/// whatever its chroma planes are.
pub proof fn a_decoded_alpha_plane_is_shown_at_full_size(
    decoded: DecodedImage,
    before: Frame,
    after: Frame,
    written: Result<WriteTimings, ImgSeqError>,
    opacity: Vec<u8>,
    x: int,
    y: int,
)
    requires
        clip::write_outcome(before, after, written, Clip::Alpha, decoded),
        written is Ok,
        decoded.pixels matches Pixels::Planar { alpha: Some(held), .. } && held == opacity,
        0 <= x < (if decoded.transform.transpose {
            decoded.height
        } else {
            decoded.width
        }),
        0 <= y < (if decoded.transform.transpose {
            decoded.width
        } else {
            decoded.height
        }),
        before.planes@[0].rows@.len() >= (if decoded.transform.transpose {
            decoded.width
        } else {
            decoded.height
        }),
    ensures
        ({
            let width = decoded.width as int;
            let height = decoded.height as int;
            let word: int = match decoded.format {
                PixelFormat::Gray8
                | PixelFormat::Rgb8
                | PixelFormat::Yuv420P8
                | PixelFormat::Yuv422P8
                | PixelFormat::Yuv444P8 => 1,
                PixelFormat::Gray32F | PixelFormat::Rgb32F => 4,
                _ => 2,
            };
            let across = if decoded.transform.flip_x {
                (if decoded.transform.transpose {
                    height
                } else {
                    width
                }) - 1 - x
            } else {
                x
            };
            let down = if decoded.transform.flip_y {
                (if decoded.transform.transpose {
                    width
                } else {
                    height
                }) - 1 - y
            } else {
                y
            };
            let (column, row) = if decoded.transform.transpose {
                (down, across)
            } else {
                (across, down)
            };
            let start = row * (width * word) + column * word;
            let line = after.planes@[0].rows@[y]@;
            &&& 0 <= start
            &&& start + word <= opacity@.len()
            &&& x * word + word <= line.len()
            &&& line.subrange(x * word, x * word + word) == opacity@.subrange(
                start,
                start + word,
            )
        }),
{
    lemma_planar(
        decoded.format.alpha(),
        decoded.width,
        decoded.height,
        decoded.transform,
        before,
        after,
        written,
        seq![opacity],
        0,
        x,
        y,
    );
}

proof fn lemma_padded_holds(row: int, alignment: int)
    requires
        0 <= row,
        0 < alignment,
    ensures
        row <= frame::padded(row, alignment),
{
    vstd::arithmetic::div_mod::lemma_mod_bound(row, alignment);
}

proof fn lemma_all_fine(problem: spec_fn(int) -> Option<Seq<char>>, count: int)
    requires
        0 <= count,
        forall|plane: int| 0 <= plane < count ==> #[trigger] problem(plane) is None,
    ensures
        layout::leading_fine(problem, count) == count,
    decreases count,
{
    if count > 0 {
        lemma_all_fine(problem, count - 1);
        assert(problem(count - 1) is None);
    }
}

/// A finished frame has the planes of its clip: one for gray and for alpha, three
/// else, as many rows as the picture has the way it is shown, declared as the
/// format the probe recorded, with the samples in the byte order that was asked
/// for.
pub proof fn a_finished_frame_is_as_large_as_its_picture(
    frame: Frame,
    clip: Clip,
    image: ImageInfo,
    index: int,
    decoded: DecodedImage,
    order: ByteOrder,
    alignment: usize,
)
    requires
        clip::frame_finished(frame, clip, image, index, decoded, order, alignment),
    ensures
        ({
            let rows = if decoded.transform.transpose {
                decoded.width as int
            } else {
                decoded.height as int
            };
            &&& frame.order == order
            &&& frame.planes@.len() == frame.format.num_planes
            &&& frame.planes@.len() == (if clip == Clip::Alpha || decoded.format.family()
                == ColorFamily::Gray {
                1int
            } else {
                3
            })
            &&& frame.format.bits_per_sample == decoded.format.bits()
            &&& frame.format.color_family == (if clip == Clip::Alpha {
                ColorFamily::Gray
            } else {
                decoded.format.family()
            })
            &&& frame.planes@[0].rows@.len() == rows
        }),
{
    reveal(clip::frame_finished);
    let format = clip.format_of(decoded.format);
    let (width, height) = decoded.transform.size(decoded.width as int, decoded.height as int);
    let (blank, written, timings): (Frame, Frame, WriteTimings) = choose|
        blank: Frame,
        written: Frame,
        timings: WriteTimings,
    |
        {
            &&& #[trigger] clip::write_outcome(
                blank,
                written,
                Ok::<WriteTimings, ImgSeqError>(timings),
                clip,
                decoded,
            )
            &&& frame::blank_frame(blank, format, width, height, order, alignment as int)
            &&& frame.format == written.format
            &&& frame.order == written.order
            &&& frame.planes == written.planes
        };
    lemma_write_keeps_shape(blank, written, Ok::<WriteTimings, ImgSeqError>(timings), clip, decoded);
    assert(frame::blank_plane(
        blank.planes@[0],
        frame::padded(format.frame_plane(0, width, height).0 * format.word(), alignment as int),
        format.frame_plane(0, width, height).1,
    ));
}

proof fn lemma_write_keeps_shape(
    before: Frame,
    after: Frame,
    written: Result<WriteTimings, ImgSeqError>,
    clip: Clip,
    decoded: DecodedImage,
)
    requires
        clip::write_outcome(before, after, written, clip, decoded),
        written is Ok,
        before.planes@.len() >= 1,
    ensures
        after.format == before.format,
        after.order == before.order,
        after.properties == before.properties,
        after.planes@.len() == before.planes@.len(),
        forall|plane: int|
            0 <= plane < before.planes@.len() ==> (#[trigger] after.planes@[plane]).rows@.len()
                == before.planes@[plane].rows@.len(),
{
    assert forall|plane: int| 0 <= plane < before.planes@.len() implies (
    #[trigger] after.planes@[plane]).rows@.len() == before.planes@[plane].rows@.len() by {}
}

/// The colour frame a call hands out for a picture shows, in every place and
/// plane, the bytes of the buffer that was decoded for it; see
/// [`a_colour_sample_is_its_bytes_of_the_buffer`].
pub proof fn a_finished_colour_frame_shows_the_buffer(
    frame: Frame,
    image: ImageInfo,
    index: int,
    decoded: DecodedImage,
    order: ByteOrder,
    alignment: usize,
    color_type: ColorType,
    buffer: Seq<u8>,
    plane: int,
    x: int,
    y: int,
)
    requires
        clip::frame_finished(frame, Clip::Color, image, index, decoded, order, alignment),
        clip::laid_out(decoded),
        decoded.pixels matches Pixels::Interleaved { color_type: stated, buffer: held }
            && stated == color_type && held@ == buffer,
        0 <= plane < frame.planes@.len(),
        0 <= x < (if decoded.transform.transpose {
            decoded.height
        } else {
            decoded.width
        }),
        0 <= y < (if decoded.transform.transpose {
            decoded.width
        } else {
            decoded.height
        }),
    ensures
        ({
            let width = decoded.width as int;
            let height = decoded.height as int;
            let channels: int = match color_type {
                ColorType::L8 | ColorType::L16 => 1,
                ColorType::La8 | ColorType::La16 => 2,
                ColorType::Rgb8 | ColorType::Rgb16 | ColorType::Rgb32F => 3,
                _ => 4,
            };
            let word: int = match color_type {
                ColorType::L8 | ColorType::La8 | ColorType::Rgb8 | ColorType::Rgba8 => 1,
                ColorType::L16 | ColorType::La16 | ColorType::Rgb16 | ColorType::Rgba16 => 2,
                _ => 4,
            };
            let across = if decoded.transform.flip_x {
                (if decoded.transform.transpose {
                    height
                } else {
                    width
                }) - 1 - x
            } else {
                x
            };
            let down = if decoded.transform.flip_y {
                (if decoded.transform.transpose {
                    width
                } else {
                    height
                }) - 1 - y
            } else {
                y
            };
            let (column, row) = if decoded.transform.transpose {
                (down, across)
            } else {
                (across, down)
            };
            let start = row * (width * channels * word) + column * (channels * word) + plane
                * word;
            let line = frame.planes@[plane].rows@[y]@;
            &&& 0 <= start
            &&& start + word <= buffer.len()
            &&& x * word + word <= line.len()
            &&& decoded.format.bits() == 8 * word ==> line.subrange(x * word, x * word + word)
                == buffer.subrange(start, start + word)
            &&& word == 2 ==> read_as(order, line[x * 2], line[x * 2 + 1]) == read_as(
                order,
                buffer[start],
                buffer[start + 1],
            ) / pow2((16 - decoded.format.bits()) as nat) as int
        }),
{
    reveal(clip::frame_finished);
    let format = decoded.format;
    let (width, height) = decoded.transform.size(decoded.width as int, decoded.height as int);
    let (blank, written, timings): (Frame, Frame, WriteTimings) = choose|
        blank: Frame,
        written: Frame,
        timings: WriteTimings,
    |
        {
            &&& #[trigger] clip::write_outcome(
                blank,
                written,
                Ok::<WriteTimings, ImgSeqError>(timings),
                Clip::Color,
                decoded,
            )
            &&& frame::blank_frame(blank, format, width, height, order, alignment as int)
            &&& frame.format == written.format
            &&& frame.order == written.order
            &&& frame.planes == written.planes
        };
    let outcome = Ok::<WriteTimings, ImgSeqError>(timings);
    lemma_write_keeps_shape(blank, written, outcome, Clip::Color, decoded);
    assert(frame::blank_plane(
        blank.planes@[plane],
        frame::padded(
            format.frame_plane(plane, width, height).0 * format.word(),
            alignment as int,
        ),
        format.frame_plane(plane, width, height).1,
    ));
    a_colour_sample_is_its_bytes_of_the_buffer(
        decoded,
        blank,
        written,
        outcome,
        color_type,
        buffer,
        plane,
        x,
        y,
    );
}

/// Nothing keeps a picture from becoming a frame whose buffer is as long as its
/// size and its colour type say, whose format is one of that colour type at some
/// depth, and whose size a frame can have.
pub proof fn a_whole_buffer_always_becomes_a_frame(
    error: ImgSeqError,
    clip: Clip,
    decoded: DecodedImage,
    order: ByteOrder,
    alignment: usize,
    color_type: ColorType,
    buffer: Seq<u8>,
)
    requires
        0 < alignment,
        clip::laid_out(decoded),
        decoded.pixels matches Pixels::Interleaved { color_type: stated, buffer: held }
            && stated == color_type && held@ == buffer,
        ({
            let channels: int = match color_type {
                ColorType::L8 | ColorType::L16 => 1,
                ColorType::La8 | ColorType::La16 => 2,
                ColorType::Rgb8 | ColorType::Rgb16 | ColorType::Rgb32F => 3,
                _ => 4,
            };
            let word: int = match color_type {
                ColorType::L8 | ColorType::La8 | ColorType::Rgb8 | ColorType::Rgba8 => 1,
                ColorType::L16 | ColorType::La16 | ColorType::Rgb16 | ColorType::Rgba16 => 2,
                _ => 4,
            };
            let columns = if decoded.transform.transpose {
                decoded.height as int
            } else {
                decoded.width as int
            };
            &&& color_type != ColorType::Unknown
            &&& decoded.format.planes() <= channels
            &&& decoded.format.word() == word
            &&& buffer.len() == decoded.width * channels * word * decoded.height
            &&& decoded.width * channels * word <= usize::MAX
            &&& decoded.width * channels * word * decoded.height <= usize::MAX
            &&& decoded.width <= i32::MAX
            &&& decoded.height <= i32::MAX
            &&& columns * word + alignment <= usize::MAX
        }),
    ensures
        !clip::frame_fails(error, clip, decoded, order, alignment),
{
    reveal(clip::frame_fails);
    let format = clip.format_of(decoded.format);
    let turn = decoded.transform;
    let (width, height) = turn.size(decoded.width as int, decoded.height as int);
    let row_bytes = width * format.word();
    assert(0 <= row_bytes) by (nonlinear_arith)
        requires
            0 <= width,
            0 <= format.word(),
            row_bytes == width * format.word(),
    ;
    lemma_padded_holds(row_bytes, alignment as int);
    vstd::arithmetic::div_mod::lemma_mod_bound(row_bytes, alignment as int);
    assert forall|blank: Frame, after: Frame|
        frame::blank_frame(blank, format, width, height, order, alignment as int) implies !(
    #[trigger] clip::write_outcome(
        blank,
        after,
        Err::<WriteTimings, ImgSeqError>(error),
        clip,
        decoded,
    )) by {
        let problem = |plane: int| layout::target_problem(blank, plane, row_bytes);
        assert forall|plane: int| 0 <= plane < format.planes() implies #[trigger] problem(
            plane,
        ) is None by {
            assert(frame::blank_plane(
                blank.planes@[plane],
                frame::padded(
                    format.frame_plane(plane, width, height).0 * format.word(),
                    alignment as int,
                ),
                format.frame_plane(plane, width, height).1,
            ));
        }
        lemma_all_fine(problem, format.planes());
        assert(problem(0) is None);
    }
}

} // verus!
