use imgseqs::frame::{native_order, order_of_word, ByteOrder, ColorFamily, SampleType};
use imgseqs::image_types::{ColorType, Orientation};
use imgseqs::pixel::layout::{image_layout, planes_to_write};
use imgseqs::pixel::samples::{extract_channel, reverse_samples};
use imgseqs::pixel::walk::{for_each_block, BlockRun, TRANSFORM_BLOCK};
use imgseqs::pixel::{alpha_channel, inverse_orientation, PixelFormat, Transform};

/// The 3x2 source every orientation test rearranges, whose values are
/// `row * 3 + column + 1` so a wrong sample names itself in the failure.
const SOURCE: [[u8; 3]; 2] = [[1, 2, 3], [4, 5, 6]];

const ORIENTATIONS: [Orientation; 8] = [
    Orientation::NoTransforms,
    Orientation::FlipHorizontal,
    Orientation::Rotate180,
    Orientation::FlipVertical,
    Orientation::Rotate90FlipH,
    Orientation::Rotate90,
    Orientation::Rotate270FlipH,
    Orientation::Rotate270,
];

/// The frame a transform hands `SOURCE` out as, one row per entry.
fn transform(orientation: Orientation) -> Vec<Vec<u8>> {
    rearrange(orientation, &source_grid())
}

/// `SOURCE` as the rows a transform rearranges.
fn source_grid() -> Vec<Vec<u8>> {
    SOURCE.iter().map(|row| row.to_vec()).collect()
}

/// Applies an orientation to a grid the way the writer applies it to a decoder
/// buffer, which is sample by sample from `source_of`.
fn rearrange(orientation: Orientation, grid: &[Vec<u8>]) -> Vec<Vec<u8>> {
    let transform = Transform::from_orientation(orientation);
    let (width, height) = transform.output_size(grid[0].len(), grid.len());
    (0..height)
        .map(|row| {
            (0..width)
                .map(|column| {
                    let (x, y) = transform.source_of(column, row, width, height);
                    grid[y][x]
                })
                .collect()
        })
        .collect()
}

/// The runs of a blocked walk, in the order it makes them.
fn runs(width: usize, height: usize) -> Vec<BlockRun> {
    let mut walk = for_each_block(width, height);
    let mut runs = Vec::new();
    while let Some(run) = walk.next() {
        runs.push(run);
    }
    runs
}

/// One channel of `pixels`, into a plane as long as `room`.
fn extracted(
    pixels: &[u8],
    room: usize,
    bytes: usize,
    channels: usize,
    channel: usize,
    shift: u32,
) -> Vec<u8> {
    let mut plane = vec![0; room];
    extract_channel(pixels, &mut plane, channels, channel, bytes, shift, native_order());
    plane
}

#[test]
fn applies_every_exif_orientation() {
    assert_eq!(transform(Orientation::NoTransforms), [[1, 2, 3], [4, 5, 6]]);
    assert_eq!(transform(Orientation::FlipHorizontal), [[3, 2, 1], [6, 5, 4]]);
    assert_eq!(transform(Orientation::Rotate180), [[6, 5, 4], [3, 2, 1]]);
    assert_eq!(transform(Orientation::FlipVertical), [[4, 5, 6], [1, 2, 3]]);
    assert_eq!(transform(Orientation::Rotate90FlipH), [[1, 4], [2, 5], [3, 6]]);
    assert_eq!(transform(Orientation::Rotate90), [[4, 1], [5, 2], [6, 3]]);
    assert_eq!(transform(Orientation::Rotate270FlipH), [[6, 3], [5, 2], [4, 1]]);
    assert_eq!(transform(Orientation::Rotate270), [[3, 6], [2, 5], [1, 4]]);
}

#[test]
fn every_orientation_reads_each_sample_once() {
    for orientation in ORIENTATIONS {
        let mut seen = transform(orientation).concat();
        seen.sort_unstable();
        assert_eq!(seen, [1, 2, 3, 4, 5, 6], "{orientation:?}");
    }
}

#[test]
fn reports_the_size_and_the_transpose() {
    assert_eq!(Transform::identity().output_size(3, 2), (3, 2));
    assert_eq!(
        Transform::from_orientation(Orientation::NoTransforms),
        Transform::identity()
    );
    assert_eq!(
        Transform::from_orientation(Orientation::Rotate90).output_size(3, 2),
        (2, 3)
    );
    assert!(Transform::from_orientation(Orientation::Rotate90).transposes());
    assert!(!Transform::from_orientation(Orientation::FlipVertical).transposes());
    for orientation in &ORIENTATIONS[1..] {
        let transform = Transform::from_orientation(*orientation);
        let (width, height) = transform.output_size(3, 2);
        assert!(
            transform.source_of(0, 0, width, height) != (0, 0)
                || transform.source_of(1, 0, width, height) != (1, 0),
            "{orientation:?}"
        );
    }
}

#[test]
fn every_exif_code_round_trips() {
    for code in 1..=8u8 {
        let orientation = Orientation::from_exif(code).expect("a known exif code");
        assert_eq!(orientation.to_exif(), code);
    }
    assert_eq!(Orientation::from_exif(0), None);
    assert_eq!(Orientation::from_exif(9), None);
}

#[test]
fn undoing_an_orientation_hands_the_stored_picture_back() {
    for code in 1..=8u8 {
        let orientation = Orientation::from_exif(code).expect("a known exif code");
        let shown = rearrange(orientation, &source_grid());
        let restored = rearrange(inverse_orientation(orientation), &shown);
        assert_eq!(restored, source_grid(), "exif {code}");
    }
}

#[test]
fn a_gray_frame_can_be_filled_from_a_wider_buffer() {
    assert_eq!(planes_to_write(1, 3).unwrap(), 1);
    assert_eq!(planes_to_write(1, 4).unwrap(), 1);
    assert_eq!(planes_to_write(3, 3).unwrap(), 3);
    let error = planes_to_write(3, 1).expect_err("one channel cannot fill three planes");
    assert!(error.message().contains("3 planes"), "{}", error.message());
}

#[test]
fn maps_supported_color_types() {
    assert_eq!(PixelFormat::from_color_type(ColorType::L8), Some(PixelFormat::Gray8));
    assert_eq!(PixelFormat::from_color_type(ColorType::La16), Some(PixelFormat::Gray16));
    assert_eq!(PixelFormat::from_color_type(ColorType::Rgba8), Some(PixelFormat::Rgb8));
    assert_eq!(PixelFormat::from_color_type(ColorType::Rgb32F), Some(PixelFormat::Rgb32F));
    assert_eq!(PixelFormat::from_color_type(ColorType::Unknown), None);
}

#[test]
fn extracts_rgb_and_ignores_alpha() {
    let pixels = [1, 2, 3, 99, 4, 5, 6, 98];
    let red = extracted(&pixels, 2, 1, 4, 0, 0);
    let green = extracted(&pixels, 2, 1, 4, 1, 0);
    let blue = extracted(&pixels, 2, 1, 4, 2, 0);
    assert_eq!((red, green, blue), (vec![1, 4], vec![2, 5], vec![3, 6]));
}

#[test]
fn extracts_gray16() {
    let pixels = [1, 2, 3, 4];
    assert_eq!(extracted(&pixels, 4, 2, 1, 0, 0), pixels);
}

#[test]
fn extracts_a_channel_at_a_narrower_depth() {
    let values: [u16; 3] = [1, 2, 1023];
    let mut pixels = Vec::new();
    for value in values {
        pixels.extend_from_slice(&(value << 6).to_ne_bytes());
    }
    let mut expected = Vec::new();
    for value in values {
        expected.extend_from_slice(&value.to_ne_bytes());
    }
    assert_eq!(extracted(&pixels, expected.len(), 2, 1, 0, 6), expected);
}

#[test]
fn a_scaled_sample_moves_back_down_to_the_one_it_started_as() {
    for bits in 1..=16u32 {
        let word = if bits <= 8 { 8 } else { 16 };
        let shift = word - bits;
        let maximum = (1u32 << bits) - 1;
        for value in 0..=maximum {
            assert_eq!((value << shift) >> shift, value, "{bits} bit {value} shifted");
            let scaled = (value * ((1u32 << word) - 1) + maximum / 2) / maximum;
            assert_eq!(
                scaled >> shift,
                value,
                "{bits} bit {value} scaled onto {word} bits"
            );
        }
    }
    // The writer moves a sixteen bit word the same way.
    for bits in 9..=15u32 {
        let maximum = (1u32 << bits) - 1;
        for value in [0, 1, maximum / 2, maximum] {
            let scaled = ((value * 65535 + maximum / 2) / maximum) as u16;
            let plane = extracted(&scaled.to_ne_bytes(), 2, 2, 1, 0, 16 - bits);
            assert_eq!(plane, (value as u16).to_ne_bytes(), "{bits} bit {value}");
        }
    }
}

#[test]
fn narrows_a_word_to_the_depth_a_container_states() {
    for (bits, gray, rgb) in [
        (9, PixelFormat::Gray9, PixelFormat::Rgb9),
        (10, PixelFormat::Gray10, PixelFormat::Rgb10),
        (11, PixelFormat::Gray11, PixelFormat::Rgb11),
        (12, PixelFormat::Gray12, PixelFormat::Rgb12),
        (13, PixelFormat::Gray13, PixelFormat::Rgb13),
        (14, PixelFormat::Gray14, PixelFormat::Rgb14),
        (15, PixelFormat::Gray15, PixelFormat::Rgb15),
        (16, PixelFormat::Gray16, PixelFormat::Rgb16),
    ] {
        assert_eq!(PixelFormat::Gray16.at_depth(bits), gray);
        assert_eq!(PixelFormat::Rgb16.at_depth(bits), rgb);
    }
    for bits in [0, 1, 7, 17, 32] {
        assert_eq!(PixelFormat::Gray16.at_depth(bits), PixelFormat::Gray16);
        assert_eq!(PixelFormat::Rgb16.at_depth(bits), PixelFormat::Rgb16);
    }
    assert_eq!(PixelFormat::Gray8.at_depth(9), PixelFormat::Gray8);
    assert_eq!(PixelFormat::Rgb8.at_depth(12), PixelFormat::Rgb8);
    assert_eq!(PixelFormat::Rgb32F.at_depth(10), PixelFormat::Rgb32F);
    assert_eq!(PixelFormat::Yuv420P10.at_depth(10), PixelFormat::Yuv420P10);
    assert_eq!(PixelFormat::Yuv444P12.at_depth(10), PixelFormat::Yuv444P12);
}

#[test]
fn names_every_depth_a_container_can_state() {
    for bits in 8..=16i32 {
        let depth = u32::try_from(bits).unwrap();
        let gray = PixelFormat::Gray16.at_depth(depth);
        let rgb = PixelFormat::Rgb16.at_depth(depth);
        assert_eq!(gray.name(), format!("Gray{bits}"));
        assert_eq!(rgb.name(), format!("RGB{}", bits * 3));
        assert_eq!(gray.bits_per_sample(), bits);
        assert_eq!(rgb.bits_per_sample(), bits);
        assert_eq!(gray.color_family(), ColorFamily::Gray);
        assert_eq!(rgb.color_family(), ColorFamily::RGB);
        assert_eq!(gray.sample_type(), SampleType::Integer);
        let bytes = if bits <= 8 { 1 } else { 2 };
        assert_eq!(gray.bytes_per_sample(), bytes);
        assert_eq!(rgb.bytes_per_sample(), bytes);
        assert_eq!(
            gray.integer_max(),
            if bits >= 16 { u16::MAX } else { ((1u32 << bits) - 1) as u16 }
        );
        assert_eq!(gray.plane_count(), 1);
        assert_eq!(rgb.plane_count(), 3);
        assert_eq!(rgb.sub_sampling(), (0, 0));
        assert_eq!(gray.alpha_format().bits_per_sample(), bits);
        assert_eq!(rgb.alpha_format().bits_per_sample(), bits);
        assert_eq!(rgb.alpha_format().name(), format!("Gray{bits}"));
        assert_eq!(gray.alpha_format().integer_max(), gray.integer_max());
        assert_eq!(rgb.alpha_format().integer_max(), rgb.integer_max());
        assert_eq!(gray.alpha_format().plane_count(), 1);
    }
}

#[test]
fn validates_buffer_lengths() {
    assert!(image_layout(ColorType::Rgb8, 2, 1, &[0; 5]).is_err());
    assert!(image_layout(ColorType::Rgb8, 2, 1, &[0; 6]).is_ok());
    assert!(image_layout(ColorType::Rgba8, 2, 1, &[0; 8]).is_ok());
}

#[test]
fn maps_alpha_formats() {
    assert_eq!(PixelFormat::Gray8.alpha_format(), PixelFormat::Gray8);
    assert_eq!(PixelFormat::Gray16.alpha_format(), PixelFormat::Gray16);
    assert_eq!(PixelFormat::Rgb8.alpha_format(), PixelFormat::Gray8);
    assert_eq!(PixelFormat::Rgb16.alpha_format(), PixelFormat::Gray16);
    assert_eq!(PixelFormat::Rgb32F.alpha_format(), PixelFormat::Gray32F);
    assert_eq!(PixelFormat::Gray32F.color_family(), ColorFamily::Gray);
    assert_eq!(PixelFormat::Gray32F.sample_type(), SampleType::Float);
    assert_eq!(PixelFormat::Gray32F.bits_per_sample(), 32);
    assert_eq!(PixelFormat::Gray32F.plane_count(), 1);
    assert_eq!(PixelFormat::Gray32F.name(), "GrayS");
}

#[test]
fn the_opaque_fill_is_the_largest_sample_of_the_format() {
    assert_eq!(PixelFormat::Gray8.integer_max(), 255);
    assert_eq!(PixelFormat::Rgb8.integer_max(), 255);
    assert_eq!(PixelFormat::Gray10.integer_max(), 1023);
    assert_eq!(PixelFormat::Yuv420P10.integer_max(), 1023);
    assert_eq!(PixelFormat::Gray12.integer_max(), 4095);
    assert_eq!(PixelFormat::Yuv444P12.integer_max(), 4095);
    assert_eq!(PixelFormat::Gray16.integer_max(), u16::MAX);
    for format in [PixelFormat::Gray10, PixelFormat::Yuv444P12] {
        assert_eq!(format.alpha_format().integer_max(), format.integer_max());
    }
}

#[test]
fn locates_alpha_channels() {
    assert_eq!(alpha_channel(ColorType::L8), None);
    assert_eq!(alpha_channel(ColorType::L16), None);
    assert_eq!(alpha_channel(ColorType::La8), Some(1));
    assert_eq!(alpha_channel(ColorType::La16), Some(1));
    assert_eq!(alpha_channel(ColorType::Rgb8), None);
    assert_eq!(alpha_channel(ColorType::Rgb16), None);
    assert_eq!(alpha_channel(ColorType::Rgb32F), None);
    assert_eq!(alpha_channel(ColorType::Rgba8), Some(3));
    assert_eq!(alpha_channel(ColorType::Rgba16), Some(3));
    assert_eq!(alpha_channel(ColorType::Rgba32F), Some(3));
}

#[test]
fn extracts_alpha_channels() {
    let gray_alpha = [10, 99, 20, 98];
    assert_eq!(extracted(&gray_alpha, 2, 1, 2, 1, 0), [99, 98]);

    let rgba = [1, 2, 3, 4, 5, 6, 7, 8];
    assert_eq!(extracted(&rgba, 2, 1, 4, 3, 0), [4, 8]);

    let rgba16 = [0, 1, 0, 2, 0, 3, 0, 4, 0, 5, 0, 6, 0, 7, 0, 8];
    assert_eq!(extracted(&rgba16, 4, 2, 4, 3, 0), [0, 4, 0, 8]);

    let mut rgba32f = Vec::new();
    for value in [1.0_f32, 2.0, 3.0, 0.25, 4.0, 5.0, 6.0, 0.75] {
        rgba32f.extend_from_slice(&value.to_ne_bytes());
    }
    let alpha = extracted(&rgba32f, 8, 4, 4, 3, 0);
    assert_eq!(f32::from_ne_bytes(alpha[0..4].try_into().unwrap()), 0.25_f32);
    assert_eq!(f32::from_ne_bytes(alpha[4..8].try_into().unwrap()), 0.75_f32);
}

#[test]
fn reverses_rows_in_samples() {
    let mut bytes = vec![1, 2, 3, 4, 5, 6];
    reverse_samples(&mut bytes, 1);
    assert_eq!(bytes, [6, 5, 4, 3, 2, 1]);

    let samples = [1u16, 2, 3, 4, 5];
    let mut row = Vec::new();
    for sample in samples {
        row.extend_from_slice(&sample.to_ne_bytes());
    }
    reverse_samples(&mut row, 2);
    let mut expected = Vec::new();
    for sample in samples.iter().rev() {
        expected.extend_from_slice(&sample.to_ne_bytes());
    }
    assert_eq!(row, expected);

    let mut odd = vec![1u8, 2, 3, 4, 5, 6, 7];
    reverse_samples(&mut odd, 1);
    assert_eq!(odd, [7, 6, 5, 4, 3, 2, 1]);

    let mut single = vec![9u8, 8, 7, 6];
    reverse_samples(&mut single, 4);
    assert_eq!(single, [9, 8, 7, 6]);
    reverse_samples(&mut single, 2);
    assert_eq!(single, [7, 6, 9, 8]);
}

#[test]
fn blocked_walk_covers_every_sample_once() {
    for (width, height) in [(70, 33), (33, 70), (1, 1), (1, 70), (70, 1), (64, 64)] {
        let mut visits = vec![0u8; width * height];
        for run in runs(width, height) {
            for column in run.start..run.end {
                visits[run.row * width + column] += 1;
            }
        }
        assert!(
            visits.iter().all(|count| *count == 1),
            "{width}x{height} visits {visits:?}"
        );
    }
}

#[test]
fn blocked_walk_keeps_rows_in_order() {
    let mut written: Vec<Vec<usize>> = vec![Vec::new(); 33];
    for run in runs(70, 33) {
        assert!(run.end <= 70);
        assert_eq!(run.start % TRANSFORM_BLOCK, 0);
        written[run.row].extend(run.start..run.end);
    }
    for (row, columns) in written.iter().enumerate() {
        assert_eq!(*columns, (0..70).collect::<Vec<usize>>(), "row {row}");
    }
}

#[test]
fn blocked_walk_writes_a_column_block_in_row_order() {
    let mut rows: Vec<Vec<usize>> = vec![Vec::new(); 100_usize.div_ceil(TRANSFORM_BLOCK)];
    for run in runs(100, 70) {
        rows[run.start / TRANSFORM_BLOCK].push(run.row);
    }
    for (block, rows) in rows.iter().enumerate() {
        let mut sorted = rows.clone();
        sorted.sort_unstable();
        assert_eq!(*rows, sorted, "column block {block} goes back over rows");
        assert_eq!(rows.len(), 70, "column block {block}");
    }
}

#[test]
fn a_row_turned_around_twice_is_the_row() {
    for bytes in [1, 2, 4] {
        let row: Vec<u8> = (0..24).collect();
        let mut turned = row.clone();
        reverse_samples(&mut turned, bytes);
        reverse_samples(&mut turned, bytes);
        assert_eq!(turned, row, "{bytes} byte samples");
    }
}

#[test]
fn this_machine_stores_its_numbers_in_one_order() {
    let expected =
        if 1u16.to_ne_bytes() == [1, 0] { ByteOrder::Little } else { ByteOrder::Big };
    assert_eq!(native_order(), expected);
    assert_eq!(order_of_word(u16::from_le_bytes([1, 0])), ByteOrder::Little);
    assert_eq!(order_of_word(u16::from_be_bytes([1, 0])), ByteOrder::Big);
    assert_eq!(order_of_word(u16::from_ne_bytes([1, 0])), native_order());
}

#[test]
fn planes_are_sized_the_way_the_format_halves_them() {
    assert_eq!(PixelFormat::Yuv420P8.plane_dimensions(1, 5, 3), (3, 2));
    assert_eq!(PixelFormat::Yuv420P8.frame_plane_dimensions(1, 5, 3), (2, 1));
    assert_eq!(PixelFormat::Yuv422P10.plane_dimensions(2, 5, 3), (3, 3));
    assert_eq!(PixelFormat::Yuv422P10.plane_bytes(2, 5, 3), 18);
    assert_eq!(PixelFormat::Yuv420P8.planes_bytes(4, 4), 24);
    assert_eq!(PixelFormat::Rgb16.planes_bytes(2, 2), 24);
    assert_eq!(PixelFormat::Rgb16.planes_bytes(usize::MAX, 2), usize::MAX);
}
