use imgseqs::clip::{
    expected_bytes, frame_bytes, is_laid_out, new_frame, query_format, write_frame, Clip,
    FrameBuilder, READ_ALPHA_CLIPS, READ_CLIPS,
};
use imgseqs::color::Cicp;
use imgseqs::decoder::{DecodeTimings, DecodedImage, ImageInfo, Pixels};
use imgseqs::frame::{ByteOrder, Frame, PropertyValue};
use imgseqs::image_types::{ColorType, Orientation};
use imgseqs::pixel::{PixelFormat, Transform};
use imgseqs::prefetch::{Payload, Prepare};
use std::time::Duration;

fn timings() -> DecodeTimings {
    DecodeTimings {
        open: Duration::ZERO,
        metadata: Duration::ZERO,
        buffer: Duration::ZERO,
        read: Duration::ZERO,
    }
}

fn info(width: u32, height: u32, color_type: ColorType, orientation: Orientation) -> ImageInfo {
    ImageInfo {
        path: "page.png".to_string(),
        width,
        height,
        color_type,
        original_color_type: color_type.name().to_string(),
        has_icc_profile: true,
        icc_profile: Some(vec![1, 2, 3]),
        cicp: Some(Cicp { primaries: 1, transfer: 13, matrix: 0, full_range: true }),
        chroma_location: None,
        orientation,
        transform: Transform::from_orientation(orientation),
        format: PixelFormat::from_color_type(color_type).expect("a supported color type"),
    }
}

fn interleaved(info: &ImageInfo, buffer: &[u8]) -> DecodedImage {
    DecodedImage {
        width: info.width,
        height: info.height,
        format: info.format,
        transform: info.transform,
        pixels: Pixels::Interleaved { color_type: info.color_type, buffer: buffer.to_vec() },
        timings: timings(),
    }
}

fn rows(frame: &Frame, plane: usize, width: usize) -> Vec<Vec<u8>> {
    frame.planes[plane].rows.iter().map(|row| row[..width].to_vec()).collect()
}

fn number(frame: &Frame, key: &str) -> Option<i64> {
    match frame.properties.get(key) {
        Some(PropertyValue::Int(value)) => Some(*value),
        _ => None,
    }
}

fn builder(clips: &[Clip]) -> FrameBuilder {
    FrameBuilder::new(clips.to_vec(), ByteOrder::Little, 4)
}

#[test]
fn a_rotated_page_is_written_the_way_it_is_shown() {
    let image = info(3, 2, ColorType::L8, Orientation::Rotate90);
    let built = builder(&READ_CLIPS)
        .build(&image, 7, interleaved(&image, &[1, 2, 3, 4, 5, 6]))
        .ok()
        .expect("the frame to be built");
    let frame = built.frame(Clip::Color).ok().expect("a color frame");
    assert_eq!(rows(frame, 0, 2), [[4, 1], [5, 2], [6, 3]]);
    assert_eq!(frame.planes[0].stride, 4);
    assert_eq!(frame.format, query_format(PixelFormat::Gray8));
    assert_eq!(number(frame, "ImgSeqIndex"), Some(7));
    assert_eq!(number(frame, "ImgSeqOrientation"), Some(6));
    assert_eq!(number(frame, "ImgSeqHasICC"), Some(1));
    assert_eq!(number(frame, "_Primaries"), Some(1));
    assert_eq!(number(frame, "_Transfer"), Some(13));
    assert_eq!(number(frame, "_Range"), Some(1));
    assert_eq!(number(frame, "_Matrix"), None, "a gray frame has no matrix");
    assert_eq!(number(frame, "ImgSeqAlpha"), None);
    assert!(frame.properties.get("ICCProfile").is_none());
    match frame.properties.get("ImgSeqPath") {
        Some(PropertyValue::Utf8(path)) => assert_eq!(path, "page.png"),
        _ => panic!("the path is a property"),
    }
    assert_eq!(built.bytes(), 12);
    let error = built.frame(Clip::Alpha).err().expect("no alpha clip");
    assert_eq!(error.message(), "this call does not hand out the alpha clip");
    assert!(built.frame_timings(Clip::Alpha).is_none());
    assert!(built.frame_timings(Clip::Color).is_some());
    assert_eq!(built.decode_timings().open, Duration::ZERO);
}

#[test]
fn both_clips_of_a_page_are_built_from_one_decode() {
    let image = info(2, 1, ColorType::Rgba8, Orientation::FlipHorizontal);
    let built = builder(&READ_ALPHA_CLIPS)
        .build(&image, 0, interleaved(&image, &[1, 2, 3, 9, 4, 5, 6, 8]))
        .ok()
        .expect("the frames to be built");
    let color = built.frame(Clip::Color).ok().expect("a color frame");
    assert_eq!(rows(color, 0, 2), [[4, 1]]);
    assert_eq!(rows(color, 1, 2), [[5, 2]]);
    assert_eq!(rows(color, 2, 2), [[6, 3]]);
    assert_eq!(number(color, "_Matrix"), Some(0));
    let alpha = built.frame(Clip::Alpha).ok().expect("an alpha frame");
    assert_eq!(rows(alpha, 0, 2), [[8, 9]]);
    assert_eq!(number(alpha, "ImgSeqAlpha"), Some(1));
    assert_eq!(built.clone().bytes(), built.bytes());
}

#[test]
fn a_file_without_alpha_gets_an_opaque_plane() {
    let image = info(2, 2, ColorType::Rgb8, Orientation::NoTransforms);
    let built = builder(&READ_ALPHA_CLIPS)
        .build(&image, 0, interleaved(&image, &[0; 12]))
        .ok()
        .expect("the frames to be built");
    let alpha = built.frame(Clip::Alpha).ok().expect("an alpha frame");
    assert_eq!(rows(alpha, 0, 2), [[255, 255], [255, 255]]);
}

#[test]
fn a_ten_bit_page_is_right_aligned_and_opaque_at_its_maximum() {
    let mut image = info(1, 1, ColorType::L16, Orientation::NoTransforms);
    image.format = PixelFormat::Gray10;
    let scaled: u16 = 0xffff;
    let built = builder(&READ_ALPHA_CLIPS)
        .build(&image, 0, interleaved(&image, &scaled.to_le_bytes()))
        .ok()
        .expect("the frames to be built");
    let color = built.frame(Clip::Color).ok().expect("a color frame");
    assert_eq!(rows(color, 0, 2), [1023u16.to_le_bytes()]);
    let alpha = built.frame(Clip::Alpha).ok().expect("an alpha frame");
    assert_eq!(rows(alpha, 0, 2), [1023u16.to_le_bytes()]);
}

#[test]
fn planes_are_written_as_they_are() {
    let mut image = info(3, 3, ColorType::Rgb8, Orientation::NoTransforms);
    image.format = PixelFormat::Yuv420P8;
    let planar = |alpha: Option<Vec<u8>>| DecodedImage {
        width: 3,
        height: 3,
        format: PixelFormat::Yuv420P8,
        transform: Transform::identity(),
        pixels: Pixels::Planar {
            planes: vec![(1..=9).collect(), vec![10, 11, 12, 13], vec![20, 21, 22, 23]],
            alpha,
        },
        timings: timings(),
    };
    let built = builder(&READ_ALPHA_CLIPS)
        .build(&image, 0, planar(Some((1..=9).rev().collect())))
        .ok()
        .expect("the frames to be built");
    let color = built.frame(Clip::Color).ok().expect("a color frame");
    assert_eq!(rows(color, 0, 3), [[1, 2, 3], [4, 5, 6], [7, 8, 9]]);
    assert_eq!(rows(color, 1, 1), [[10]], "the odd edge has nowhere to go");
    assert_eq!(rows(color, 2, 1), [[20]]);
    let alpha = built.frame(Clip::Alpha).ok().expect("an alpha frame");
    assert_eq!(rows(alpha, 0, 3), [[9, 8, 7], [6, 5, 4], [3, 2, 1]]);
    let opaque = builder(&READ_ALPHA_CLIPS)
        .build(&image, 0, planar(None))
        .ok()
        .expect("the frames to be built");
    let alpha = opaque.frame(Clip::Alpha).ok().expect("an alpha frame");
    assert_eq!(rows(alpha, 0, 3), [[255, 255, 255]; 3]);
}

#[test]
fn a_short_buffer_is_reported() {
    let image = info(2, 2, ColorType::Rgb8, Orientation::NoTransforms);
    let error = builder(&READ_CLIPS)
        .build(&image, 0, interleaved(&image, &[0; 11]))
        .err()
        .expect("a short buffer");
    assert!(error.message().contains("11"), "{}", error.message());
    let error = builder(&READ_CLIPS)
        .build(&image, -3, interleaved(&image, &[0; 12]))
        .err()
        .expect("a negative frame");
    assert_eq!(error.message(), "requested invalid frame -3");
}

#[test]
fn a_frame_that_does_not_fit_is_refused() {
    let wide = new_frame(PixelFormat::Gray8, u32::MAX, 1, ByteOrder::Little, 1)
        .err()
        .expect("a width past 31 bits");
    assert_eq!(wide.message(), "image width does not fit VapourSynth");
    let tall = new_frame(PixelFormat::Gray8, 1, u32::MAX, ByteOrder::Little, 1)
        .err()
        .expect("a height past 31 bits");
    assert_eq!(tall.message(), "image height does not fit VapourSynth");
    let frame = new_frame(PixelFormat::Yuv420P10, 5, 3, ByteOrder::Little, 32)
        .ok()
        .expect("a small frame");
    assert_eq!(frame.planes.len(), 3);
    assert_eq!((frame.planes[0].stride, frame.planes[0].rows.len()), (32, 3));
    assert_eq!((frame.planes[1].stride, frame.planes[1].rows.len()), (32, 1));
    assert_eq!(frame_bytes(&frame), 32 * 5);
}

#[test]
fn a_frame_is_estimated_by_the_size_it_is_handed_out_as() {
    let image = info(5, 3, ColorType::Rgb8, Orientation::Rotate90);
    assert_eq!(expected_bytes(&READ_CLIPS, &image), 45);
    assert_eq!(expected_bytes(&READ_ALPHA_CLIPS, &image), 60);
    assert_eq!(builder(&READ_ALPHA_CLIPS).estimate(&image), 60);
}

#[test]
fn only_whole_planes_are_written_from_interleaved_samples() {
    let image = info(2, 2, ColorType::Rgb8, Orientation::NoTransforms);
    let mut decoded = interleaved(&image, &[0; 12]);
    assert!(is_laid_out(&decoded));
    decoded.format = PixelFormat::Yuv420P8;
    assert!(!is_laid_out(&decoded));
}

#[test]
fn one_frame_is_written_for_one_clip() {
    let image = info(2, 1, ColorType::La8, Orientation::NoTransforms);
    let decoded = interleaved(&image, &[1, 9, 2, 8]);
    let mut frame = new_frame(PixelFormat::Gray8, 2, 1, ByteOrder::Little, 1)
        .ok()
        .expect("a small frame");
    assert!(write_frame(&mut frame, Clip::Alpha, PixelFormat::Gray8, &decoded).is_ok());
    assert_eq!(rows(&frame, 0, 2), [[9, 8]]);
}

#[test]
fn the_alpha_of_a_rotated_page_lands_where_its_colour_does() {
    let image = info(3, 2, ColorType::La8, Orientation::Rotate90);
    let decoded = interleaved(&image, &[1, 101, 2, 102, 3, 103, 4, 104, 5, 105, 6, 106]);
    let built = builder(&READ_ALPHA_CLIPS)
        .build(&image, 0, decoded)
        .ok()
        .expect("both frames to be built");
    let color = built.frame(Clip::Color).ok().expect("a color frame");
    let alpha = built.frame(Clip::Alpha).ok().expect("an alpha frame");
    assert_eq!(rows(color, 0, 2), [[4, 1], [5, 2], [6, 3]]);
    assert_eq!(rows(alpha, 0, 2), [[104, 101], [105, 102], [106, 103]]);
}

#[test]
fn the_alpha_plane_of_a_mirrored_page_lands_where_its_colour_does() {
    let image = info(3, 2, ColorType::Rgb8, Orientation::FlipHorizontal);
    let mut decoded = interleaved(&image, &[]);
    decoded.pixels = Pixels::Planar {
        planes: vec![
            vec![1, 2, 3, 4, 5, 6],
            vec![11, 12, 13, 14, 15, 16],
            vec![21, 22, 23, 24, 25, 26],
        ],
        alpha: Some(vec![31, 32, 33, 34, 35, 36]),
    };
    let built = builder(&READ_ALPHA_CLIPS)
        .build(&image, 0, decoded)
        .ok()
        .expect("both frames to be built");
    let color = built.frame(Clip::Color).ok().expect("a color frame");
    let alpha = built.frame(Clip::Alpha).ok().expect("an alpha frame");
    assert_eq!(rows(color, 0, 3), [[3, 2, 1], [6, 5, 4]]);
    assert_eq!(rows(color, 2, 3), [[23, 22, 21], [26, 25, 24]]);
    assert_eq!(rows(alpha, 0, 3), [[33, 32, 31], [36, 35, 34]]);
}
