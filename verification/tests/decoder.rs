use imgseqs::color::Cicp;
use imgseqs::decoder::{
    changed, decode_plan, decoded, format_decoder, image_error, orientation_size, probe, prober,
    DecodeTimings, DecoderFacts, ImageInfo, Pixels, Route,
};
use imgseqs::image_types::{ColorType, Orientation};
use imgseqs::pixel::{PixelFormat, Transform};
use std::time::Duration;

fn facts(color_type: ColorType, orientation: Orientation) -> DecoderFacts {
    DecoderFacts {
        width: 3,
        height: 2,
        color_type,
        original_color_type: "Rgb5x1".to_string(),
        icc_profile: Some(vec![1]),
        orientation,
    }
}

fn probed(path: &str, color_type: ColorType, corrected: Option<PixelFormat>) -> ImageInfo {
    probe(path, facts(color_type, Orientation::NoTransforms), corrected, None, true)
        .ok()
        .expect("a supported image")
}

#[test]
fn a_probe_records_what_the_decoder_reports() {
    let cicp = Cicp { primaries: 1, transfer: 13, matrix: 0, full_range: true };
    let info = probe(
        "page.jpg",
        facts(ColorType::Rgb8, Orientation::Rotate90),
        None,
        Some(cicp),
        true,
    )
    .ok()
    .expect("a supported image");
    assert_eq!(info.format, PixelFormat::Rgb8);
    assert_eq!(info.original_color_type, "Rgb5x1");
    assert!(info.has_icc_profile);
    assert_eq!(info.cicp, Some(cicp));
    assert_eq!((info.output_width(), info.output_height()), (2, 3));
    assert_eq!(info.orientation, Orientation::Rotate90);
    let stored = probe(
        "page.jpg",
        facts(ColorType::Rgb8, Orientation::Rotate90),
        None,
        None,
        false,
    )
    .ok()
    .expect("a supported image");
    assert_eq!((stored.output_width(), stored.output_height()), (3, 2));
    assert_eq!(stored.orientation, Orientation::Rotate90, "the code is still reported");
    assert_eq!(
        orientation_size(Transform::from_orientation(Orientation::Rotate270), 3, 2),
        (2, 3)
    );
}

#[test]
fn a_corrected_format_is_kept() {
    let info = probed("a.webp", ColorType::Rgb8, Some(PixelFormat::Yuv420P8));
    assert_eq!(info.format, PixelFormat::Yuv420P8);
    let error = probe(
        "a.png",
        facts(ColorType::Unknown, Orientation::NoTransforms),
        None,
        None,
        true,
    )
    .err()
    .expect("a color type without a format");
    assert!(
        error.message().starts_with("unsupported color type ")
            && error.message().ends_with(" in image 'a.png'"),
        "{}",
        error.message()
    );
}

#[test]
fn a_file_is_described_by_its_own_module() {
    assert_eq!(prober("a.jxl"), Route::Jxl);
    assert_eq!(prober("a.JP2"), Route::Jp2);
    assert_eq!(prober("a.heic"), Route::Heif);
    assert_eq!(prober("a.avif"), Route::Avif);
    assert_eq!(prober("a.webp"), Route::General);
    assert_eq!(prober("dir.jxl/a.png"), Route::General);
}

#[test]
fn a_file_is_decoded_by_its_own_module() {
    let route = |path: &str, format: PixelFormat| {
        format_decoder(&probed(path, ColorType::Rgb8, Some(format)))
    };
    assert_eq!(route("a.jxl", PixelFormat::Rgb8), Route::Jxl);
    assert_eq!(route("a.j2k", PixelFormat::Rgb8), Route::Jp2);
    assert_eq!(route("a.heic", PixelFormat::Yuv420P8), Route::Heif);
    assert_eq!(route("a.heic", PixelFormat::Rgb8), Route::General);
    assert_eq!(route("a.avif", PixelFormat::Yuv420P8), Route::Avif);
    assert_eq!(route("a.avif", PixelFormat::Gray8), Route::General);
    assert_eq!(route("a.webp", PixelFormat::Rgb8), Route::Webp);
    assert_eq!(route("a.png", PixelFormat::Rgb8), Route::General);
}

#[test]
fn a_file_that_changed_after_probing_is_reported() {
    let info = probed("a.png", ColorType::Rgb8, None);
    assert_eq!(decode_plan(&info, 3, 2, ColorType::Rgb8, 18).unwrap(), 18);
    assert_eq!(
        decode_plan(&info, 3, 4, ColorType::L8, 12).expect_err("another size").message(),
        "image 'a.png' changed after probing (was 3x2 Rgb8, now 3x4 L8)"
    );
    assert_eq!(
        changed(&info, 3, 4, ColorType::L16, PixelFormat::Gray10).message(),
        "image 'a.png' changed after probing (was 3x2 Rgb8 RGB24, now 3x4 L16 Gray10)"
    );
    assert_eq!(
        image_error("open", "a.png", "no such file").message(),
        "failed to open image 'a.png': no such file"
    );
}

#[test]
fn a_decode_carries_what_the_probe_recorded() {
    let info = probed("a.png", ColorType::L8, None);
    let image = decoded(
        &info,
        Pixels::Interleaved { color_type: ColorType::L8, buffer: vec![0; 6] },
        DecodeTimings {
            open: Duration::ZERO,
            metadata: Duration::ZERO,
            buffer: Duration::ZERO,
            read: Duration::from_millis(3),
        },
    );
    assert_eq!((image.width, image.height), (3, 2));
    assert_eq!(image.format, PixelFormat::Gray8);
    assert_eq!(image.timings.read, Duration::from_millis(3));
    assert_eq!((image.output_width(), image.output_height()), (3, 2));
}

#[test]
fn rotation_never_changes_the_code_that_is_reported() {
    for code in 1..=8u8 {
        let orientation = Orientation::from_exif(code).expect("a known exif code");
        for apply_rotation in [false, true] {
            let info = probe("a.png", facts(ColorType::L8, orientation), None, None, apply_rotation)
                .ok()
                .expect("a supported image");
            assert_eq!(info.orientation.to_exif(), code);
            let swapped = apply_rotation && code >= 5;
            let expected = if swapped { (2, 3) } else { (3, 2) };
            assert_eq!((info.output_width(), info.output_height()), expected, "exif {code}");
        }
    }
}
