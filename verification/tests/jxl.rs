use imgseqs::color::{Cicp, UNSPECIFIED};
use imgseqs::decoder::orientation_size;
use imgseqs::formats::jxl::{
    aligned_start, check_signature, cicp_of, draw_plan, handles, has_jxl_extension, image_info,
    more_input, orientation_of, output_format, owns, primaries_of, size_of, transfer_of, BitDepth,
    Codestream, ColorEncoding, ColorProfile, DataFormat, Header, JxlColorType, JxlOrientation,
    Primaries, TransferFunction, WhitePoint,
};
use imgseqs::image_types::{ColorType, Orientation};
use imgseqs::pixel::{PixelFormat, Transform};

/// The codestream's own enum value of `code`, by the name of the transformation
/// it describes.
fn jxl_orientation(code: u8) -> JxlOrientation {
    match code {
        1 => JxlOrientation::Identity,
        2 => JxlOrientation::FlipHorizontal,
        3 => JxlOrientation::Rotate180,
        4 => JxlOrientation::FlipVertical,
        5 => JxlOrientation::Transpose,
        6 => JxlOrientation::Rotate90Cw,
        7 => JxlOrientation::AntiTranspose,
        _ => JxlOrientation::Rotate90Ccw,
    }
}

/// A 3x4 eight bit gray codestream that states `orientation` and a gray sRGB
/// colour.
fn gray(orientation: JxlOrientation) -> Codestream {
    Codestream {
        size: (3, 4),
        bit_depth: BitDepth::Int(8),
        orientation,
        extra_channels: vec![],
        grayscale: true,
        profile: ColorProfile::Simple(ColorEncoding::GrayscaleColorSpace {
            transfer_function: TransferFunction::SRGB,
        }),
    }
}

#[test]
fn only_jxl_extensions_are_taken_over() {
    assert!(has_jxl_extension("a.jxl"));
    assert!(has_jxl_extension("a.JXL"));
    assert!(!has_jxl_extension("a.jxls"));
    assert!(!has_jxl_extension("jxl"));
    assert!(!has_jxl_extension("a.png"));
    assert!(owns("a.jxl"));
}

#[test]
fn every_code_keeps_the_number_the_exif_tag_uses() {
    for code in 1..=8u8 {
        let exif = Orientation::from_exif(code).expect("a known exif code");
        assert_eq!(orientation_of(jxl_orientation(code)), exif, "code {code}");
    }
}

#[test]
fn an_oriented_file_states_its_code_and_hands_out_the_display_picture() {
    let stream = gray(JxlOrientation::Rotate90Cw);
    let info = image_info("oriented.jxl", &stream, true).expect("the codestream to probe");
    assert_eq!((info.width, info.height), (3, 4), "the display size");
    assert_eq!(info.orientation, Orientation::Rotate90, "the code");
    assert_eq!(info.format, PixelFormat::Gray8);
    assert_eq!(orientation_size(info.transform, info.width, info.height), (3, 4));
    assert_eq!(info.transform, Transform::identity());
    assert!(handles(&info));

    let stored = image_info("oriented.jxl", &stream, false).expect("the codestream to probe");
    assert_eq!(stored.orientation, Orientation::Rotate90);
    assert_eq!((stored.width, stored.height), (3, 4), "the decoder's raster");
    assert_eq!(stored.transform, Transform::from_orientation(Orientation::Rotate270));
    assert_eq!(
        orientation_size(stored.transform, stored.width, stored.height),
        (4, 3),
        "the stored size"
    );
}

#[test]
fn an_alpha_channel_comes_through_the_color_buffer() {
    let stream = Codestream {
        size: (3, 2),
        bit_depth: BitDepth::Int(8),
        orientation: JxlOrientation::Identity,
        extra_channels: vec![false, true],
        grayscale: false,
        profile: ColorProfile::Simple(ColorEncoding::RgbColorSpace {
            white_point: WhitePoint::D65,
            primaries: Primaries::SRGB,
            transfer_function: TransferFunction::SRGB,
        }),
    };
    let info = image_info("alpha.jxl", &stream, true).expect("the codestream to probe");
    assert_eq!((info.width, info.height), (3, 2));
    assert_eq!(info.color_type, ColorType::Rgba8);
    assert_eq!(info.orientation, Orientation::NoTransforms);
    assert_eq!(info.transform, Transform::identity());

    let header = Header::read(&stream, "alpha.jxl").expect("the codestream to read");
    assert_eq!(header.extra_channels, 2);
    assert_eq!(header.jxl_color_type, JxlColorType::Rgba);
    let plan = draw_plan(&header, &info).expect("the probe still holds");
    assert_eq!((plan.rows, plan.row_bytes, plan.size, plan.sample_bytes), (2, 12, 24, 1));
}

#[test]
fn a_file_that_is_not_jpeg_xl_is_refused() {
    let error = check_signature(b"not a jpeg xl image at all", "not-jxl.jxl")
        .expect_err("a file without a signature");
    assert!(error.message().contains("jpeg xl"), "{}", error.message());
    assert!(check_signature(&[0xff, 0x0a], "a.jxl").is_ok());
    assert!(check_signature(b"\0\0\0\x0cJXL \x0d\x0a\x87\x0a", "a.jxl").is_ok());
    assert!(check_signature(&[0xff], "a.jxl").is_err());
}

#[test]
fn a_truncated_file_is_reported() {
    let error = more_input(0, "truncated.jxl").expect_err("a file that ends early");
    assert_eq!(
        error.message(),
        "failed to decode image 'truncated.jxl': the file ended before the picture did"
    );
    assert!(more_input(1, "truncated.jxl").is_ok());
}

#[test]
fn the_layouts_the_depths_pick() {
    let cases = [
        (BitDepth::Int(8), false, false, ColorType::Rgb8),
        (BitDepth::Int(8), true, true, ColorType::La8),
        (BitDepth::Int(10), false, false, ColorType::Rgb16),
        (BitDepth::Int(12), true, false, ColorType::L16),
        (BitDepth::Int(16), false, true, ColorType::Rgba16),
        (BitDepth::Float, false, false, ColorType::Rgb32F),
    ];
    for (depth, grayscale, alpha, expected) in cases {
        let (color_type, _, format) = output_format(depth, grayscale, alpha);
        assert_eq!(color_type, expected, "{depth:?} {grayscale} {alpha}");
        assert!(format.bytes_per_sample() <= 4);
    }
    assert_eq!(
        output_format(BitDepth::Float, true, true),
        (ColorType::Rgba32F, JxlColorType::Rgba, DataFormat::F32)
    );
}

#[test]
fn an_aligned_buffer_trims_to_the_sample_size() {
    for alignment in [1, 2, 4] {
        let storage = vec![0u8; 24 + alignment];
        let address = storage.as_ptr() as usize;
        let start = aligned_start(address, alignment);
        let bytes = &storage[start..start + 24];
        assert_eq!(bytes.len(), 24);
        assert_eq!(bytes.as_ptr() as usize % alignment, 0, "{alignment}");
    }
    assert_eq!(aligned_start(1001, 4), 3);
    assert_eq!(aligned_start(1000, 4), 0);
}

#[test]
fn the_primaries_code_pairs_a_white_point_with_its_chromaticities() {
    let cases = [
        (Primaries::SRGB, WhitePoint::D65, 1),
        (Primaries::BT2100, WhitePoint::D65, 9),
        (Primaries::P3, WhitePoint::DCI, 11),
        (Primaries::P3, WhitePoint::D65, 12),
        (Primaries::SRGB, WhitePoint::DCI, UNSPECIFIED),
        (Primaries::SRGB, WhitePoint::E, UNSPECIFIED),
        (Primaries::BT2100, WhitePoint::E, UNSPECIFIED),
        (Primaries::P3, WhitePoint::E, UNSPECIFIED),
        (Primaries::Chromaticities, WhitePoint::D65, UNSPECIFIED),
    ];
    for (primaries, white_point, expected) in cases {
        assert_eq!(
            primaries_of(primaries, white_point),
            expected,
            "{primaries:?} with {white_point:?}"
        );
    }
}

#[test]
fn the_transfer_codes_are_the_ones_vapoursynth_has() {
    let cases = [
        (TransferFunction::BT709, 1),
        (TransferFunction::Linear, 8),
        (TransferFunction::SRGB, 13),
        (TransferFunction::PQ, 16),
        (TransferFunction::HLG, 18),
        (TransferFunction::DCI, UNSPECIFIED),
        (TransferFunction::Gamma, UNSPECIFIED),
    ];
    for (transfer, expected) in cases {
        assert_eq!(transfer_of(transfer), expected, "{transfer:?}");
    }
}

#[test]
fn a_file_that_carries_an_icc_profile_states_no_codes() {
    assert!(cicp_of(&ColorProfile::Icc(vec![0; 128])).is_none());
    let stream = Codestream { profile: ColorProfile::Icc(vec![1, 2, 3]), ..gray(JxlOrientation::Identity) };
    let info = image_info("a.jxl", &stream, true).unwrap();
    assert!(info.has_icc_profile);
    assert_eq!(info.icc_profile, Some(vec![1, 2, 3]));
}

#[test]
fn a_codestream_that_states_codes_states_them() {
    let color = cicp_of(&ColorProfile::Simple(ColorEncoding::RgbColorSpace {
        white_point: WhitePoint::D65,
        primaries: Primaries::SRGB,
        transfer_function: TransferFunction::SRGB,
    }));
    assert_eq!(
        color,
        Some(Cicp { primaries: 1, transfer: 13, matrix: UNSPECIFIED, full_range: true })
    );
    let gray = image_info("gray.jxl", &gray(JxlOrientation::Rotate90Cw), true).unwrap();
    assert_eq!(
        gray.cicp,
        Some(Cicp {
            primaries: UNSPECIFIED,
            transfer: 13,
            matrix: UNSPECIFIED,
            full_range: true
        })
    );
    assert!(!gray.has_icc_profile);
    assert_eq!(
        cicp_of(&ColorProfile::Simple(ColorEncoding::XYB)).map(|color| color.transfer),
        Some(UNSPECIFIED)
    );
}

#[test]
fn a_jxl_frame_is_built_at_the_depth_the_codestream_states() {
    let stream = Codestream { bit_depth: BitDepth::Int(10), ..gray(JxlOrientation::Identity) };
    let info = image_info("a.jxl", &stream, true).unwrap();
    assert_eq!(info.color_type, ColorType::L16);
    assert_eq!(info.format, PixelFormat::Gray10);
    let header = Header::read(&stream, "a.jxl").unwrap();
    let plan = draw_plan(&header, &info).unwrap();
    assert_eq!((plan.row_bytes, plan.sample_bytes), (6, 2));
}

#[test]
fn a_jxl_file_that_changed_is_reported() {
    let info = image_info("a.jxl", &gray(JxlOrientation::Identity), true).unwrap();
    let deeper = Codestream { bit_depth: BitDepth::Int(10), ..gray(JxlOrientation::Identity) };
    let header = Header::read(&deeper, "a.jxl").unwrap();
    let error = draw_plan(&header, &info).expect_err("a depth that changed");
    assert_eq!(
        error.message(),
        "image 'a.jxl' changed after probing (was 3x4 L8 Gray8, now 3x4 L16 Gray10)"
    );
}

#[test]
fn a_size_no_frame_can_hold_is_refused() {
    assert_eq!(size_of((3, 4), "a.jxl").unwrap(), (3, 4));
    if usize::BITS > 32 {
        let error = size_of((usize::MAX, 4), "a.jxl").expect_err("a size past 32 bits");
        assert_eq!(
            error.message(),
            "image 'a.jxl' is 18446744073709551615x4, which is larger than a frame can hold"
        );
    }
}
