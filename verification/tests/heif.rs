use imgseqs::color::{usable_matrix, Cicp, UNSPECIFIED};
use imgseqs::decoder::{ImageInfo, Pixels};
use imgseqs::formats::heif::{
    cicp, color_space_of, handles, has_heif_extension, image_info, yuv_format, Chroma, ColorSpace,
    HeifHandle, HeifMatrix, HeifPrimaries, HeifTransfer, NclxProfile,
};
use imgseqs::formats::heif_decode::{
    alpha_plane_size, decode, pack_plane, plane_sizes, request, HeifImage, HeifPlane,
};
use imgseqs::image_types::{ColorType, Orientation};
use imgseqs::pixel::{PixelFormat, Transform};

fn info(path: &str, format: PixelFormat, color_type: ColorType) -> ImageInfo {
    sized_info(path, format, color_type, 3, 2)
}

fn sized_info(
    path: &str,
    format: PixelFormat,
    color_type: ColorType,
    width: u32,
    height: u32,
) -> ImageInfo {
    ImageInfo {
        path: path.to_string(),
        width,
        height,
        color_type,
        original_color_type: "L8".to_string(),
        has_icc_profile: false,
        icc_profile: None,
        cicp: None,
        chroma_location: None,
        orientation: Orientation::NoTransforms,
        transform: Transform::identity(),
        format,
    }
}

fn plane(data: &[u8], width: u32, height: u32, stride: usize, storage: u8) -> HeifPlane<'_> {
    HeifPlane {
        data,
        width,
        height,
        stride,
        bits_per_pixel: storage,
        storage_bits_per_pixel: storage,
    }
}

/// The profile of a file that states bt.601 full range codes.
fn stated() -> NclxProfile {
    NclxProfile {
        primaries: HeifPrimaries::Bt709,
        transfer: HeifTransfer::Iec6196621,
        matrix: HeifMatrix::Bt601,
        full_range_flag: 1,
    }
}

fn handle(color_space: ColorSpace, has_alpha: bool) -> HeifHandle {
    HeifHandle {
        width: 3,
        height: 2,
        color_space: Some(color_space),
        depth: 8,
        has_alpha,
        profile: None,
        nclx: Some(stated()),
    }
}

#[test]
fn only_heif_extensions_are_taken_over() {
    for path in ["a.heic", "b.heics", "c.heif", "d.HIF"] {
        assert!(has_heif_extension(path), "{path}");
    }
    for path in ["a.jpg", "b.png", "c.avif", "d"] {
        assert!(!has_heif_extension(path), "{path}");
    }
}

#[test]
fn handles_needs_a_heif_extension_and_a_non_rgb_probe() {
    assert!(handles(&info("a.heic", PixelFormat::Yuv420P8, ColorType::Rgb8)));
    assert!(handles(&info("a.heic", PixelFormat::Yuv420P10, ColorType::Rgb16)));
    assert!(handles(&info("a.heic", PixelFormat::Gray8, ColorType::L8)));
    assert!(!handles(&info("a.heic", PixelFormat::Rgb8, ColorType::Rgb8)));
    assert!(!handles(&info("a.png", PixelFormat::Yuv420P8, ColorType::Rgb8)));
    assert!(!handles(&info("a.avif", PixelFormat::Yuv420P8, ColorType::Rgb8)));
}

#[test]
fn the_subsampling_libheif_reports_maps_onto_a_format() {
    assert_eq!(yuv_format(Chroma::C420, 8), Some(PixelFormat::Yuv420P8));
    assert_eq!(yuv_format(Chroma::C422, 8), Some(PixelFormat::Yuv422P8));
    assert_eq!(yuv_format(Chroma::C444, 8), Some(PixelFormat::Yuv444P8));
    assert_eq!(yuv_format(Chroma::C420, 10), Some(PixelFormat::Yuv420P10));
    assert_eq!(yuv_format(Chroma::C422, 10), Some(PixelFormat::Yuv422P10));
    assert_eq!(yuv_format(Chroma::C444, 10), Some(PixelFormat::Yuv444P10));
    assert_eq!(yuv_format(Chroma::C444, 12), Some(PixelFormat::Yuv444P12));
    assert_eq!(yuv_format(Chroma::C420, 12), None);
    assert_eq!(yuv_format(Chroma::C422, 12), None);
}

#[test]
fn every_format_is_asked_of_libheif_in_its_own_colours() {
    for (format, colorspace) in [
        (PixelFormat::Gray8, ColorSpace::Monochrome),
        (PixelFormat::Gray16, ColorSpace::Monochrome),
        (PixelFormat::Yuv420P8, ColorSpace::YCbCr(Chroma::C420)),
        (PixelFormat::Yuv420P10, ColorSpace::YCbCr(Chroma::C420)),
        (PixelFormat::Yuv422P8, ColorSpace::YCbCr(Chroma::C422)),
        (PixelFormat::Yuv444P12, ColorSpace::YCbCr(Chroma::C444)),
    ] {
        assert_eq!(color_space_of(format), Some(colorspace), "{format:?}");
    }
    for format in [PixelFormat::Rgb8, PixelFormat::Rgb16, PixelFormat::Rgb32F] {
        assert_eq!(color_space_of(format), None, "{format:?}");
    }
}

#[test]
fn heif_a_matrix_the_properties_cannot_name_is_not_handed_out_as_yuv() {
    assert!(usable_matrix(6));
    assert!(usable_matrix(1));
    assert!(!usable_matrix(0));
    assert!(!usable_matrix(UNSPECIFIED));
}

#[test]
fn a_heif_file_states_the_colour_its_handle_carries() {
    let color = cicp("tests/fixtures/alpha-rgba8.heic", Some(stated())).expect("a stated colour");
    assert_eq!(
        color,
        Cicp { primaries: 1, transfer: 13, matrix: 6, full_range: true }
    );
}

#[test]
fn only_heif_extensions_are_read_for_colour() {
    for path in ["a.avif", "b.png", "c.jxl", "d.jpg", "e"] {
        assert!(cicp(path, Some(stated())).is_none(), "{path}");
    }
    assert!(cicp("a.heic", None).is_none());
}

#[test]
fn heif_a_colour_fixture_is_probed_as_the_yuv_it_holds() {
    let info = image_info(
        "tests/fixtures/alpha-rgba8.heic",
        &handle(ColorSpace::YCbCr(Chroma::C420), true),
    )
    .expect("a colour heic");
    assert_eq!((info.width, info.height), (3, 2));
    assert_eq!(info.format, PixelFormat::Yuv420P8);
    assert_eq!(info.color_type, ColorType::Rgba8);
    assert_eq!(info.original_color_type, "Rgba8");
    assert_eq!(info.transform, Transform::identity());
    assert_eq!(
        info.cicp,
        Some(Cicp { primaries: 1, transfer: 13, matrix: 6, full_range: true })
    );
}

#[test]
fn heif_a_monochrome_fixture_keeps_its_gray_format() {
    let mono = HeifHandle { width: 7, height: 5, ..handle(ColorSpace::Monochrome, true) };
    let info = image_info("tests/fixtures/mono-alpha.heic", &mono).expect("a monochrome heic");
    assert_eq!((info.width, info.height), (7, 5));
    assert_eq!(info.format, PixelFormat::Gray8);
    assert_eq!(info.color_type, ColorType::La8);
}

#[test]
fn heif_another_container_is_not_described_here() {
    for path in [
        "tests/fixtures/mono-alpha.avif",
        "tests/fixtures/mono-alpha.png",
        "tests/fixtures/alpha-rgba8.jxl",
    ] {
        assert!(
            image_info(path, &handle(ColorSpace::YCbCr(Chroma::C420), true)).is_none(),
            "{path}"
        );
    }
}

#[test]
fn padded_rows_are_packed_without_the_padding() {
    let buffer = [1, 2, 3, 9, 9, 4, 5, 6, 9, 9];
    let mut pixels = vec![0; 6];
    let luma = plane(&buffer, 3, 2, 5, 8);
    let info = info("a.heic", PixelFormat::Gray8, ColorType::L8);
    pack_plane(&info, Some(&luma), 0, &mut pixels).unwrap();
    assert_eq!(pixels, [1, 2, 3, 4, 5, 6]);
}

#[test]
fn a_chroma_plane_larger_than_the_frame_is_copied_row_by_row() {
    let buffer = [1, 2, 0, 0, 3, 4, 0, 0, 9, 9, 0, 0];
    let mut target = vec![0; 4];
    let chroma = plane(&buffer, 2, 3, 4, 8);
    let info = sized_info("a.heic", PixelFormat::Yuv420P8, ColorType::Rgb8, 3, 3);
    pack_plane(&info, Some(&chroma), 1, &mut target).unwrap();
    assert_eq!(target, [1, 2, 3, 4], "the extra row is left behind");
}

#[test]
fn sixteen_bit_samples_are_copied_byte_for_byte() {
    let buffer = [0x34, 0x12, 0x78, 0x56, 0xff, 0xff];
    let mut pixels = vec![0; 4];
    let luma = plane(&buffer, 2, 1, 6, 16);
    let info = sized_info("a.heif", PixelFormat::Gray16, ColorType::L16, 2, 1);
    pack_plane(&info, Some(&luma), 0, &mut pixels).unwrap();
    assert_eq!(pixels, [0x34, 0x12, 0x78, 0x56]);
}

#[test]
fn a_plane_that_does_not_fit_its_stride_is_rejected() {
    let buffer = [1, 2, 3, 4, 5, 6];
    let mut pixels = vec![0; 6];
    let luma = plane(&buffer, 3, 2, 2, 8);
    let info = info("a.heic", PixelFormat::Gray8, ColorType::L8);
    let error = pack_plane(&info, Some(&luma), 0, &mut pixels)
        .expect_err("a row wider than the stride cannot be packed");
    assert!(error.message().contains("stride"), "{}", error.message());
}

#[test]
fn a_plane_with_the_wrong_size_is_rejected() {
    let buffer = [1, 2, 3, 4, 5, 6];
    let mut pixels = vec![0; 6];
    let luma = plane(&buffer, 2, 2, 4, 8);
    let info = info("a.heic", PixelFormat::Gray8, ColorType::L8);
    let error = pack_plane(&info, Some(&luma), 0, &mut pixels)
        .expect_err("the probe reported a different size");
    assert!(error.message().contains("too small"), "{}", error.message());
}

#[test]
fn a_plane_that_is_missing_is_rejected() {
    let mut pixels = vec![0; 6];
    let info = info("a.heic", PixelFormat::Gray8, ColorType::L8);
    let error = pack_plane(&info, None, 0, &mut pixels).expect_err("no luma plane");
    assert!(error.message().contains("no luma plane"), "{}", error.message());
}

#[test]
fn a_frame_sized_color_type_is_probed_for_its_own_depth() {
    let info = sized_info("a.heic", PixelFormat::Yuv420P10, ColorType::Rgba16, 5, 3);
    assert_eq!(plane_sizes(&info).unwrap(), [5 * 3 * 2, 3 * 2 * 2, 3 * 2 * 2]);
    assert_eq!(alpha_plane_size(&info).unwrap(), 5 * 3 * 2);
}

#[test]
fn the_h273_codes_are_the_ones_a_file_states() {
    assert_eq!(HeifPrimaries::Bt709.code(), 1);
    assert_eq!(HeifPrimaries::Bt2020.code(), 9);
    assert_eq!(HeifTransfer::Iec6196621.code(), 13);
    assert_eq!(HeifTransfer::St428.code(), 17);
    assert_eq!(HeifMatrix::RgbGbr.code(), 0);
    assert_eq!(HeifMatrix::Bt601.code(), 6);
    assert_eq!(HeifMatrix::ICtCp.code(), 14);
    assert_eq!(HeifPrimaries::Unspecified.code(), UNSPECIFIED);
    assert_eq!(HeifMatrix::Unspecified.code(), UNSPECIFIED);
    assert_eq!(HeifTransfer::Unknown.code(), UNSPECIFIED);
}

#[test]
fn a_matrix_that_is_not_usable_leaves_a_heif_to_the_general_decoder() {
    for matrix in [HeifMatrix::RgbGbr, HeifMatrix::Unspecified] {
        let unnamed = HeifHandle {
            nclx: Some(NclxProfile { matrix, ..stated() }),
            ..handle(ColorSpace::YCbCr(Chroma::C420), false)
        };
        assert!(image_info("a.heic", &unnamed).is_none());
    }
}

#[test]
fn a_decoded_heif_is_packed_plane_by_plane() {
    let info = sized_info("a.heic", PixelFormat::Yuv420P8, ColorType::Rgba8, 2, 2);
    assert_eq!(
        request(&info, 2, 2).ok(),
        Some(ColorSpace::YCbCr(Chroma::C420))
    );
    assert!(request(&info, 3, 2).is_err());
    let luma = [1, 2, 9, 3, 4, 9];
    let blue = [5];
    let red = [6];
    let alpha = [7, 7, 8, 8];
    let image = HeifImage {
        color_space: Some(ColorSpace::YCbCr(Chroma::C420)),
        colors: "YCbCr(C420)",
        y: Some(plane(&luma, 2, 2, 3, 8)),
        cb: Some(plane(&blue, 1, 1, 1, 8)),
        cr: Some(plane(&red, 1, 1, 1, 8)),
        a: Some(plane(&alpha, 2, 2, 2, 8)),
    };
    match decode(&info, &image).expect("the planes to be packed") {
        Pixels::Planar { planes, alpha } => {
            assert_eq!(planes, vec![vec![1, 2, 3, 4], vec![5], vec![6]]);
            assert_eq!(alpha, Some(vec![7, 7, 8, 8]));
        }
        other => panic!("planes, got {other:?}"),
    }
    let empty = sized_info("a.heic", PixelFormat::Yuv420P8, ColorType::Rgba8, 0, 2);
    assert_eq!(
        pack_plane(&empty, None, 0, &mut Vec::new()).expect_err("no plane").message(),
        "decoded image 'a.heic' has no luma plane"
    );
    let monochrome = sized_info("a.heic", PixelFormat::Gray8, ColorType::L8, 0, 2);
    assert_eq!(
        decode(&monochrome, &image).expect_err("another sampling").message(),
        "failed to decode image 'a.heic': libheif produced YCbCr(C420), not Monochrome"
    );
    let opaque = HeifImage { a: None, ..image };
    assert_eq!(
        decode(&info, &opaque).expect_err("no alpha plane").message(),
        "decoded image 'a.heic' has no alpha plane, but it was probed as YUV420P8"
    );
}

#[test]
fn a_plane_shorter_than_its_rows_keeps_the_rows_it_holds() {
    let buffer = [1, 2, 3, 0, 4, 5];
    let mut pixels = vec![9; 6];
    let luma = plane(&buffer, 3, 2, 4, 8);
    let info = info("a.heic", PixelFormat::Gray8, ColorType::L8);
    let error = pack_plane(&info, Some(&luma), 0, &mut pixels).expect_err("a short plane");
    assert_eq!(error.message(), "luma plane of image 'a.heic' is shorter than its own rows");
    assert_eq!(pixels, [1, 2, 3, 9, 9, 9]);
}
