use imgseqs::clip::new_frame;
use imgseqs::color::{
    chroma_location, set_frame_properties, usable_matrix, ChromaLocation, Cicp, ColorRange,
    UNSPECIFIED,
};
use imgseqs::decoder::ImageInfo;
use imgseqs::frame::{ByteOrder, Properties, PropertyValue};
use imgseqs::image_types::{ColorType, Orientation};
use imgseqs::pixel::{PixelFormat, Transform};

/// The code points a frame has a `_Primaries` for.
const PRIMARIES: [u8; 11] = [1, 4, 5, 6, 7, 8, 9, 10, 11, 12, 22];

/// The code points it has a `_Transfer` for.
const TRANSFER: [u8; 14] = [1, 4, 5, 6, 7, 8, 9, 10, 11, 13, 14, 15, 16, 18];

/// The code points it has a `_Matrix` for.
const MATRIX: [u8; 12] = [0, 1, 4, 5, 6, 7, 8, 9, 10, 12, 13, 14];

/// A file that states nothing but the code under test.
fn stating(code: u8) -> Cicp {
    Cicp { primaries: code, transfer: code, matrix: code, full_range: false }
}

#[test]
fn only_the_codes_vapoursynth_names_a_property_become_one() {
    for code in 0..=255u8 {
        let stated = stating(code);
        assert_eq!(
            stated.primaries().is_some(),
            PRIMARIES.contains(&code),
            "primaries code {code}"
        );
        assert_eq!(
            stated.transfer().is_some(),
            TRANSFER.contains(&code),
            "transfer code {code}"
        );
        assert_eq!(stated.matrix().is_some(), MATRIX.contains(&code), "matrix code {code}");
    }
}

#[test]
fn unspecified_states_nothing() {
    let stated = stating(UNSPECIFIED);
    assert!(stated.primaries().is_none());
    assert!(stated.transfer().is_none());
    assert!(stated.matrix().is_none());
}

#[test]
fn a_property_carries_the_code_the_file_states() {
    for code in PRIMARIES {
        assert_eq!(
            stating(code).primaries().expect("a stated primaries").code(),
            i32::from(code)
        );
    }
    for code in TRANSFER {
        assert_eq!(
            stating(code).transfer().expect("a stated transfer").code(),
            i32::from(code)
        );
    }
    for code in MATRIX {
        assert_eq!(stating(code).matrix().expect("a stated matrix").code(), i32::from(code));
    }
}

#[test]
fn the_range_follows_the_flag() {
    let full = Cicp { full_range: true, ..stating(1) };
    assert_eq!(full.range(), ColorRange::Full);
    assert_eq!(full.range().code(), 1);
    assert_eq!(stating(1).range(), ColorRange::Limited);
    assert_eq!(stating(1).range().code(), 0);
}

#[test]
fn only_a_known_chroma_position_is_a_location() {
    assert_eq!(chroma_location(0), None);
    assert_eq!(chroma_location(1), Some(ChromaLocation::Left));
    assert_eq!(chroma_location(2), Some(ChromaLocation::TopLeft));
    assert_eq!(chroma_location(3), None);
}

#[test]
fn a_matrix_without_a_property_is_not_usable() {
    assert!(!usable_matrix(3));
    assert!(!usable_matrix(255));
    assert!(usable_matrix(9));
}

fn image(format: PixelFormat, cicp: Option<Cicp>, icc_profile: Option<Vec<u8>>) -> ImageInfo {
    ImageInfo {
        path: "a.webp".to_string(),
        width: 2,
        height: 2,
        color_type: ColorType::Rgb8,
        original_color_type: "Rgb8".to_string(),
        has_icc_profile: icc_profile.is_some(),
        icc_profile,
        cicp,
        chroma_location: Some(ChromaLocation::Left),
        orientation: Orientation::NoTransforms,
        transform: Transform::identity(),
        format,
    }
}

/// The number a frame of `format` that shows `image` is tagged with under `key`.
fn tag(image: &ImageInfo, format: PixelFormat, export: bool, key: &str) -> Option<i64> {
    match tags(image, format, export).get(key) {
        Some(PropertyValue::Int(value)) => Some(*value),
        _ => None,
    }
}

fn tags(image: &ImageInfo, format: PixelFormat, export: bool) -> Properties {
    let mut frame = new_frame(format, 2, 2, ByteOrder::Little, 1).ok().expect("a small frame");
    assert!(set_frame_properties(&mut frame, image, 4, format, None, export).is_ok());
    frame.properties
}

#[test]
fn an_rgb_frame_keeps_the_matrix_and_the_range_of_its_family() {
    let stated = Cicp { primaries: 9, transfer: 16, matrix: 9, full_range: false };
    let page = image(PixelFormat::Rgb8, Some(stated), None);
    assert_eq!(tag(&page, PixelFormat::Rgb8, false, "_Matrix"), Some(0));
    assert_eq!(tag(&page, PixelFormat::Rgb8, false, "_Range"), Some(1));
    assert_eq!(tag(&page, PixelFormat::Rgb8, false, "_Primaries"), Some(9));
    assert_eq!(tag(&page, PixelFormat::Rgb8, false, "_Transfer"), Some(16));
    assert_eq!(tag(&page, PixelFormat::Rgb8, false, "_ChromaLocation"), None);
    assert_eq!(tag(&page, PixelFormat::Gray8, false, "_Matrix"), None);
    assert_eq!(tag(&page, PixelFormat::Gray8, false, "_Range"), Some(1));
}

#[test]
fn a_yuv_frame_carries_the_colour_of_its_planes() {
    let untagged = image(PixelFormat::Yuv420P8, None, None);
    assert_eq!(tag(&untagged, PixelFormat::Yuv420P8, false, "_Matrix"), Some(5));
    assert_eq!(tag(&untagged, PixelFormat::Yuv420P8, false, "_Range"), Some(0));
    assert_eq!(tag(&untagged, PixelFormat::Yuv420P8, false, "_ChromaLocation"), Some(0));
    assert_eq!(tag(&untagged, PixelFormat::Yuv444P8, false, "_ChromaLocation"), None);
    let stated = Cicp { primaries: 1, transfer: 1, matrix: 9, full_range: true };
    let tagged = image(PixelFormat::Yuv420P8, Some(stated), None);
    assert_eq!(tag(&tagged, PixelFormat::Yuv420P8, false, "_Matrix"), Some(9));
    assert_eq!(tag(&tagged, PixelFormat::Yuv420P8, false, "_Range"), Some(1));
}

#[test]
fn a_profile_changes_nothing_but_the_property_that_says_so() {
    let plain = tags(&image(PixelFormat::Rgb8, None, None), PixelFormat::Rgb8, false);
    let page = image(PixelFormat::Rgb8, None, Some(vec![1, 2]));
    let profiled = tags(&page, PixelFormat::Rgb8, false);
    assert_eq!(plain.len(), profiled.len());
    for index in 0..plain.len() {
        let (key, value) = plain.entry(index);
        let (other_key, other_value) = profiled.entry(index);
        assert_eq!(key, other_key);
        if key != "ImgSeqHasICC" {
            assert_eq!(format!("{value:?}"), format!("{other_value:?}"), "{key}");
        }
    }
    assert!(matches!(profiled.get("ImgSeqHasICC"), Some(PropertyValue::Int(1))));
    assert!(matches!(plain.get("ImgSeqHasICC"), Some(PropertyValue::Int(0))));
    match tags(&page, PixelFormat::Rgb8, true).get("ICCProfile") {
        Some(PropertyValue::Data(bytes)) => assert_eq!(*bytes, [1, 2]),
        _ => panic!("an exported profile is a property"),
    }
}
