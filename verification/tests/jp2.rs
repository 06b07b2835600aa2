use imgseqs::color::Cicp;
use imgseqs::decoder::{ImageInfo, Pixels};
use imgseqs::formats::jp2::{
    cicp, handles, has_extension, image_info, output_format, owns, parse_header, walk_boxes,
    ComponentHeader, EnumeratedColor, Header, Jp2State,
};
use imgseqs::formats::jp2_decode::{
    check_decoded_header, decode, open, sycc_sample, take_pixels, PageContents, PagePixels,
};
use imgseqs::frame::ByteOrder;
use imgseqs::image_types::ColorType;
use imgseqs::pixel::PixelFormat;

/// Extensions whose contents are JPEG 2000.
const EXTENSIONS: [&str; 5] = ["jp2", "j2k", "jpf", "jpx", "j2c"];

fn siz(width: u32, height: u32, components: &[(u8, u8, u8)]) -> Vec<u8> {
    let length = 38 + components.len() * 3;
    let mut data = vec![0xff, 0x4f, 0xff, 0x51];
    data.extend_from_slice(&(u16::try_from(length).unwrap()).to_be_bytes());
    data.extend_from_slice(&0u16.to_be_bytes());
    data.extend_from_slice(&width.to_be_bytes());
    data.extend_from_slice(&height.to_be_bytes());
    data.extend_from_slice(&0u32.to_be_bytes());
    data.extend_from_slice(&0u32.to_be_bytes());
    data.extend_from_slice(&width.to_be_bytes());
    data.extend_from_slice(&height.to_be_bytes());
    data.extend_from_slice(&0u32.to_be_bytes());
    data.extend_from_slice(&0u32.to_be_bytes());
    data.extend_from_slice(&(u16::try_from(components.len()).unwrap()).to_be_bytes());
    for component in components {
        data.extend_from_slice(&[component.0, component.1, component.2]);
    }
    data
}

/// A whole codestream whose packets are all empty, so that every sample is the
/// middle of its range.
fn codestream(width: u32, height: u32, components: &[(u8, u8, u8)]) -> Vec<u8> {
    let mut data = siz(width, height, components);
    data.extend_from_slice(&[0xff, 0x52, 0, 12, 0, 0, 0, 1, 0, 0, 4, 4, 0, 1]);
    data.extend_from_slice(&[0xff, 0x5c, 0, 4, 0x40, 0x40]);
    let tile_length = 14 + u32::try_from(components.len()).unwrap();
    data.extend_from_slice(&[0xff, 0x90, 0, 10, 0, 0]);
    data.extend_from_slice(&tile_length.to_be_bytes());
    data.extend_from_slice(&[0, 1, 0xff, 0x93]);
    data.extend(vec![0u8; components.len()]);
    data.extend_from_slice(&[0xff, 0xd9]);
    data
}

fn boxed(kind: &[u8; 4], payload: &[u8]) -> Vec<u8> {
    let mut bytes = u32::try_from(8 + payload.len()).unwrap().to_be_bytes().to_vec();
    bytes.extend_from_slice(kind);
    bytes.extend_from_slice(payload);
    bytes
}

fn ihdr(width: u32, height: u32, components: u16, depth: u8) -> Vec<u8> {
    let mut payload = height.to_be_bytes().to_vec();
    payload.extend_from_slice(&width.to_be_bytes());
    payload.extend_from_slice(&components.to_be_bytes());
    payload.extend_from_slice(&[depth - 1, 7, 0, 0]);
    boxed(b"ihdr", &payload)
}

fn colr(number: u32) -> Vec<u8> {
    let mut payload = vec![1, 0, 0];
    payload.extend_from_slice(&number.to_be_bytes());
    boxed(b"colr", &payload)
}

/// A JP2 file around a codestream of `components` that states an enumerated
/// colour.
fn jp2(width: u32, height: u32, components: &[(u8, u8, u8)], color: u32) -> Vec<u8> {
    let depth = components[0].0 + 1;
    let count = u16::try_from(components.len()).unwrap();
    let mut data = boxed(b"jP  ", &[0x0d, 0x0a, 0x87, 0x0a]);
    data.extend(boxed(b"ftyp", b"jp2 \0\0\0\0jp2 "));
    data.extend(boxed(
        b"jp2h",
        &[ihdr(width, height, count, depth), colr(color)].concat(),
    ));
    data.extend(boxed(b"jp2c", &codestream(width, height, components)));
    data
}

fn component(precision: u32, dx: u8, dy: u8) -> ComponentHeader {
    ComponentHeader { precision, signed: false, dx, dy }
}

fn header(color: EnumeratedColor, components: Vec<ComponentHeader>) -> Header {
    Header { width: 2, height: 2, components, color, has_icc_profile: false }
}

fn probed(path: &str, data: &[u8]) -> ImageInfo {
    image_info(path, data).ok().expect("the file to probe")
}

fn decoded(path: &str, data: &[u8]) -> PageContents {
    decode(&probed(path, data), data, ByteOrder::Little)
        .expect("a page of a countable size")
        .expect("the page to decode")
}

#[test]
fn reads_a_bare_codestream_header() {
    let data = siz(640, 480, &[(7, 1, 1), (7, 1, 1), (7, 1, 1)]);
    let header = parse_header(&data, "image.j2k").unwrap();
    assert_eq!((header.width, header.height), (640, 480));
    assert_eq!(header.components.len(), 3);
    assert_eq!(header.components[0].precision, 8);
}

#[test]
fn accepts_the_supported_extensions_case_insensitively() {
    for extension in EXTENSIONS {
        assert!(has_extension(&format!("page.{extension}")));
        assert!(has_extension(&format!("page.{}", extension.to_uppercase())));
        assert!(owns(&format!("page.{extension}")));
    }
    assert!(!has_extension("page.jp2.zip"));
    assert!(!has_extension("page.png"));
}

#[test]
fn maps_srgb_and_s_ycc_to_their_frame_formats() {
    let rgb = header(EnumeratedColor::Srgb, vec![component(8, 1, 1); 3]);
    assert_eq!(output_format(&rgb, "rgb.jp2").unwrap().1, PixelFormat::Rgb8);
    for (depth, chroma, expected) in [
        (8, (2, 2), PixelFormat::Yuv420P8),
        (10, (2, 2), PixelFormat::Yuv420P10),
        (8, (2, 1), PixelFormat::Yuv422P8),
        (10, (2, 1), PixelFormat::Yuv422P10),
        (8, (1, 1), PixelFormat::Yuv444P8),
        (10, (1, 1), PixelFormat::Yuv444P10),
        (12, (1, 1), PixelFormat::Yuv444P12),
        (16, (1, 1), PixelFormat::Yuv444P16),
    ] {
        let components = [(1, 1), chroma, chroma]
            .into_iter()
            .map(|(dx, dy)| component(depth, dx, dy))
            .collect();
        let yuv = header(EnumeratedColor::Sycc, components);
        assert_eq!(
            output_format(&yuv, "yuv.jp2").unwrap().1,
            expected,
            "depth={depth}, chroma={chroma:?}"
        );
    }
}

#[test]
fn refuses_the_components_no_frame_holds() {
    let cases = [
        (
            header(EnumeratedColor::Gray, vec![]),
            "image 'a.jp2' has unsupported JPEG 2000 component precision or signed samples",
        ),
        (
            header(
                EnumeratedColor::Gray,
                vec![ComponentHeader { signed: true, ..component(8, 1, 1) }],
            ),
            "image 'a.jp2' has unsupported JPEG 2000 component precision or signed samples",
        ),
        (
            header(EnumeratedColor::Sycc, vec![component(8, 1, 1)]),
            "image 'a.jp2' marks a single JPEG 2000 component as sYCC",
        ),
        (
            header(EnumeratedColor::Gray, vec![component(8, 1, 1); 3]),
            "image 'a.jp2' marks three JPEG 2000 components as grayscale",
        ),
        (
            header(
                EnumeratedColor::Srgb,
                vec![component(8, 1, 1), component(8, 2, 2), component(8, 2, 2)],
            ),
            "image 'a.jp2' has subsampled JPEG 2000 components without an sYCC color declaration",
        ),
        (
            header(EnumeratedColor::Srgb, vec![component(8, 1, 1); 2]),
            "image 'a.jp2' has 2 JPEG 2000 components; only gray and RGB are supported",
        ),
    ];
    for (header, expected) in cases {
        assert_eq!(
            output_format(&header, "a.jp2").expect_err("an unsupported picture").message(),
            expected
        );
    }
}

#[test]
fn a_gray_picture_is_handed_out_at_its_depth() {
    let deep = header(EnumeratedColor::Gray, vec![component(12, 1, 1)]);
    assert_eq!(
        output_format(&deep, "a.jp2").unwrap(),
        (ColorType::L16, PixelFormat::Gray12)
    );
    let shallow = header(EnumeratedColor::Gray, vec![component(4, 1, 1)]);
    assert_eq!(
        output_format(&shallow, "a.jp2").unwrap(),
        (ColorType::L8, PixelFormat::Gray8)
    );
}

#[test]
fn the_boxes_of_a_container_state_its_colour() {
    let data = jp2(2, 2, &[(7, 1, 1); 3], 16);
    let header = parse_header(&data, "a.jp2").unwrap();
    assert_eq!(header.color, EnumeratedColor::Srgb);
    let info = probed("a.jp2", &data);
    assert_eq!(info.format, PixelFormat::Rgb8);
    assert_eq!(
        info.cicp,
        Some(Cicp { primaries: 1, transfer: 13, matrix: 0, full_range: true })
    );
    assert!(!info.has_icc_profile);
    assert!(handles(&info));
    assert_eq!(info.original_color_type, "Rgb8");
    assert_eq!(cicp(EnumeratedColor::Other), None);
    assert_eq!(cicp(EnumeratedColor::Sycc).map(|color| color.matrix), Some(6));
    assert_eq!(cicp(EnumeratedColor::Gray).map(|color| color.matrix), Some(2));
}

#[test]
fn a_container_that_is_broken_is_refused() {
    let identify = |detail: &str| format!("failed to identify image 'a.jp2': {detail}");
    let cases: Vec<(Vec<u8>, String)> = vec![
        (
            b"not a picture".to_vec(),
            identify(
                "the file starts with neither a JPEG 2000 codestream nor a JP2 signature",
            ),
        ),
        (
            boxed(b"jP  ", &[0x0d, 0x0a, 0x87, 0x0a]),
            identify("the JP2 file has no SIZ marker"),
        ),
        (
            [boxed(b"jP  ", &[0x0d, 0x0a, 0x87, 0x0a]), vec![0; 4]].concat(),
            identify("a JP2 box header is truncated"),
        ),
        (
            [boxed(b"jP  ", &[0x0d, 0x0a, 0x87, 0x0a]), vec![0, 0, 0, 1, 0, 0, 0, 0]].concat(),
            identify("a JP2 extended box header is truncated"),
        ),
        (
            [boxed(b"jP  ", &[0x0d, 0x0a, 0x87, 0x0a]), vec![0, 0, 1, 0, 0, 0, 0, 0]].concat(),
            identify("a JP2 box extends past the file"),
        ),
        (
            [boxed(b"jP  ", &[0x0d, 0x0a, 0x87, 0x0a]), boxed(b"ihdr", &[0; 13])].concat(),
            identify("the JP2 ihdr box is truncated"),
        ),
        (
            [boxed(b"jP  ", &[0x0d, 0x0a, 0x87, 0x0a]), boxed(b"colr", &[1, 0])].concat(),
            identify("the JP2 colr box is truncated"),
        ),
        (
            [boxed(b"jP  ", &[0x0d, 0x0a, 0x87, 0x0a]), boxed(b"jp2c", &[0; 8])].concat(),
            identify("the JPEG 2000 file has no SIZ marker"),
        ),
    ];
    for (data, expected) in cases {
        assert_eq!(
            parse_header(&data, "a.jp2").expect_err("a broken file").message(),
            expected
        );
    }
}

#[test]
fn a_codestream_that_is_broken_is_refused() {
    let identify = |detail: &str| format!("failed to identify image 'a.j2k': {detail}");
    let good = siz(4, 3, &[(7, 1, 1)]);
    let changed = |at: usize, value: u8| {
        let mut data = good.clone();
        data[at] = value;
        data
    };
    let cases: Vec<(Vec<u8>, String)> = vec![
        (good[..20].to_vec(), identify("the JPEG 2000 SIZ marker is truncated")),
        (changed(5, 37), identify("the JPEG 2000 SIZ marker has an invalid length")),
        (changed(5, 99), identify("the JPEG 2000 SIZ marker has an invalid length")),
        (changed(11, 0), identify("the JPEG 2000 SIZ dimensions are invalid")),
        (changed(5, 38), identify("the JPEG 2000 component list is truncated")),
        (changed(43, 0), identify("the JPEG 2000 component sampling is invalid")),
        (
            changed(41, 4),
            "image 'a.j2k' has 4 JPEG 2000 components; only gray and RGB are supported"
                .to_string(),
        ),
    ];
    for (data, expected) in cases {
        assert_eq!(
            parse_header(&data, "a.j2k").expect_err("a broken codestream").message(),
            expected
        );
    }
}

#[test]
fn a_container_and_its_codestream_have_to_agree() {
    let signature = boxed(b"jP  ", &[0x0d, 0x0a, 0x87, 0x0a]);
    let stream = boxed(b"jp2c", &codestream(2, 2, &[(7, 1, 1)]));
    let sizes = [signature.clone(), ihdr(3, 2, 1, 8), stream.clone()].concat();
    assert_eq!(
        parse_header(&sizes, "a.jp2").expect_err("two sizes").message(),
        "failed to identify image 'a.jp2': the JP2 ihdr and codestream dimensions disagree"
    );
    let depths = [signature.clone(), ihdr(2, 2, 1, 10), stream.clone()].concat();
    assert_eq!(
        parse_header(&depths, "a.jp2").expect_err("two depths").message(),
        "failed to identify image 'a.jp2': the JP2 ihdr and codestream precision disagree"
    );
    let profile = [signature, boxed(b"colr", &[2, 0, 0, 9]), stream].concat();
    let header = parse_header(&profile, "a.jp2").unwrap();
    assert!(header.has_icc_profile);
    assert_eq!(header.color, EnumeratedColor::Gray);
}

#[test]
fn a_gray_codestream_decodes_into_its_samples() {
    match decoded("a.j2k", &codestream(2, 2, &[(7, 1, 1)])) {
        PageContents::Ready(Pixels::Interleaved { color_type, buffer }) => {
            assert_eq!(color_type, ColorType::L8);
            assert_eq!(buffer, [128, 128, 128, 128]);
        }
        other => panic!("an interleaved buffer, got {other:?}"),
    }
}

#[test]
fn a_deep_gray_codestream_decodes_into_words() {
    match decoded("a.j2k", &codestream(2, 1, &[(11, 1, 1)])) {
        PageContents::Ready(Pixels::Interleaved { color_type, buffer }) => {
            assert_eq!(color_type, ColorType::L16);
            // 2048 of 4095 is 32775 of 65535.
            assert_eq!(buffer, [0x07, 0x80, 0x07, 0x80]);
        }
        other => panic!("an interleaved buffer, got {other:?}"),
    }
}

#[test]
fn an_srgb_page_decodes_into_interleaved_samples() {
    match decoded("a.jp2", &jp2(2, 1, &[(7, 1, 1); 3], 16)) {
        PageContents::Ready(Pixels::Interleaved { color_type, buffer }) => {
            assert_eq!(color_type, ColorType::Rgb8);
            assert_eq!(buffer, [128; 6]);
        }
        other => panic!("an interleaved buffer, got {other:?}"),
    }
}

#[test]
fn an_s_ycc_page_decodes_into_its_planes() {
    match decoded("a.jp2", &jp2(4, 4, &[(7, 1, 1), (7, 2, 2), (7, 2, 2)], 18)) {
        PageContents::Ready(Pixels::Planar { planes, alpha }) => {
            assert!(alpha.is_none());
            assert_eq!(planes, vec![vec![128; 16], vec![128; 4], vec![128; 4]]);
        }
        other => panic!("planes, got {other:?}"),
    }
}

#[test]
fn a_ten_bit_s_ycc_page_is_right_aligned() {
    match decoded("a.jp2", &jp2(2, 1, &[(9, 1, 1); 3], 18)) {
        PageContents::Ready(Pixels::Planar { planes, .. }) => {
            // The middle of ten bits is 512.
            assert_eq!(planes, vec![vec![0x00, 0x02, 0x00, 0x02]; 3]);
        }
        other => panic!("planes, got {other:?}"),
    }
}

#[test]
fn an_s_ycc_page_without_a_yuv_format_is_left_to_be_converted() {
    match decoded("a.jp2", &jp2(2, 1, &[(8, 1, 1); 3], 18)) {
        PageContents::Sycc { wide, planes } => {
            assert!(wide);
            assert_eq!(planes.len(), 3);
            assert_eq!((planes[0].width, planes[0].height), (2, 1));
            // 256 of 511 is 32831 of 65535.
            assert_eq!(planes[0].values, [32831, 32831]);
        }
        other => panic!("planes to convert, got {other:?}"),
    }
    match decoded("a.jp2", &jp2(4, 4, &[(7, 1, 1), (7, 4, 4), (7, 4, 4)], 18)) {
        PageContents::Sycc { wide, planes } => {
            assert!(!wide);
            assert_eq!((planes[1].width, planes[1].height), (1, 1));
            assert_eq!(planes[1].values, [128]);
        }
        other => panic!("planes to convert, got {other:?}"),
    }
}

#[test]
fn a_page_that_is_not_the_probed_one_is_reported() {
    let info = probed("a.j2k", &codestream(2, 2, &[(7, 1, 1)]));
    let other = codestream(3, 2, &[(11, 1, 1)]);
    let error = decode(&info, &other, ByteOrder::Little)
        .expect("a countable page")
        .expect_err("another file");
    assert_eq!(
        error.message(),
        "image 'a.j2k' changed after probing (was 2x2 L8 Gray8, now 3x2 L16 Gray12)"
    );
}

#[test]
fn a_page_open_jpeg_refuses_is_reported() {
    // A header alone is no codestream.
    let data = siz(2, 2, &[(7, 1, 1)]);
    let info = probed("a.j2k", &data);
    let error = decode(&info, &data, ByteOrder::Little)
        .expect("a countable page")
        .expect_err("no codestream");
    assert!(
        error.message().starts_with("failed to decode image 'a.j2k': "),
        "{}",
        error.message()
    );
    assert!(open(b"not a picture", "a.j2k").is_err());
}

#[test]
fn a_page_is_held_against_the_header() {
    let data = codestream(2, 2, &[(7, 1, 1)]);
    let image = open(&data, "a.j2k").ok().expect("the page to decode");
    let mut expected = parse_header(&data, "a.j2k").unwrap();
    assert!(check_decoded_header(&image, &expected, "a.j2k").is_ok());
    expected.components[0].precision = 9;
    assert_eq!(
        check_decoded_header(&image, &expected, "a.j2k").expect_err("a depth").message(),
        "failed to decode image 'a.j2k': OpenJPEG returned component metadata different from the header"
    );
    expected.width = 3;
    assert_eq!(
        check_decoded_header(&image, &expected, "a.j2k").expect_err("a size").message(),
        "failed to decode image 'a.j2k': OpenJPEG returned dimensions or components different from the header"
    );
    expected.width = 2;
    expected.height = 3;
    assert!(check_decoded_header(&image, &expected, "a.j2k").is_err());
}

#[test]
fn samples_in_another_layout_are_refused() {
    let bytes = PagePixels::Bytes(ColorType::L8, vec![1, 22]);
    assert_eq!(
        take_pixels(bytes, ColorType::Rgb8, ByteOrder::Little, "a.j2k")
            .expect_err("another layout")
            .message(),
        "failed to decode image 'a.j2k': OpenJPEG returned L8([1, 22]), expected Rgb8"
    );
    let words = PagePixels::Words(ColorType::L16, vec![0x0102]);
    assert_eq!(take_pixels(words, ColorType::L16, ByteOrder::Big, "a.j2k").unwrap(), [1, 2]);
}

#[test]
fn a_point_reads_the_sample_that_covers_it() {
    assert_eq!(sycc_sample(2, 2, 0, 0, 4, 4), 0);
    assert_eq!(sycc_sample(2, 2, 3, 0, 4, 4), 1);
    assert_eq!(sycc_sample(2, 2, 1, 3, 4, 4), 2);
    assert_eq!(sycc_sample(4, 4, 3, 3, 4, 4), 15);
    assert_eq!(sycc_sample(1, 1, 2, 2, 3, 3), 0);
}

#[test]
fn a_failing_box_keeps_what_the_boxes_before_it_state() {
    let nothing = || Jp2State {
        ihdr: None,
        siz: None,
        color: EnumeratedColor::Unspecified,
        has_icc_profile: false,
    };
    let inner = [ihdr(3, 2, 1, 8), boxed(b"colr", &[2, 0])].concat();
    let data = [colr(16), boxed(b"jp2h", &inner), ihdr(9, 9, 3, 8)].concat();
    let mut state = nothing();
    let error = walk_boxes(&data, 0, data.len(), &mut state, "a.jp2").expect_err("a short colr");
    assert_eq!(
        error.message(),
        "failed to identify image 'a.jp2': the JP2 colr box is truncated"
    );
    let read = state.ihdr.expect("the header before the failing box");
    assert_eq!((read.width, read.height, read.components), (3, 2, 1));
    assert_eq!(state.color, EnumeratedColor::Srgb);

    let mut state = nothing();
    let cut = [colr(17), vec![0; 3]].concat();
    assert!(walk_boxes(&cut, 0, cut.len(), &mut state, "a.jp2").is_err());
    assert_eq!(state.color, EnumeratedColor::Gray);
    assert!(state.siz.is_none());
}
