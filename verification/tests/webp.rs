use imgseqs::decoder::ImageInfo;
use imgseqs::formats::webp::{
    bitstream_header, check_size, handles, has_webp_extension, layout, output_format, rejected,
    pixels_plan, rgb_plan, row_bytes, stride_of, yuv_plan, BitstreamHeader, ChunkWalk, WalkStep,
    WebpLayout, WebpPlan,
};
use imgseqs::image_types::{ColorType, Orientation};
use imgseqs::pixel::{PixelFormat, Transform};

/// One chunk of a container, as the id and payload a case is built from.
type Chunk = (&'static [u8; 4], Vec<u8>);

/// A coding, as the `lossless`/`has_alpha` pair a case is written with.
type Coding = Option<(bool, bool)>;

fn info(path: &str, color_type: ColorType, width: u32, height: u32) -> ImageInfo {
    ImageInfo {
        path: path.to_string(),
        width,
        height,
        color_type,
        original_color_type: color_type.name().to_string(),
        has_icc_profile: false,
        icc_profile: None,
        cicp: None,
        chroma_location: None,
        orientation: Orientation::NoTransforms,
        transform: Transform::identity(),
        format: PixelFormat::from_color_type(color_type).expect("a supported color type"),
    }
}

/// A webp container holding `chunks`, each padded to an even size. Without any,
/// the magic is left out too.
fn riff(chunks: &[Chunk]) -> Vec<u8> {
    if chunks.is_empty() {
        return vec![0; 64];
    }
    let mut body = b"WEBP".to_vec();
    for (id, payload) in chunks {
        body.extend_from_slice(*id);
        body.extend_from_slice(&u32::try_from(payload.len()).unwrap().to_le_bytes());
        body.extend_from_slice(payload);
        if payload.len() % 2 == 1 {
            body.push(0);
        }
    }
    let mut file = b"RIFF".to_vec();
    file.extend_from_slice(&u32::try_from(body.len()).unwrap().to_le_bytes());
    file.extend_from_slice(&body);
    file
}

/// The payload of a `VP8X` chunk with `flags`.
fn vp8x(flags: u8) -> Vec<u8> {
    vec![flags, 0, 0, 0, 15, 0, 0, 15, 0, 0]
}

#[test]
fn only_webp_extensions_are_taken_over() {
    assert!(has_webp_extension("a.webp"));
    assert!(has_webp_extension("a.WEBP"));
    assert!(!has_webp_extension("a.webpx"));
    assert!(!has_webp_extension("webp"));
    assert!(!has_webp_extension("a.png"));
}

#[test]
fn handles_every_webp_file() {
    assert!(handles(&info("page.webp", ColorType::Rgb8, 3, 2)));
    assert!(handles(&info("page.webp", ColorType::Rgba8, 3, 2)));
    assert!(!handles(&info("page.png", ColorType::Rgb8, 3, 2)));
}

#[test]
fn maps_the_color_types_the_probe_reports() {
    let rgb = layout(&info("a.webp", ColorType::Rgb8, 3, 2)).unwrap();
    assert_eq!(rgb.1, 3);
    assert_eq!(rgb.0, WebpLayout::Rgb);
    let rgba = layout(&info("a.webp", ColorType::Rgba8, 3, 2)).unwrap();
    assert_eq!(rgba.1, 4);
    assert_eq!(rgba.0, WebpLayout::Rgba);
    let error = layout(&info("a.webp", ColorType::L8, 3, 2))
        .expect_err("a layout libwebp cannot write has to be refused");
    assert_eq!(
        error.message(),
        "image 'a.webp' was probed as L8, which is not a webp layout"
    );
}

#[test]
fn rows_are_checked_against_the_width() {
    assert_eq!(row_bytes(3, 3).unwrap(), 9);
    assert_eq!(row_bytes(3, 4).unwrap(), 12);
    assert_eq!(row_bytes(u32::MAX, 4).is_ok(), usize::BITS > 34);
    assert_eq!(
        row_bytes(2, usize::MAX).expect_err("an overflow").message(),
        "image row is too large"
    );
}

#[test]
fn reads_the_coding_out_of_the_container() {
    let cases: [(&str, Vec<Chunk>, Coding); 7] = [
        ("still-lossy", vec![(b"VP8 ", vec![0; 8])], Some((false, false))),
        ("still-lossless", vec![(b"VP8L", vec![0; 8])], Some((true, false))),
        (
            "extended-lossy",
            vec![(b"VP8X", vp8x(0x24)), (b"ICCP", vec![0; 11]), (b"VP8 ", vec![0; 8])],
            Some((false, false)),
        ),
        (
            "extended-alpha",
            vec![(b"VP8X", vp8x(0x10)), (b"ALPH", vec![0; 3]), (b"VP8 ", vec![0; 8])],
            Some((false, true)),
        ),
        (
            "extended-lossless",
            vec![(b"VP8X", vp8x(0)), (b"VP8L", vec![0; 8])],
            Some((true, false)),
        ),
        ("animated", vec![(b"VP8X", vp8x(0x02)), (b"ANIM", vec![0; 6])], None),
        ("no-magic", vec![], None),
    ];
    for (name, chunks, expected) in cases {
        let expected =
            expected.map(|(lossless, has_alpha)| BitstreamHeader { lossless, has_alpha });
        assert_eq!(bitstream_header(&riff(&chunks)), expected, "{name}");
    }
}

#[test]
fn a_truncated_container_has_no_coding() {
    let full = riff(&[(b"VP8 ", vec![0; 8])]);
    for length in 0..=full.len() {
        let header = bitstream_header(&full[..length]);
        if length == full.len() {
            assert!(header.is_some());
        } else {
            assert_eq!(header, None, "a cut at {length} bytes claims a coding");
        }
    }
}

#[test]
fn only_lossy_files_without_alpha_decode_to_yuv() {
    let lossy = bitstream_header(&riff(&[(b"VP8 ", vec![0; 8])]));
    assert_eq!(
        output_format("format-lossy.webp", ColorType::Rgb8, lossy),
        Some(PixelFormat::Yuv420P8)
    );
    assert_eq!(output_format("format-lossy.webp", ColorType::Rgba8, lossy), None);
    assert_eq!(output_format("format-lossy.png", ColorType::Rgb8, lossy), None);

    let lossless = bitstream_header(&riff(&[(b"VP8L", vec![0; 8])]));
    assert_eq!(output_format("format-lossless.webp", ColorType::Rgb8, lossless), None);

    let alpha = bitstream_header(&riff(&[(b"VP8X", vp8x(0x10)), (b"VP8 ", vec![0; 8])]));
    assert_eq!(output_format("format-alpha.webp", ColorType::Rgb8, alpha), None);
    assert_eq!(output_format("broken.webp", ColorType::Rgb8, None), None);
}

#[test]
fn a_size_that_changed_after_probing_is_reported() {
    let stale = info("page.webp", ColorType::Rgb8, 4, 2);
    assert!(check_size(&stale, Some((4, 2))).is_ok());
    let error = check_size(&stale, Some((3, 2))).expect_err("a stale probe to be caught");
    assert_eq!(
        error.message(),
        "image 'page.webp' changed after probing (was 4x2, now 3x2)"
    );
}

#[test]
fn a_file_that_is_not_a_bitstream_is_reported() {
    let probed = info("broken.webp", ColorType::Rgb8, 3, 2);
    let error = check_size(&probed, None).expect_err("an error");
    assert_eq!(
        error.message(),
        "failed to decode image 'broken.webp': libwebp did not recognise the bitstream"
    );
    assert_eq!(
        rejected(&probed).message(),
        "failed to decode image 'broken.webp': libwebp rejected the bitstream"
    );
}

#[test]
fn the_buffers_follow_the_size_and_the_layout() {
    let plan = rgb_plan(&info("a.webp", ColorType::Rgba8, 3, 2)).unwrap();
    assert_eq!((plan.layout, plan.stride, plan.size), (WebpLayout::Rgba, 12, 24));
    let wide = rgb_plan(&info("a.webp", ColorType::Rgb8, u32::MAX, 2))
        .expect_err("a row wider than libwebp takes");
    assert_eq!(wide.message(), "image 'a.webp' is too wide for libwebp");
    assert_eq!(stride_of(9, &info("a.webp", ColorType::Rgb8, 3, 2)).unwrap(), 9);

    let (luma, blue, red) = yuv_plan(&info("a.webp", ColorType::Rgb8, 3, 3)).unwrap();
    assert_eq!((luma.stride, luma.size), (3, 9));
    assert_eq!((blue.stride, blue.size), (2, 4));
    assert_eq!((red.stride, red.size), (2, 4));
    assert!(yuv_plan(&info("a.webp", ColorType::Rgb8, u32::MAX, 1)).is_err());

    let rgb = info("a.webp", ColorType::Rgb8, 3, 3);
    assert_eq!(
        pixels_plan(&rgb).unwrap(),
        WebpPlan::Rgb(rgb_plan(&rgb).unwrap()),
        "an rgb format is decoded into one buffer"
    );
    let yuv = ImageInfo { format: PixelFormat::Yuv420P8, ..rgb };
    assert_eq!(
        pixels_plan(&yuv).unwrap(),
        WebpPlan::Yuv(luma, blue, red),
        "a yuv format is decoded into its planes"
    );
    let gray = info("a.webp", ColorType::L8, 3, 3);
    assert!(pixels_plan(&gray).is_err());
}

#[test]
fn a_walk_of_the_chunk_headers_finds_the_coding() {
    let file = riff(&[(b"VP8X", vp8x(0x10)), (b"ICCP", vec![0; 11]), (b"VP8L", vec![0; 8])]);
    let length = file.len() as u64;
    let walk = ChunkWalk::new();
    assert_eq!((walk.at, walk.has_alpha), (12, false));
    assert_eq!(walk.step(&file[12..20], length), WalkStep::Flags);
    let walk = walk.with_flags(file[20]);
    assert_eq!((walk.at, walk.has_alpha), (30, true));
    let walk = match walk.step(&file[30..38], length) {
        WalkStep::Next(walk) => walk,
        other => panic!("a profile is passed over, got {other:?}"),
    };
    assert_eq!((walk.at, walk.has_alpha), (50, true));
    let header = BitstreamHeader { lossless: true, has_alpha: true };
    assert_eq!(walk.step(&file[50..58], length), WalkStep::Coding(header));
    assert_eq!(walk.step(&file[50..58], length - 1), WalkStep::Stop);
    assert_eq!(bitstream_header(&file), Some(header));
    let alpha = riff(&[(b"ALPH", vec![0; 3]), (b"VP8 ", vec![0; 8])]);
    assert_eq!(
        ChunkWalk::new().step(&alpha[12..20], alpha.len() as u64),
        WalkStep::Next(ChunkWalk { at: 24, has_alpha: true })
    );
}
