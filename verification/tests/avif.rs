use imgseqs::color::{usable_matrix, Cicp, UNSPECIFIED};
use imgseqs::decoder::ImageInfo;
use imgseqs::formats::av1::{leb128, sequence_header_cicp};
use imgseqs::formats::avif::{
    av1_bit_depth, handles, has_avif_brand, has_avif_extension, image_info, nclx_cicp,
    output_format, probe_boxes, yuv_format, AvifHeader,
};
use imgseqs::formats::avif_decode::{
    buffer_sizes, check_picture, copy_alpha, decode, expected_layout, nominal_depth, CodedPicture, CodedPlane,
    PixelLayout,
};
use imgseqs::formats::boxes::{leading_box, leading_header_bytes, LeadingBox};
use imgseqs::formats::items::{read_iloc, read_ipma, read_references};
use imgseqs::formats::meta::Meta;
use imgseqs::image_types::{ColorType, Orientation};
use imgseqs::pixel::{alpha_channel, PixelFormat, Transform};

/// The type name of an auxiliary item that holds an alpha plane.
const ALPHA_AUX_TYPE: &[u8] = b"urn:mpeg:mpegB:cicp:systems:auxiliary:alpha\0";

fn info(path: &str, format: PixelFormat, color_type: ColorType) -> ImageInfo {
    ImageInfo {
        path: path.to_string(),
        width: 64,
        height: 48,
        color_type,
        original_color_type: "Rgb8".to_string(),
        has_icc_profile: false,
        icc_profile: None,
        cicp: None,
        chroma_location: None,
        orientation: Orientation::NoTransforms,
        transform: Transform::identity(),
        format,
    }
}

/// A box whose contents are `payload`.
fn boxed(kind: &[u8; 4], payload: &[u8]) -> Vec<u8> {
    let mut bytes = Vec::with_capacity(8 + payload.len());
    bytes.extend_from_slice(&u32::try_from(8 + payload.len()).unwrap().to_be_bytes());
    bytes.extend_from_slice(kind);
    bytes.extend_from_slice(payload);
    bytes
}

fn ispe(width: u32, height: u32) -> Vec<u8> {
    let mut payload = vec![0; 4];
    payload.extend_from_slice(&width.to_be_bytes());
    payload.extend_from_slice(&height.to_be_bytes());
    payload
}

/// The coding record of an item whose `av1C` flags byte is `flags`.
fn av1c(flags: u8) -> Vec<u8> {
    vec![0x81, 0x10, flags, 0, 0, 0, 0]
}

/// An `nclx` colour box payload.
fn nclx(primaries: u8, transfer: u8, matrix: u8, full_range: bool) -> Vec<u8> {
    let mut payload = b"nclx".to_vec();
    for code in [primaries, transfer, matrix] {
        payload.extend_from_slice(&u16::from(code).to_be_bytes());
    }
    payload.push(if full_range { 0x80 } else { 0x00 });
    payload
}

/// The properties every container in these tests states: a size, a coding record
/// for 4:2:0 eight bit samples, and bt.601 full range codes.
fn properties() -> Vec<(&'static [u8; 4], Vec<u8>)> {
    vec![
        (b"ispe", ispe(3, 2)),
        (b"av1C", av1c(0x0c)),
        (b"colr", nclx(1, 13, 6, true)),
    ]
}

/// A file type box with `major` as its major brand and `compatible` beside it.
fn ftyp(major: &[u8; 4], compatible: &[&[u8; 4]]) -> Vec<u8> {
    let mut payload = major.to_vec();
    payload.extend_from_slice(&0u32.to_be_bytes());
    for brand in compatible {
        payload.extend_from_slice(*brand);
    }
    boxed(b"ftyp", &payload)
}

/// The leading boxes of an avif whose primary item is described by `properties`,
/// with the references and the auxiliary item given.
fn container(
    properties: &[(&[u8; 4], Vec<u8>)],
    references: &[(&[u8; 4], u16, u16)],
    aux: Option<&[u8]>,
) -> Vec<u8> {
    let mut ipco = Vec::new();
    for (kind, payload) in properties {
        ipco.extend_from_slice(&boxed(kind, payload));
    }
    let mut ipma = vec![0; 4];
    ipma.extend_from_slice(&u32::from(if aux.is_some() { 2u16 } else { 1u16 }).to_be_bytes());
    ipma.extend_from_slice(&1u16.to_be_bytes());
    ipma.push(u8::try_from(properties.len()).unwrap());
    for index in 1..=properties.len() {
        ipma.push(u8::try_from(index).unwrap() | 0x80);
    }
    if let Some(aux) = aux {
        ipco.extend_from_slice(&boxed(b"auxC", aux));
        ipma.extend_from_slice(&2u16.to_be_bytes());
        ipma.push(1);
        ipma.push(u8::try_from(properties.len() + 1).unwrap() | 0x80);
    }
    let items = if aux.is_some() { 2 } else { 1 };
    let mut iloc = vec![0, 0, 0, 0, 0x44, 0x40];
    iloc.extend_from_slice(&u16::try_from(items).unwrap().to_be_bytes());
    for item in 1..=items {
        iloc.extend_from_slice(&u16::try_from(item).unwrap().to_be_bytes());
        iloc.extend_from_slice(&0u16.to_be_bytes());
        iloc.extend_from_slice(&0u32.to_be_bytes());
        iloc.extend_from_slice(&1u16.to_be_bytes());
        iloc.extend_from_slice(&0u32.to_be_bytes());
        iloc.extend_from_slice(&8u32.to_be_bytes());
    }
    let mut meta = vec![0; 4];
    meta.extend_from_slice(&boxed(b"pitm", &[0, 0, 0, 0, 0, 1]));
    if !references.is_empty() {
        let mut body = vec![0; 4];
        for (kind, from, to) in references {
            let mut reference = Vec::new();
            reference.extend_from_slice(&from.to_be_bytes());
            reference.extend_from_slice(&1u16.to_be_bytes());
            reference.extend_from_slice(&to.to_be_bytes());
            body.extend_from_slice(&boxed(kind, &reference));
        }
        meta.extend_from_slice(&boxed(b"iref", &body));
    }
    meta.extend_from_slice(&boxed(
        b"iprp",
        &[boxed(b"ipco", &ipco), boxed(b"ipma", &ipma)].concat(),
    ));
    meta.extend_from_slice(&boxed(b"iloc", &iloc));
    let mut file = ftyp(b"avif", &[b"mif1", b"miaf"]);
    file.extend_from_slice(&boxed(b"meta", &meta));
    file
}

/// A writer of the bits of a sequence header.
struct BitWriter {
    bits: Vec<bool>,
}

impl BitWriter {
    fn new() -> Self {
        Self { bits: Vec::new() }
    }

    fn put(&mut self, value: u32, count: usize) -> &mut Self {
        for shift in (0..count).rev() {
            self.bits.push((value >> shift) & 1 == 1);
        }
        self
    }

    fn bytes(&self) -> Vec<u8> {
        let mut bytes = vec![0; self.bits.len().div_ceil(8)];
        for (index, bit) in self.bits.iter().enumerate() {
            if *bit {
                bytes[index / 8] |= 0x80 >> (index % 8);
            }
        }
        bytes
    }
}

/// The bits up to `color_config()` of a still picture header of the reduced
/// shape, three samples wide, two tall, with the ten bit colour codes `described`
/// states.
fn reduced_header(described: bool) -> Vec<u8> {
    let mut header = BitWriter::new();
    header.put(0, 3); // seq_profile
    header.put(1, 1); // still_picture
    header.put(1, 1); // reduced_still_picture_header
    header.put(0, 5); // operating_points_cnt_minus_1
    header.put(3, 4).put(3, 4); // frame width and height bits
    header.put(2, 4).put(1, 4); // three wide, two tall
    header.put(0, 1).put(0, 1).put(0, 1); // superblock, filter intra, edge
    header.put(0, 1).put(1, 1).put(1, 1); // superres, cdef, restoration
    header.put(1, 1); // high_bitdepth
    header.put(0, 1); // monochrome
    header.put(u32::from(described), 1);
    if described {
        header.put(1, 8).put(13, 8).put(6, 8);
    }
    header.put(1, 1); // color_range
    header.bytes()
}

/// The bits up to `color_config()` of a header of the longer shape, with a timing
/// record absent, one operating point, frame ids, an order hint and screen
/// content tools, and limited range codes.
fn longer_header() -> Vec<u8> {
    let mut header = BitWriter::new();
    header.put(0, 3).put(1, 1).put(0, 1); // profile, still picture, not reduced
    header.put(0, 1); // timing_info_present_flag
    header.put(0, 1); // decoder_model_info_present_flag
    header.put(1, 1); // initial_display_delay_present_flag
    header.put(0, 5); // operating_points_cnt_minus_1
    header.put(0, 12); // operating_point_idc
    header.put(8, 5).put(0, 1); // seq_level_idx, which is past seven
    header.put(1, 1).put(2, 4); // initial display delay
    header.put(3, 4).put(3, 4);
    header.put(2, 4).put(1, 4); // three wide, two tall
    header.put(1, 1); // frame_id_numbers_present_flag
    header.put(0, 4).put(0, 3); // the two frame id lengths
    header.put(0, 1).put(0, 1).put(0, 1); // superblock, filter intra, edge
    header.put(0, 1).put(0, 1).put(0, 1).put(0, 1); // the four compound tools
    header.put(1, 1); // enable_order_hint
    header.put(0, 1).put(0, 1); // joint compound, ref frame mvs
    header.put(1, 1); // seq_choose_screen_content_tools
    header.put(0, 1); // seq_choose_integer_mv
    header.put(0, 1); // seq_force_integer_mv, which a chosen zero states too
    header.put(2, 3); // order_hint_bits_minus_1
    header.put(0, 1).put(1, 1).put(1, 1); // superres, cdef, restoration
    header.put(1, 1); // high_bitdepth
    header.put(0, 1); // monochrome
    header.put(1, 1); // color_description_present_flag
    header.put(1, 8).put(13, 8).put(6, 8);
    header.put(0, 1); // color_range
    header.bytes()
}

/// The payload of an item that starts with one sequence header box.
fn with_sequence_header(header: &[u8]) -> Vec<u8> {
    let mut payload = vec![(1 << 3) | 0x02];
    payload.push(u8::try_from(header.len()).unwrap());
    payload.extend_from_slice(header);
    payload
}

#[test]
fn only_avif_extensions_are_taken_over() {
    for path in ["a.avif", "b.AVIF", "c.AvIf"] {
        assert!(has_avif_extension(path), "{path}");
    }
    for path in ["a.heic", "b.png", "c.avifx", "d"] {
        assert!(!has_avif_extension(path), "{path}");
    }
}

#[test]
fn handles_needs_an_avif_extension_and_a_yuv_probe() {
    assert!(handles(&info("a.avif", PixelFormat::Yuv420P8, ColorType::Rgb8)));
    assert!(handles(&info("a.avif", PixelFormat::Yuv444P12, ColorType::Rgb16)));
    assert!(!handles(&info("a.avif", PixelFormat::Rgb8, ColorType::Rgb8)));
    assert!(!handles(&info("a.avif", PixelFormat::Gray8, ColorType::L8)));
    assert!(!handles(&info("a.heic", PixelFormat::Yuv420P8, ColorType::Rgb8)));
}

#[test]
fn the_subsampling_of_a_coding_record_maps_onto_a_format() {
    assert_eq!(yuv_format(2, 8), Some(PixelFormat::Yuv420P8));
    assert_eq!(yuv_format(1, 8), Some(PixelFormat::Yuv422P8));
    assert_eq!(yuv_format(0, 8), Some(PixelFormat::Yuv444P8));
    assert_eq!(yuv_format(2, 10), Some(PixelFormat::Yuv420P10));
    assert_eq!(yuv_format(1, 10), Some(PixelFormat::Yuv422P10));
    assert_eq!(yuv_format(0, 10), Some(PixelFormat::Yuv444P10));
    assert_eq!(yuv_format(0, 12), Some(PixelFormat::Yuv444P12));
    assert_eq!(yuv_format(2, 12), None);
    assert_eq!(yuv_format(1, 12), None);
    assert_eq!(yuv_format(0, 16), None);
}

#[test]
fn avif_a_matrix_the_properties_cannot_name_is_not_handed_out_as_yuv() {
    assert!(usable_matrix(1));
    assert!(usable_matrix(6));
    assert!(!usable_matrix(0));
    assert!(!usable_matrix(UNSPECIFIED));
}

#[test]
fn a_coding_record_states_its_depth() {
    assert_eq!(av1_bit_depth(0x0c), 8);
    assert_eq!(av1_bit_depth(0x4c), 10);
    assert_eq!(av1_bit_depth(0x6c), 12);
    assert_eq!(av1_bit_depth(0x2c), 8);
}

#[test]
fn a_colour_box_states_the_codes_it_holds() {
    assert_eq!(
        nclx_cicp(&nclx(1, 13, 6, true)),
        Some(Cicp { primaries: 1, transfer: 13, matrix: 6, full_range: true })
    );
    assert_eq!(
        nclx_cicp(&nclx(9, 18, 0, false)),
        Some(Cicp { primaries: 9, transfer: 18, matrix: 0, full_range: false })
    );
    assert_eq!(nclx_cicp(b"prof\0\0\0\0\0\0\0\0"), None);
    let mut wide = nclx(1, 13, 6, true);
    wide[8..10].copy_from_slice(&256u16.to_be_bytes());
    assert_eq!(nclx_cicp(&wide), None);
}

#[test]
fn a_sequence_header_states_the_colour_of_the_bitstream() {
    let payload = with_sequence_header(&reduced_header(true));
    assert_eq!(
        sequence_header_cicp(&payload),
        Some(Cicp { primaries: 1, transfer: 13, matrix: 6, full_range: true })
    );
}

#[test]
fn a_sequence_header_of_the_longer_shape_is_read_too() {
    let payload = with_sequence_header(&longer_header());
    assert_eq!(
        sequence_header_cicp(&payload),
        Some(Cicp { primaries: 1, transfer: 13, matrix: 6, full_range: false })
    );
}

#[test]
fn a_sequence_header_without_colour_codes_states_none() {
    let payload = with_sequence_header(&reduced_header(false));
    assert_eq!(
        sequence_header_cicp(&payload),
        Some(Cicp {
            primaries: UNSPECIFIED,
            transfer: UNSPECIFIED,
            matrix: UNSPECIFIED,
            full_range: true,
        })
    );
}

#[test]
fn a_payload_without_a_sequence_header_states_nothing() {
    assert_eq!(sequence_header_cicp(&[0x12, 0x00]), None);
    assert_eq!(sequence_header_cicp(&[]), None);
}

#[test]
fn a_file_type_without_the_avif_brand_is_left_alone() {
    assert!(has_avif_brand(&container(&properties(), &[], None)));
    let mut listed = ftyp(b"mif1", &[b"mif1", b"avif"]);
    listed.extend_from_slice(&boxed(b"meta", &[0; 4]));
    assert!(has_avif_brand(&listed));
    let mut heic = ftyp(b"heic", &[b"heic", b"mif1"]);
    heic.extend_from_slice(&boxed(b"meta", &[0; 4]));
    assert!(!has_avif_brand(&heic));
    assert!(!has_avif_brand(&boxed(b"mdat", &[0; 8])));
}

#[test]
fn the_item_boxes_describe_the_primary_item() {
    let boxes = container(&properties(), &[], None);
    let meta = Meta::read(&boxes).expect("the container is walked");
    assert_eq!(meta.primary, 1);
    assert!(!meta.has_alpha());
    assert!(!meta.grid);
    let properties = meta.primary_properties().expect("the item has properties");
    let header = AvifHeader::read(&meta.boxes, &properties).expect("the properties describe it");
    assert_eq!((header.width, header.height), (3, 2));
    assert_eq!(header.depth, 8);
    assert_eq!(header.chroma, 2);
    assert!(!header.monochrome);
    assert_eq!(
        header.cicp,
        Some(Cicp { primaries: 1, transfer: 13, matrix: 6, full_range: true })
    );
    assert_eq!(
        properties
            .iter()
            .map(|property| String::from_utf8(property.kind.to_be_bytes().to_vec()).unwrap())
            .collect::<Vec<_>>(),
        ["ispe", "av1C", "colr"]
    );
    assert_eq!(meta.primary_data(usize::MAX).expect("located"), (0, 8));
}

#[test]
fn an_auxiliary_item_that_names_alpha_describes_its_own_data() {
    let boxes = container(&properties(), &[(b"auxl", 2, 1)], Some(ALPHA_AUX_TYPE));
    let meta = Meta::read(&boxes).expect("the container is walked");
    assert!(meta.has_alpha());
    assert_eq!(meta.alpha_data(usize::MAX).expect("located"), Some((0, 8)));
}

#[test]
fn an_auxiliary_item_that_does_not_name_alpha_is_not_one() {
    let boxes = container(
        &properties(),
        &[(b"auxl", 2, 1)],
        Some(b"urn:mpeg:mpegB:cicp:systems:auxiliary:depth\0"),
    );
    let meta = Meta::read(&boxes).expect("the container is walked");
    assert!(!meta.has_alpha());
    assert_eq!(meta.alpha_data(usize::MAX).expect("nothing to locate"), None);
}

#[test]
fn a_grid_of_tiles_is_not_the_picture_itself() {
    let boxes = container(&properties(), &[(b"dimg", 1, 2)], None);
    let meta = Meta::read(&boxes).expect("the container is walked");
    assert!(meta.grid);
}

#[test]
fn an_item_split_over_several_extents_is_not_read() {
    let boxes = container(&properties(), &[], None);
    let mut meta = Meta::read(&boxes).expect("the container is walked");
    let (item, method, ranges) = meta.extents.pop().expect("one item");
    assert_eq!((item, method), (1, 0));
    meta.extents.push((1, 0, vec![ranges[0], ranges[0]]));
    assert!(meta.primary_data(usize::MAX).is_err());
}

#[test]
fn an_item_written_into_the_item_data_box_is_read_from_there() {
    let mut payload = vec![1, 0, 0, 0, 0x44, 0x40];
    payload.extend_from_slice(&1u16.to_be_bytes());
    payload.extend_from_slice(&1u16.to_be_bytes());
    payload.extend_from_slice(&1u16.to_be_bytes());
    payload.extend_from_slice(&0u16.to_be_bytes());
    payload.extend_from_slice(&16u32.to_be_bytes());
    payload.extend_from_slice(&1u16.to_be_bytes());
    payload.extend_from_slice(&0u32.to_be_bytes());
    payload.extend_from_slice(&4u32.to_be_bytes());
    assert_eq!(read_iloc(&payload), Some(vec![(1, 1, vec![(16, 4)])]));
}

#[test]
fn an_association_table_of_the_wide_shape_is_read() {
    let payload = [0, 0, 0, 1, 0, 0, 0, 1, 0, 1, 1, 0x81, 0x02];
    assert_eq!(read_ipma(&payload), Some(vec![(1, vec![258])]));
    let payload = [1, 0, 0, 0, 0, 0, 0, 1, 0, 0, 0, 2, 2, 3, 0x84];
    assert_eq!(read_ipma(&payload), Some(vec![(2, vec![3, 4])]));
}

#[test]
fn a_container_is_probed_as_the_yuv_it_holds() {
    let boxes = container(&properties(), &[], None);
    let probe = probe_boxes(&boxes).expect("the container describes it");
    let info = image_info("a.avif", &probe, None);
    assert_eq!((info.width, info.height), (3, 2));
    assert_eq!(info.format, PixelFormat::Yuv420P8);
    assert_eq!(info.color_type, ColorType::Rgb8);
    assert!(handles(&info));
    assert_eq!(info.chroma_location, None);
    assert_eq!(info.transform, Transform::identity());
    assert_eq!(info.cicp.map(|color| color.matrix), Some(6));
}

#[test]
fn a_container_without_a_colour_box_is_read_from_its_bitstream() {
    let bare = vec![properties()[0].clone(), properties()[1].clone()];
    let boxes = container(&bare, &[], None);
    let probe = probe_boxes(&boxes).expect("the container describes it");
    let payload = with_sequence_header(&reduced_header(true));
    let info = image_info("a.avif", &probe, Some(&payload));
    assert_eq!(
        info.cicp,
        Some(Cicp { primaries: 1, transfer: 13, matrix: 6, full_range: true })
    );
    assert_eq!(info.format, PixelFormat::Yuv420P8);
    let silent = image_info("a.avif", &probe, None);
    assert_eq!(silent.cicp, None);
    assert_eq!(silent.format, PixelFormat::Rgb8);
}

#[test]
fn a_container_with_an_alpha_item_is_probed_as_the_page_and_its_alpha() {
    let boxes = container(&properties(), &[(b"auxl", 2, 1)], Some(ALPHA_AUX_TYPE));
    let probe = probe_boxes(&boxes).expect("the container describes it");
    let info = image_info("a.avif", &probe, None);
    assert_eq!(info.color_type, ColorType::Rgba8);
    assert_eq!(alpha_channel(info.color_type), Some(3));
    assert_eq!(info.format.alpha_format(), PixelFormat::Gray8);
}

#[test]
fn a_container_that_states_the_identity_keeps_the_rgb_it_holds() {
    let mut stated = properties();
    stated[2].1 = nclx(9, 18, 0, true);
    let probe = probe_boxes(&container(&stated, &[], None)).expect("the container describes it");
    let info = image_info("a.avif", &probe, None);
    assert_eq!(info.format, PixelFormat::Rgb8);
    assert!(!handles(&info));
    assert_eq!(
        info.cicp.map(|color| (color.primaries, color.transfer, color.matrix)),
        Some((9, 18, 0))
    );
}

#[test]
fn a_monochrome_container_keeps_its_gray_format() {
    let mut stated = properties();
    stated[1].1 = av1c(0x1c);
    let boxes = container(&stated, &[(b"auxl", 2, 1)], Some(ALPHA_AUX_TYPE));
    let probe = probe_boxes(&boxes).expect("the container describes it");
    let info = image_info("mono.avif", &probe, None);
    assert_eq!(info.format, PixelFormat::Gray8);
    assert_eq!(info.color_type, ColorType::Rgba8);
    assert_eq!(info.original_color_type, "La8");
    assert!(!handles(&info));
    assert_eq!(
        output_format("mono.avif", ColorType::Rgba8, &boxes),
        Some(PixelFormat::Gray8)
    );
    assert_eq!(output_format("mono.avif", ColorType::La8, &boxes), None);
    assert_eq!(output_format("mono.heic", ColorType::Rgba8, &boxes), None);
    assert_eq!(output_format("a.avif", ColorType::Rgba8, &[]), None);
}

#[test]
fn another_brand_is_not_described_here() {
    let mut other = ftyp(b"heic", &[b"mif1"]);
    other.extend_from_slice(&container(&properties(), &[], None)[24..]);
    assert!(probe_boxes(&other).is_none());
    assert!(probe_boxes(&[]).is_none());
}

#[test]
fn references_name_the_items_they_point_at() {
    let mut payload = vec![0; 4];
    payload.extend_from_slice(&boxed(b"auxl", &[0, 2, 0, 1, 0, 1]));
    assert_eq!(read_references(&payload), Some(vec![(0x6175_786c, 2, vec![1])]));
}

#[test]
fn a_number_of_seven_bit_groups_is_little_endian() {
    assert_eq!(leb128(&[0x05]), Some((5, 1)));
    assert_eq!(leb128(&[0xe5, 0x8e, 0x26]), Some((624485, 3)));
    assert_eq!(leb128(&[0x80]), None);
}

#[test]
fn the_boxes_in_front_of_the_media_data_are_kept() {
    assert_eq!(leading_header_bytes(&[0, 0, 0, 24, b'f', b't', b'y', b'p']), 8);
    assert_eq!(leading_header_bytes(&[0, 0, 0, 1, b'f', b't', b'y', b'p']), 16);
    assert_eq!(
        leading_box(&[0, 0, 0, 24, b'f', b't', b'y', b'p'], 0, 1024),
        LeadingBox::Keep(16)
    );
    assert_eq!(
        leading_box(&[0, 0, 0, 24, b'm', b'd', b'a', b't'], 0, 1024),
        LeadingBox::Ends
    );
    assert_eq!(
        leading_box(&[0, 0, 0, 4, b'f', b't', b'y', b'p'], 0, 1024),
        LeadingBox::Refuse
    );
    assert_eq!(
        leading_box(&[0, 0, 8, 0, b'f', b't', b'y', b'p'], 0, 1024),
        LeadingBox::Refuse
    );
}

#[test]
fn a_decoded_picture_is_packed_plane_by_plane() {
    let page = ImageInfo { width: 2, height: 2, ..info("a.avif", PixelFormat::Yuv420P8, ColorType::Rgb8) };
    let luma = [1, 2, 9, 3, 4, 9];
    let blue = [5, 9];
    let red = [6, 9];
    let picture = CodedPicture {
        width: 2,
        height: 2,
        layout: PixelLayout::I420,
        depth: Some(8),
        planes: vec![
            CodedPlane { stride: 3, data: &luma },
            CodedPlane { stride: 2, data: &blue },
            CodedPlane { stride: 2, data: &red },
        ],
    };
    assert!(check_picture(&picture, &page).is_ok());
    assert_eq!(
        decode(&page, &picture).expect("the planes to be packed"),
        vec![vec![1, 2, 3, 4], vec![5], vec![6]]
    );
    let other = ImageInfo { width: 3, ..info("a.avif", PixelFormat::Yuv420P8, ColorType::Rgb8) };
    assert!(check_picture(&picture, &other).is_err());
    let deep = ImageInfo { width: 2, height: 2, ..info("a.avif", PixelFormat::Yuv420P10, ColorType::Rgb16) };
    assert!(check_picture(&picture, &deep).is_err());
    let single = CodedPicture {
        width: 2,
        height: 2,
        layout: PixelLayout::I400,
        depth: Some(8),
        planes: vec![CodedPlane { stride: 3, data: &luma }],
    };
    assert_eq!(
        decode(&page, &single).expect_err("a monochrome picture").message(),
        "image 'a.avif' is not the YUV420P8 its container describes (coded as I400 Some(8) bit 2x2)"
    );
    let empty = ImageInfo { width: 0, ..info("a.avif", PixelFormat::Yuv420P8, ColorType::Rgb8) };
    assert!(decode(&empty, &picture).is_err());
    let huge = ImageInfo {
        width: u32::MAX,
        height: u32::MAX,
        ..info("a.avif", PixelFormat::Yuv420P10, ColorType::Rgb16)
    };
    assert_eq!(
        decode(&huge, &picture).expect_err("too many bytes").message(),
        if usize::BITS > 32 { "image is too large" } else { "image row is too large" }
    );
    assert_eq!(buffer_sizes(&page).expect("small planes"), (vec![4, 1, 1], None));
    assert_eq!(expected_layout(PixelFormat::Yuv422P10), PixelLayout::I422);
    assert_eq!(nominal_depth(PixelFormat::Yuv444P12), 12);
}

#[test]
fn an_alpha_item_is_packed_on_its_own() {
    let page = ImageInfo { width: 2, height: 2, ..info("a.avif", PixelFormat::Yuv420P8, ColorType::Rgba8) };
    let samples = [1, 2, 0, 3, 4, 0];
    let picture = CodedPicture {
        width: 2,
        height: 2,
        layout: PixelLayout::I400,
        depth: Some(8),
        planes: vec![CodedPlane { stride: 3, data: &samples }],
    };
    assert_eq!(copy_alpha(&page, &picture).expect("an alpha plane"), [1, 2, 3, 4]);
}
