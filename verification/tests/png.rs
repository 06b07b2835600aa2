use imgseqs::formats::png::{
    cicp, cicp_chunk, cicp_from, has_png_extension, CHUNK_LIMIT, CRC_LENGTH,
};

const SIGNATURE: [u8; 8] = [0x89, 0x50, 0x4e, 0x47, 0x0d, 0x0a, 0x1a, 0x0a];

/// A png signature, then `chunks`, each `(kind, payload)`.
fn file(chunks: &[(&[u8; 4], &[u8])]) -> Vec<u8> {
    let mut file = SIGNATURE.to_vec();
    for (kind, payload) in chunks {
        file.extend_from_slice(&u32::try_from(payload.len()).expect("chunk size").to_be_bytes());
        file.extend_from_slice(*kind);
        file.extend_from_slice(payload);
        file.extend_from_slice(&[0; CRC_LENGTH]);
    }
    file
}

#[test]
fn a_cicp_chunk_states_the_colour() {
    let bytes = file(&[(b"cICP", &[9, 18, 0, 1])]);
    let cicp = cicp_from(&bytes[..]).expect("a stated colour");
    assert_eq!(cicp.primaries, 9);
    assert_eq!(cicp.transfer, 18);
    assert_eq!(cicp.matrix, 0);
    assert!(cicp.full_range);
}

#[test]
fn the_full_range_flag_is_a_byte_not_a_bit() {
    for (flags, full_range) in [(0u8, false), (1, true)] {
        let bytes = file(&[(b"cICP", &[1, 1, 0, flags])]);
        assert_eq!(
            cicp_from(&bytes[..]).expect("a stated colour").full_range,
            full_range,
            "flag {flags}"
        );
    }
    let bytes = file(&[(b"cICP", &[9, 10, 0, 0x80])]);
    assert!(cicp_from(&bytes[..]).expect("a stated colour").full_range);
}

#[test]
fn chunks_before_the_cicp_chunk_are_skipped() {
    let bytes = file(&[(b"IHDR", &[0; 13]), (b"sRGB", &[0]), (b"cICP", &[1, 13, 0, 1])]);
    assert!(cicp_from(&bytes[..]).is_some());
}

#[test]
fn a_png_without_a_cicp_chunk_states_nothing() {
    let bytes = file(&[(b"IHDR", &[0; 13]), (b"IDAT", &[0; 4])]);
    assert!(cicp_from(&bytes[..]).is_none());
}

#[test]
fn a_cicp_chunk_after_the_image_data_states_nothing() {
    let bytes = file(&[(b"IHDR", &[0; 13]), (b"IDAT", &[0; 4])]);
    let mut with_trailing = bytes.clone();
    with_trailing.extend_from_slice(&file(&[(b"cICP", &[1, 13, 0, 1])])[8..]);
    assert!(cicp_from(&with_trailing[..]).is_none());
}

#[test]
fn a_file_that_is_not_a_png_states_nothing() {
    let mut bytes = b"GIF89a".to_vec();
    bytes.extend_from_slice(&[0; 64]);
    assert!(cicp_from(&bytes[..]).is_none());
}

#[test]
fn a_short_cicp_chunk_states_nothing() {
    let bytes = file(&[(b"cICP", &[1, 13, 0])]);
    assert!(cicp_from(&bytes[..]).is_none());
}

#[test]
fn a_truncated_chunk_states_nothing() {
    let bytes = file(&[(b"IHDR", &[0; 13])]);
    let truncated = &bytes[..bytes.len() - CRC_LENGTH];
    assert!(cicp_from(truncated).is_none());
}

#[test]
fn only_png_extensions_are_read() {
    for path in ["a.png", "b.PNG"] {
        assert!(has_png_extension(path), "{path}");
    }
    for path in ["a.jpg", "b.apng", "c", "d.pngx"] {
        assert!(!has_png_extension(path), "{path}");
    }
}

#[test]
fn a_path_that_is_no_png_states_nothing() {
    let bytes = file(&[(b"cICP", &[9, 18, 0, 1])]);
    assert!(cicp("page.png", &bytes).is_some());
    assert!(cicp("page.jpg", &bytes).is_none());
    assert!(cicp("page.png", &[]).is_none());
}

#[test]
fn a_chunk_past_the_limit_is_not_read() {
    let padding = vec![0; CHUNK_LIMIT];
    let bytes = file(&[(b"tEXt", &padding), (b"cICP", &[9, 18, 0, 1])]);
    assert!(cicp_from(&bytes).is_none());
    let padding = vec![0; CHUNK_LIMIT - 8 - 12 - 16];
    let bytes = file(&[(b"tEXt", &padding), (b"cICP", &[9, 18, 0, 1])]);
    assert!(cicp_from(&bytes).is_some());
    let padding = vec![0; CHUNK_LIMIT - 8 - 12 - 15];
    let bytes = file(&[(b"tEXt", &padding), (b"cICP", &[9, 18, 0, 1])]);
    assert!(cicp_from(&bytes).is_none());
}

#[test]
fn a_payload_of_four_bytes_is_a_colour() {
    assert!(cicp_chunk(&[1, 13, 0]).is_none());
    assert_eq!(cicp_chunk(&[1, 13, 0, 0, 9]).map(|color| color.transfer), Some(13));
}
