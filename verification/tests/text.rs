use imgseqs::bytes::{get_be16, get_be32, get_be64, get_sized, get_u8};
use imgseqs::error::ImgSeqError;
use imgseqs::formats::bits::Bits;
use imgseqs::formats::rows::pack_rows;
use imgseqs::frame::{Properties, PropertyValue};
use imgseqs::text::{decimal, decimal_signed, eq_ignore_case, eq_text, path_has_extension};

#[test]
fn numbers_are_written_in_decimal() {
    assert_eq!(decimal(0), "0");
    assert_eq!(decimal(u64::MAX), u64::MAX.to_string());
    assert_eq!(decimal_signed(-1024), "-1024");
    assert_eq!(decimal_signed(i64::MIN), i64::MIN.to_string());
}

#[test]
fn an_extension_is_found_where_the_file_name_ends() {
    assert!(path_has_extension("a.png", "png"));
    assert!(path_has_extension("dir.x/a.b.PnG", "png"));
    assert!(!path_has_extension("dir.png/a", "png"));
    assert!(!path_has_extension(".png", "png"));
    assert!(!path_has_extension("a.png.", "png"));
    assert!(path_has_extension("I:\\images\\page 01.PNG", "png"));
    assert!(path_has_extension("I:page.png", "png"));
    assert!(!path_has_extension("I:\\images.png\\page", "png"));
    assert!(path_has_extension("\\\\nas\\scans\\page 01.PNG", "png"));
    assert!(path_has_extension("//nas/scans/a/page.png", "png"));
    assert!(!path_has_extension("\\\\nas\\scans.png\\page", "png"));
    assert!(!path_has_extension("a/..", "png"));
    assert!(path_has_extension("a/b.png/.", "png"));
    assert!(eq_ignore_case("HeIc", "heic"));
    assert!(!eq_ignore_case("heic", "heif"));
    assert!(eq_text("a", "a"));
    assert!(!eq_text("a", "A"));
}

#[test]
fn an_error_never_carries_a_nul() {
    assert_eq!(ImgSeqError::from_display("plain").message(), "plain");
    let replaced = ImgSeqError::new("a\0b".to_string()).message();
    assert!(!replaced.contains('\0'), "{replaced:?}");
}

#[test]
fn numbers_are_read_big_endian_where_there_are_enough_bytes() {
    let data = [1, 2, 3, 4, 5, 6, 7, 8];
    assert_eq!(get_u8(&data, 7), Some(8));
    assert_eq!(get_u8(&data, 8), None);
    assert_eq!(get_be16(&data, 6), Some(0x0708));
    assert_eq!(get_be16(&data, 7), None);
    assert_eq!(get_be32(&data, 4), Some(0x0506_0708));
    assert_eq!(get_be32(&data, usize::MAX), None);
    assert_eq!(get_be64(&data, 0), Some(0x0102_0304_0506_0708));
    assert_eq!(get_be64(&data, 1), None);
    assert_eq!(get_sized(&data, 1, 2), Some(0x0203));
    assert_eq!(get_sized(&data, 1, 0), Some(0));
}

#[test]
fn bits_are_read_from_the_top() {
    let data = [0b1010_0001, 0xff];
    let mut bits = Bits::new(&data);
    assert_eq!(bits.bit(), Some(1));
    assert_eq!(bits.bits(3), Some(0b010));
    assert_eq!(bits.skip(4), Some(()));
    assert_eq!(bits.bits(8), Some(0xff));
    assert_eq!(bits.bit(), None);
    let mut short = Bits::new(&data);
    assert_eq!((short.skip(12), short.at), (Some(()), 12));
    assert_eq!((short.bits(5), short.at), (None, 16));
    assert_eq!((short.skip(3), short.at), (None, 19));
    assert_eq!((short.bit(), short.bits(0), short.at), (None, Some(0), 19));
    let mut zeros = Bits::new(&[0; 5]);
    assert_eq!((zeros.uvlc(), zeros.at), (None, 33));
    assert_eq!((zeros.uvlc(), zeros.at), (None, 40));
    let data = [0b0001_0100];
    assert_eq!(Bits::new(&data).uvlc(), Some(9));
}

#[test]
fn rows_lose_their_padding() {
    assert_eq!(pack_rows(2, 3, 2, &[1, 2, 9, 3, 4]), Some(vec![1, 2, 3, 4]));
    assert_eq!(pack_rows(2, 3, 2, &[1, 2, 9, 3]), None);
}

#[test]
fn a_property_set_again_is_replaced() {
    let mut properties = Properties::new();
    properties.set("a", PropertyValue::Int(1));
    properties.set("b", PropertyValue::Int(2));
    properties.set("a", PropertyValue::Int(3));
    assert!(matches!(properties.get("a"), Some(PropertyValue::Int(3))));
    assert!(matches!(properties.get("b"), Some(PropertyValue::Int(2))));
    assert!(properties.get("c").is_none());
}
