use macho_codec::{map_cstring, map_cstring_bytes, EncodeError, NameField};

#[test]
fn full_field_is_significant_as_a_whole() {
    let field = *b"__text_section16";
    assert_eq!(field.len(), 16);
    let text = map_cstring(&field);
    assert_eq!(text, "__text_section16");
    assert_eq!(text.chars().count(), 16);
    assert!(!text.contains('\0'));
}

#[test]
fn short_field_is_cut_at_the_first_nul() {
    let field = *b"__TEXT\0\0\0\0\0\0\0\0\0\0";
    let text = map_cstring(&field);
    assert_eq!(text, "__TEXT");
    assert_eq!(map_cstring_bytes(&text), Ok(field.to_vec()));
}

#[test]
fn bytes_after_the_first_nul_are_dropped() {
    let field = *b"ab\0cd\0\0\0\0\0\0\0\0\0\0\0";
    assert_eq!(map_cstring(&field), "ab");
}

#[test]
fn empty_input_gives_the_empty_text() {
    assert_eq!(map_cstring(&[]), "");
    assert_eq!(map_cstring(&[0, 0, 0]), "");
}

#[test]
fn invalid_utf8_is_replaced() {
    let field = [b'a', 0xff, b'b', 0, 0, 0, 0, 0, 0, 0, 0, 0, 0, 0, 0, 0];
    assert_eq!(map_cstring(&field), "a\u{fffd}b");
}

#[test]
fn multi_byte_text_is_decoded() {
    let field = [0xc3, 0xa9, b'x', 0, 0, 0, 0, 0, 0, 0, 0, 0, 0, 0, 0, 0];
    let text = map_cstring(&field);
    assert_eq!(text, "\u{e9}x");
    assert_eq!(map_cstring_bytes(&text), Ok(field.to_vec()));
}

#[test]
fn name_is_padded_to_sixteen_bytes() {
    let field = map_cstring_bytes(&String::from("__DATA"));
    assert_eq!(field, Ok(b"__DATA\0\0\0\0\0\0\0\0\0\0".to_vec()));
    assert_eq!(map_cstring_bytes(&String::new()), Ok(vec![0u8; 16]));
}

#[test]
fn name_of_sixteen_bytes_fills_the_field() {
    let field = map_cstring_bytes(&String::from("0123456789abcdef"));
    assert_eq!(field, Ok(b"0123456789abcdef".to_vec()));
}

#[test]
fn longer_name_is_an_error() {
    let too_long = Err(EncodeError::NameTooLong(NameField::SegmentName, 16));
    assert_eq!(map_cstring_bytes(&String::from("0123456789abcdefg")), too_long);
    assert_eq!(map_cstring_bytes(&String::from("0123456789abcdefXYZ")), too_long);
    // the limit counts bytes, not characters
    assert_eq!(map_cstring_bytes(&String::from("\u{e9}123456789abcdef")), too_long);
    assert!(map_cstring_bytes(&String::from("\u{e9}123456789abcde")).is_ok());
}
