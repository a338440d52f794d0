use dot_image::utf8::{from_utf32, utf32_to_utf8};

#[test]
fn one_byte_values_are_unchanged() {
    assert_eq!(utf32_to_utf8(0), vec![0u8]);
    assert_eq!(utf32_to_utf8(0x41), vec![0x41u8]);
    assert_eq!(utf32_to_utf8(0x7F), vec![0x7Fu8]);
}

#[test]
fn two_byte_values() {
    assert_eq!(utf32_to_utf8(0x80), vec![0xC2u8, 0x80]);
    assert_eq!(utf32_to_utf8(0xE9), vec![0xC3u8, 0xA9]);
    assert_eq!(utf32_to_utf8(0x7FF), vec![0xDFu8, 0xBF]);
}

#[test]
fn three_byte_values() {
    assert_eq!(utf32_to_utf8(0x800), vec![0xE0u8, 0xA0, 0x80]);
    assert_eq!(utf32_to_utf8(0x20AC), vec![0xE2u8, 0x82, 0xAC]);
    assert_eq!(utf32_to_utf8(0xFFFF), vec![0xEFu8, 0xBF, 0xBF]);
}

#[test]
fn four_byte_values() {
    assert_eq!(utf32_to_utf8(0x10000), vec![0xF0u8, 0x90, 0x80, 0x80]);
    assert_eq!(utf32_to_utf8(0x1F600), vec![0xF0u8, 0x9F, 0x98, 0x80]);
    assert_eq!(utf32_to_utf8(0x10FFFF), vec![0xF4u8, 0x8F, 0xBF, 0xBF]);
}

#[test]
fn braille_patterns_are_three_bytes() {
    assert_eq!(utf32_to_utf8(10240), vec![0xE2u8, 0xA0, 0x80]);
    assert_eq!(utf32_to_utf8(10495), vec![0xE2u8, 0xA3, 0xBF]);
}

#[test]
fn values_past_the_last_code_point_have_no_bytes() {
    assert_eq!(utf32_to_utf8(0x110000), Vec::<u8>::new());
    assert_eq!(utf32_to_utf8(u32::MAX), Vec::<u8>::new());
}

#[test]
fn surrogates_are_encoded_in_three_bytes() {
    assert_eq!(utf32_to_utf8(0xD800), vec![0xEDu8, 0xA0, 0x80]);
    assert_eq!(utf32_to_utf8(0xDFFF), vec![0xEDu8, 0xBF, 0xBF]);
}

#[test]
fn length_follows_the_range() {
    let cases: [(u32, usize); 8] = [
        (0, 1),
        (0x7F, 1),
        (0x80, 2),
        (0x7FF, 2),
        (0x800, 3),
        (0xFFFF, 3),
        (0x10000, 4),
        (0x10FFFF, 4),
    ];
    for (value, len) in cases {
        assert_eq!(utf32_to_utf8(value).len(), len);
    }
}

#[test]
fn every_scalar_value_decodes_to_itself() {
    let mut value: u32 = 0;
    while value <= 0x10FFFF {
        if let Some(c) = char::from_u32(value) {
            let bytes = utf32_to_utf8(value);
            let mut buffer = [0u8; 4];
            assert_eq!(bytes.as_slice(), c.encode_utf8(&mut buffer).as_bytes());
            let text = std::str::from_utf8(&bytes).unwrap();
            let mut chars = text.chars();
            assert_eq!(chars.next(), Some(c));
            assert_eq!(chars.next(), None);
        }
        value += 1;
    }
}

#[test]
fn text_of_a_scalar_value_is_its_character() {
    assert_eq!(from_utf32(0x41), "A".to_string());
    assert_eq!(from_utf32(0xE9), "\u{E9}".to_string());
    assert_eq!(from_utf32(10240), "\u{2800}".to_string());
    assert_eq!(from_utf32(10495), "\u{28FF}".to_string());
    assert_eq!(from_utf32(0x1F600), "\u{1F600}".to_string());
}

#[test]
fn text_of_a_value_past_the_last_code_point_is_empty() {
    assert_eq!(from_utf32(0x110000), String::new());
}
