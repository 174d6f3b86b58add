//! Tests for hex color parsing.

use meeting_engine::parse_hex_color;

#[test]
fn test_parse_hex_color_with_hash() {
    let (r, g, b) = parse_hex_color("#62a0ea").unwrap();
    assert_eq!(r, 0x62);
    assert_eq!(g, 0xa0);
    assert_eq!(b, 0xea);
}

#[test]
fn test_parse_hex_color_without_hash() {
    let (r, g, b) = parse_hex_color("ff0000").unwrap();
    assert_eq!(r, 0xff);
    assert_eq!(g, 0x00);
    assert_eq!(b, 0x00);
}

#[test]
fn test_parse_hex_color_invalid_length() {
    assert!(parse_hex_color("#fff").is_none());
    assert!(parse_hex_color("#fffffff").is_none());
    assert!(parse_hex_color("").is_none());
}

#[test]
fn test_parse_hex_color_invalid_chars() {
    assert!(parse_hex_color("#gggggg").is_none());
    assert!(parse_hex_color("#zzzzzz").is_none());
}

#[test]
fn test_parse_hex_color_uppercase() {
    let (r, g, b) = parse_hex_color("#62A0EA").unwrap();
    assert_eq!((r, g, b), (0x62, 0xa0, 0xea));
}
