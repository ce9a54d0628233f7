use chat_relay::text::{is_space, trim, u16_to_dec, u8_to_two_dec};

#[test]
fn trim_removes_both_ends() {
    assert_eq!(trim("  hello \n"), "hello");
    assert_eq!(trim("\thi there\r\n"), "hi there");
    assert_eq!(trim("no_space"), "no_space");
}

#[test]
fn trim_of_blank_is_empty() {
    assert_eq!(trim(""), "");
    assert_eq!(trim("   \t\r\n"), "");
    assert_eq!(trim("\u{00A0}\u{2003}"), "");
}

#[test]
fn trim_keeps_inner_whitespace() {
    assert_eq!(trim(" a b "), "a b");
}

#[test]
fn space_chars_match_unicode_whitespace() {
    assert!(is_space(' '));
    assert!(is_space('\t'));
    assert!(is_space('\n'));
    assert!(is_space('\r'));
    assert!(is_space('\u{00A0}'));
    assert!(is_space('\u{3000}'));
    assert!(!is_space('a'));
    assert!(!is_space('0'));
    assert!(!is_space('\u{200B}'));
}

#[test]
fn decimal_rendering_of_ports() {
    assert_eq!(u16_to_dec(0), "0");
    assert_eq!(u16_to_dec(7), "7");
    assert_eq!(u16_to_dec(42), "42");
    assert_eq!(u16_to_dec(8080), "8080");
    assert_eq!(u16_to_dec(65535), "65535");
}

#[test]
fn two_digit_rendering_pads() {
    assert_eq!(u8_to_two_dec(0), "00");
    assert_eq!(u8_to_two_dec(5), "05");
    assert_eq!(u8_to_two_dec(23), "23");
    assert_eq!(u8_to_two_dec(59), "59");
}
