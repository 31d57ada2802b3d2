use apple2_core::apple2::Apple2;

#[test]
fn lowercase_folds_to_uppercase() {
    assert_eq!(Apple2::map_key(b'a', false, false), Some(0xC1));
    assert_eq!(Apple2::map_key(b'z', false, false), Some(0xDA));
    assert_eq!(Apple2::map_key(b'A', false, false), Some(0xC1));
}

#[test]
fn shifted_digits_and_punctuation() {
    assert_eq!(Apple2::get_shift_ascii(b'1'), b'!');
    assert_eq!(Apple2::get_shift_ascii(b'2'), b'@');
    assert_eq!(Apple2::get_shift_ascii(b'3'), b'#');
    assert_eq!(Apple2::get_shift_ascii(b'4'), b'$');
    assert_eq!(Apple2::get_shift_ascii(b'5'), b'%');
    assert_eq!(Apple2::get_shift_ascii(b'6'), b'^');
    assert_eq!(Apple2::get_shift_ascii(b'7'), b'&');
    assert_eq!(Apple2::get_shift_ascii(b'8'), b'*');
    assert_eq!(Apple2::get_shift_ascii(b'9'), b'(');
    assert_eq!(Apple2::get_shift_ascii(b'0'), b')');
    assert_eq!(Apple2::get_shift_ascii(b'-'), b'_');
    assert_eq!(Apple2::get_shift_ascii(b'='), b'+');
    assert_eq!(Apple2::get_shift_ascii(b';'), b':');
    assert_eq!(Apple2::get_shift_ascii(b'\''), b'"');
    assert_eq!(Apple2::get_shift_ascii(b','), b'<');
    assert_eq!(Apple2::get_shift_ascii(b'.'), b'>');
    assert_eq!(Apple2::get_shift_ascii(b'/'), b'?');
    assert_eq!(Apple2::get_shift_ascii(b'q'), b'q');
    assert_eq!(Apple2::map_key(b'1', true, false), Some(b'!' | 0x80));
}

#[test]
fn shifted_brackets_are_not_apple_keys() {
    // Shift turns [ into {, which the keyboard cannot produce.
    assert_eq!(Apple2::map_key(b'[', true, false), None);
    assert_eq!(Apple2::map_key(b'[', false, false), Some(0xDB));
}

#[test]
fn control_clears_bit_six_of_letters() {
    assert_eq!(Apple2::get_ctrl_ascii(b'A'), 0x01);
    assert_eq!(Apple2::get_ctrl_ascii(b'Z'), 0x1A);
    assert_eq!(Apple2::get_ctrl_ascii(b'1'), b'1');
    assert_eq!(Apple2::map_key(b'c', false, true), Some(0x83));
}

#[test]
fn valid_key_range() {
    assert!(Apple2::is_valid_key(b' '));
    assert!(Apple2::is_valid_key(b'^'));
    assert!(Apple2::is_valid_key(b'_'));
    assert!(Apple2::is_valid_key(8));
    assert!(Apple2::is_valid_key(13));
    assert!(!Apple2::is_valid_key(9));
    assert!(!Apple2::is_valid_key(b'`'));
    assert!(!Apple2::is_valid_key(0x7F));
}

#[test]
fn rejected_keys_map_to_nothing() {
    assert_eq!(Apple2::map_key(9, false, false), None);
    assert_eq!(Apple2::map_key(0x1B, false, false), None);
}
