use plotter::adsb::{mode_a_to_mode_c, on_message};

#[test]
fn rejects_wrong_length_messages() {
    assert_eq!(on_message(""), None);
    assert_eq!(on_message("*0034;"), None);
    assert_eq!(on_message("*0034;;\n"), None);
    assert_eq!(on_message("x"), None);
    assert_eq!(on_message("xx0034yz"), None);
}

#[test]
fn rejects_must_be_zero_bits() {
    assert_eq!(mode_a_to_mode_c(0x0001), None);
    assert_eq!(mode_a_to_mode_c(0x0008), None);
    assert_eq!(mode_a_to_mode_c(0x8000), None);
    assert_eq!(mode_a_to_mode_c(0x0880), None);
    assert_eq!(mode_a_to_mode_c(0x1_0030), None);
}

#[test]
fn rejects_empty_c_pulse_group() {
    assert_eq!(mode_a_to_mode_c(0x0000), None);
    assert_eq!(mode_a_to_mode_c(0x0600), None);
    assert_eq!(mode_a_to_mode_c(0x7700), None);
}

#[test]
fn golden_codes_decode_to_known_altitudes() {
    // The floor of the encoding, combined value 13, is zero feet.
    assert_eq!(mode_a_to_mode_c(0x0620), Some(0));
    // One step above the floor is one hundred feet.
    assert_eq!(mode_a_to_mode_c(0x0630), Some(1));
    assert_eq!(mode_a_to_mode_c(0x0034), Some(624));
    assert_eq!(mode_a_to_mode_c(0x5124), Some(350));
    assert_eq!(mode_a_to_mode_c(0x1234), Some(324));
}

#[test]
fn rejects_sub_floor_codes() {
    assert_eq!(mode_a_to_mode_c(0x0010), None);
}

#[test]
fn message_hex_digits_decode_to_feet() {
    assert_eq!(on_message("x0034yz"), Some(62400));
    assert_eq!(on_message("*5124;\n"), Some(35000));
    assert_eq!(on_message("x0620yz"), Some(0));
    assert_eq!(on_message("x0630yz"), Some(100));
}

#[test]
fn rejects_messages_with_bad_hex() {
    assert_eq!(on_message("xzz34yz"), None);
    assert_eq!(on_message("x00g4yz"), None);
    assert_eq!(on_message("x +34yz"), None);
}

#[test]
fn hex_letters_parse_but_never_name_a_valid_code() {
    // Every valid altitude code packs its bits below each nibble's 8,
    // so a message whose hex digits include letters always decodes to
    // a defined-invalid code.
    assert_eq!(on_message("x00aByz"), None);
    assert_eq!(on_message("x7FFFyz"), None);
}
