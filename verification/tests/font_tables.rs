use alphanum4::fonts::DOT_BIT;
use alphanum4::fonts::DOT_MASK;
use alphanum4::fonts::ascii_mask;
use alphanum4::fonts::digit_mask;

#[test]
fn known_digit_encodings() {
    // Digit 8 lights the classic seven-segment set, never the dot.
    assert_eq!(digit_mask(8), 0x00FF);
    assert_eq!(digit_mask(8) & DOT_MASK, 0);
    // Digit 0 excludes the two middle horizontal segments (bits 6 and 7).
    assert_eq!(digit_mask(0), 0x0C3F);
    assert_eq!(digit_mask(0) & 0x00C0, 0);
}

#[test]
fn dot_constant_is_bit_fourteen() {
    assert_eq!(DOT_BIT, 14);
    assert_eq!(DOT_MASK, 1u16 << 14);
}

#[test]
fn ascii_digits_match_numeric_table() {
    for d in 0u8..10 {
        assert_eq!(ascii_mask(b'0' + d), digit_mask(d));
    }
}

#[test]
fn unsupported_bytes_render_blank() {
    assert_eq!(ascii_mask(0x00), 0);
    assert_eq!(ascii_mask(0x1F), 0);
    assert_eq!(ascii_mask(0x7F), 0);
    assert_eq!(ascii_mask(0xFF), 0);
    // Space has a glyph: everything off.
    assert_eq!(ascii_mask(b' '), 0);
}

#[test]
fn minus_sign_glyph() {
    assert_eq!(ascii_mask(b'-'), 0x00C0);
}
