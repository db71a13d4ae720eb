use alphanum4::Index;
use alphanum4::display::BufferModel;
use alphanum4::encode::clear_slot;
use alphanum4::encode::set_bit;
use alphanum4::encode::update_bits;
use alphanum4::encode::update_buffer_with_char;
use alphanum4::encode::update_buffer_with_digit;
use alphanum4::encode::update_buffer_with_dot;
use alphanum4::fonts::DOT_MASK;
use alphanum4::fonts::ascii_mask;
use alphanum4::fonts::digit_mask;

#[test]
fn digit_readback_matches_font_and_dot_preserves_segments() {
    for slot in 0u8..4 {
        for digit in 0u8..10 {
            let mut b = BufferModel::new();
            let index = Index::from_value(slot);
            update_buffer_with_digit(&mut b, index, digit);
            assert_eq!(b.slot_mask(index), digit_mask(digit));
            update_buffer_with_dot(&mut b, index, true);
            let after = b.slot_mask(index);
            assert_eq!(after & DOT_MASK, DOT_MASK);
            assert_eq!(after & !DOT_MASK, digit_mask(digit) & !DOT_MASK);
            update_buffer_with_dot(&mut b, index, false);
            assert_eq!(b.slot_mask(index), digit_mask(digit) & !DOT_MASK);
        }
    }
}

#[test]
fn digit_write_is_idempotent() {
    for slot in 0u8..4 {
        for digit in 0u8..10 {
            let mut once = BufferModel::new();
            let mut twice = BufferModel::new();
            let index = Index::from_value(slot);
            update_buffer_with_digit(&mut once, index, digit);
            update_buffer_with_digit(&mut twice, index, digit);
            update_buffer_with_digit(&mut twice, index, digit);
            for row in 0u8..8 {
                assert_eq!(once.row_value(row), twice.row_value(row));
            }
        }
    }
}

#[test]
fn set_bit_addresses_row_and_common() {
    let mut b = BufferModel::new();
    set_bit(&mut b, Index::Three, 3, true);
    assert_eq!(b.row_value(4), 0x08);
    assert_eq!(b.row_value(5), 0x00);
    set_bit(&mut b, Index::Three, 11, true);
    assert_eq!(b.row_value(5), 0x08);
    set_bit(&mut b, Index::Three, 3, false);
    assert_eq!(b.row_value(4), 0x00);
    assert_eq!(b.row_value(5), 0x08);
}

#[test]
fn update_bits_stages_whole_mask() {
    let mut b = BufferModel::new();
    update_bits(&mut b, Index::Two, 0xABCD);
    assert_eq!(b.slot_mask(Index::Two), 0xABCD);
    assert_eq!(b.row_value(2), 0xCD);
    assert_eq!(b.row_value(3), 0xAB);
    assert_eq!(b.slot_mask(Index::One), 0x0000);
    clear_slot(&mut b, Index::Two);
    assert_eq!(b.slot_mask(Index::Two), 0x0000);
}

#[test]
fn char_write_uses_ascii_font() {
    let mut b = BufferModel::new();
    update_buffer_with_char(&mut b, Index::One, b'X');
    assert_eq!(b.slot_mask(Index::One), ascii_mask(b'X'));
    update_buffer_with_char(&mut b, Index::One, b'-');
    assert_eq!(b.slot_mask(Index::One), 0x00C0);
}
