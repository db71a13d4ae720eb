use alphanum4::Error;
use alphanum4::Index;
use alphanum4::display::BufferModel;
use alphanum4::encode::update_buffer_with_char;
use alphanum4::fonts::DOT_MASK;
use alphanum4::fonts::ascii_mask;
use alphanum4::fonts::digit_mask;
use alphanum4::format::update_buffer_with_float;
use alphanum4::format::update_fits;

/// Split an `f32` into the exact plain form the engine takes: a sign and a
/// magnitude `num / 2^shift`.
fn decompose(value: f32) -> (bool, u64, u8) {
    let negative = value < 0.0;
    if value.is_nan() {
        return (false, 0, 0);
    }
    let mut mag = if negative { -value } else { value };
    if !mag.is_finite() || mag >= 4294967296.0 {
        return (negative, u64::MAX, 0);
    }
    let mut shift: u8 = 0;
    while mag.fract() != 0.0 && shift < 150 {
        mag *= 2.0;
        shift += 1;
    }
    (negative, mag as u64, shift)
}

fn format(b: &mut BufferModel, index: Index, value: f32, fractional_digits: u8, base: u8) -> Result<(), Error> {
    let (negative, num, shift) = decompose(value);
    assert!(update_fits(index, negative, num, shift, fractional_digits, base));
    update_buffer_with_float(b, index, negative, num, shift, fractional_digits, base)
}

#[test]
fn zero_with_two_fractional_digits() {
    // The scaled integer of 0.0 is 0, which takes the single-digit path: one
    // `0` in the rightmost slot, everything else blanked.
    let mut b = BufferModel::new();
    assert!(format(&mut b, Index::One, 0.0, 2, 10).is_ok());
    assert_eq!(b.slot_mask(Index::One), 0);
    assert_eq!(b.slot_mask(Index::Two), 0);
    assert_eq!(b.slot_mask(Index::Three), 0);
    assert_eq!(b.slot_mask(Index::Four), digit_mask(0));
}

#[test]
fn negative_pi_fills_the_display() {
    // The dot shares a slot with its digit, so "-3.14" needs exactly four
    // slots: `-`, `3.`, `1`, `4`.
    let mut b = BufferModel::new();
    assert!(format(&mut b, Index::One, -3.14, 2, 10).is_ok());
    assert_eq!(b.slot_mask(Index::One), ascii_mask(b'-'));
    assert_eq!(b.slot_mask(Index::Two), digit_mask(3) | DOT_MASK);
    assert_eq!(b.slot_mask(Index::Three), digit_mask(1));
    assert_eq!(b.slot_mask(Index::Four), digit_mask(4));
}

#[test]
fn negative_pi_after_char_keeps_leading_slot() {
    // From slot 1 only three slots remain; with one reserved for the sign
    // the precision shrinks to one fractional digit: "X-3.1".
    let mut b = BufferModel::new();
    update_buffer_with_char(&mut b, Index::One, b'X');
    assert!(format(&mut b, Index::Two, -3.14, 2, 10).is_ok());
    assert_eq!(b.slot_mask(Index::One), ascii_mask(b'X'));
    assert_eq!(b.slot_mask(Index::Two), ascii_mask(b'-'));
    assert_eq!(b.slot_mask(Index::Three), digit_mask(3) | DOT_MASK);
    assert_eq!(b.slot_mask(Index::Four), digit_mask(1));
}

#[test]
fn five_digit_integer_cannot_fit() {
    let mut b = BufferModel::new();
    let r = format(&mut b, Index::One, 12345.0, 0, 10);
    assert_eq!(r, Err(Error::InsufficientDigits));
    // Nothing was staged by the failing call.
    for row in 0u8..8 {
        assert_eq!(b.row_value(row), 0);
    }
}

#[test]
fn failure_leaves_earlier_writes_alone() {
    let mut b = BufferModel::new();
    update_buffer_with_char(&mut b, Index::One, b'A');
    let r = format(&mut b, Index::Two, 54321.0, 2, 10);
    assert_eq!(r, Err(Error::InsufficientDigits));
    assert_eq!(b.slot_mask(Index::One), ascii_mask(b'A'));
}

#[test]
fn exact_half_rounds_up() {
    // 2.5 with no fractional digits rounds away from zero to 3.
    let mut b = BufferModel::new();
    assert!(format(&mut b, Index::One, 2.5, 0, 10).is_ok());
    assert_eq!(b.slot_mask(Index::Four), digit_mask(3));
    assert_eq!(b.slot_mask(Index::Three), 0);
    // The same at one fractional digit: 0.25 -> "0.3".
    let mut c = BufferModel::new();
    assert!(format(&mut c, Index::One, 0.25, 1, 10).is_ok());
    assert_eq!(c.slot_mask(Index::Four), digit_mask(3));
    assert_eq!(c.slot_mask(Index::Three), digit_mask(0) | DOT_MASK);
    // And on a negative value the magnitude rounds away from zero.
    let mut d = BufferModel::new();
    assert!(format(&mut d, Index::One, -2.5, 0, 10).is_ok());
    assert_eq!(d.slot_mask(Index::Four), digit_mask(3));
    assert_eq!(d.slot_mask(Index::Three), ascii_mask(b'-'));
}

#[test]
fn trailing_fractional_zeros_still_render() {
    // 2.0 at two fractional digits renders "2.00", not "2".
    let mut b = BufferModel::new();
    assert!(format(&mut b, Index::One, 2.0, 2, 10).is_ok());
    assert_eq!(b.slot_mask(Index::One), 0);
    assert_eq!(b.slot_mask(Index::Two), digit_mask(2) | DOT_MASK);
    assert_eq!(b.slot_mask(Index::Three), digit_mask(0));
    assert_eq!(b.slot_mask(Index::Four), digit_mask(0));
}

#[test]
fn binary_base_formats_digits() {
    // 5.0 in base 2 with no fractional digits is "101" right-aligned.
    let mut b = BufferModel::new();
    assert!(format(&mut b, Index::One, 5.0, 0, 2).is_ok());
    assert_eq!(b.slot_mask(Index::One), 0);
    assert_eq!(b.slot_mask(Index::Two), digit_mask(1));
    assert_eq!(b.slot_mask(Index::Three), digit_mask(0));
    assert_eq!(b.slot_mask(Index::Four), digit_mask(1));
}

#[test]
fn update_fits_flags_impossible_placements() {
    // A negative value from the last slot has no room for sign plus digit.
    let (negative, num, shift) = decompose(-0.3);
    assert!(negative);
    assert!(!update_fits(Index::Four, negative, num, shift, 2, 10));
    // The same value from the first slot fits comfortably.
    assert!(update_fits(Index::One, negative, num, shift, 2, 10));
}

#[test]
fn huge_magnitudes_fail_cleanly() {
    let mut b = BufferModel::new();
    let r = format(&mut b, Index::One, 3.0e9, 0, 10);
    assert_eq!(r, Err(Error::InsufficientDigits));
    let r2 = format(&mut b, Index::One, f32::INFINITY, 0, 10);
    assert_eq!(r2, Err(Error::InsufficientDigits));
}
