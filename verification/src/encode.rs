//! Bit addressing and character encoding.
//!
//! Bit addressing maps a logical (slot, segment-bit) pair to the physical
//! buffer coordinate — buffer byte `2*slot` for segment bits 0..=7 and
//! `2*slot + 1` for bits 8..=15 — and applies a single on/off update there.
//! The character encoder writes a whole 16-bit font mask to a slot by
//! invoking bit addressing once per bit, or toggles the single dot bit.

use vstd::prelude::*;

use crate::Index;
use crate::display::SegmentDisplay;
use crate::display::apply_mask_rows;
use crate::display::high8;
use crate::display::lemma_high8_bit;
use crate::display::lemma_low8_bit;
use crate::display::lemma_set_u8_bit;
use crate::display::lemma_u8_bit_ext;
use crate::display::low8;
use crate::display::set_u8_bit;
use crate::display::slot_bit;
use crate::display::u16_bit;
use crate::display::u8_bit;
use crate::fonts::DOT_BIT;
use crate::fonts::ascii_font;
use crate::fonts::ascii_mask;
use crate::fonts::digit_font;
use crate::fonts::digit_mask;

verus! {

/// The buffer byte that holds segment bit `bit` of slot `s`.
pub open spec fn row_of(s: int, bit: u8) -> int {
    if bit < 8 {
        2 * s
    } else {
        2 * s + 1
    }
}

/// Stage a single segment of a slot: segment bit `bit` (0..=15) is routed to
/// bit `bit % 8` of buffer byte `2*slot` or `2*slot + 1`.
pub fn set_bit<D: SegmentDisplay>(display: &mut D, index: Index, bit: u8, on: bool)
    requires
        old(display).rows().len() == 8,
        bit < 16,
    ensures
        final (display).rows() == old(display).rows().update(
            row_of(index.spec_value(), bit),
            set_u8_bit(old(display).rows()[row_of(index.spec_value(), bit)], bit % 8, on),
        ),
{
    let idx = index.value();
    let row: u8 = if bit < 8 {
        2 * idx
    } else {
        2 * idx + 1
    };
    let common: u8 = bit % 8;
    display.apply_bit(row, common, on);
}

/// Stage a full 16-bit segment mask into a slot, one bit at a time. Only the
/// slot's two buffer bytes change; they end up holding exactly the mask.
pub fn update_bits<D: SegmentDisplay>(display: &mut D, index: Index, bits: u16)
    requires
        old(display).rows().len() == 8,
    ensures
        final (display).rows() == apply_mask_rows(old(display).rows(), index.spec_value(), bits),
{
    let ghost s = index.spec_value();
    let ghost rows0 = old(display).rows();
    let mut i: u8 = 0;
    while i < 16
        invariant
            i <= 16,
            0 <= s < 4,
            s == index.spec_value(),
            rows0.len() == 8,
            display.rows().len() == 8,
            forall|r: int|
                0 <= r < 8 && r != 2 * s && r != 2 * s + 1 ==> display.rows()[r] == rows0[r],
            forall|j: u8| #![trigger u8_bit(display.rows()[2 * s], j)]
                j < 8 ==> u8_bit(display.rows()[2 * s], j) == if (j as int) < i as int {
                    u16_bit(bits, j as u16)
                } else {
                    u8_bit(rows0[2 * s], j)
                },
            forall|j: u8| #![trigger u8_bit(display.rows()[2 * s + 1], j)]
                j < 8 ==> u8_bit(display.rows()[2 * s + 1], j) == if (j as int) + 8 < i as int {
                    u16_bit(bits, (j + 8) as u16)
                } else {
                    u8_bit(rows0[2 * s + 1], j)
                },
        decreases 16 - i,
    {
        let ghost prev = display.rows();
        let on: bool = ((bits >> (i as u16)) & 1) == 1;
        set_bit(display, index, i, on);
        proof {
            assert(on == u16_bit(bits, i as u16));
            let r = row_of(s, i);
            let j0 = i % 8;
            assert forall|j: u8| #![trigger u8_bit(display.rows()[2 * s], j)] j < 8 implies u8_bit(
                display.rows()[2 * s],
                j,
            ) == if (j as int) < i as int + 1 {
                u16_bit(bits, j as u16)
            } else {
                u8_bit(rows0[2 * s], j)
            } by {
                if i < 8 {
                    lemma_set_u8_bit(prev[2 * s], j0, j, on);
                }
            }
            assert forall|j: u8| #![trigger u8_bit(display.rows()[2 * s + 1], j)] j < 8 implies u8_bit(
                display.rows()[2 * s + 1],
                j,
            ) == if (j as int) + 8 < i as int + 1 {
                u16_bit(bits, (j + 8) as u16)
            } else {
                u8_bit(rows0[2 * s + 1], j)
            } by {
                if i >= 8 {
                    lemma_set_u8_bit(prev[2 * s + 1], j0, j, on);
                }
            }
        }
        i += 1;
    }
    proof {
        assert forall|j: u8| j < 8 implies u8_bit(display.rows()[2 * s], j) == u8_bit(
            low8(bits),
            j,
        ) by {
            lemma_low8_bit(bits, j);
        }
        lemma_u8_bit_ext(display.rows()[2 * s], low8(bits));
        assert forall|j: u8| j < 8 implies u8_bit(display.rows()[2 * s + 1], j) == u8_bit(
            high8(bits),
            j,
        ) by {
            lemma_high8_bit(bits, j);
        }
        lemma_u8_bit_ext(display.rows()[2 * s + 1], high8(bits));
        assert(display.rows() =~= apply_mask_rows(rows0, s, bits));
    }
}

/// Write a decimal digit's font mask into a slot. A digit value outside
/// 0..=9 is caller misuse of an internal contract, never reachable from the
/// formatter's own digit extraction, and is excluded outright.
pub fn update_buffer_with_digit<D: SegmentDisplay>(display: &mut D, index: Index, value: u8)
    requires
        old(display).rows().len() == 8,
        value < 10,
    ensures
        final (display).rows() == apply_mask_rows(
            old(display).rows(),
            index.spec_value(),
            digit_font(value),
        ),
{
    let bits = digit_mask(value);
    update_bits(display, index, bits);
}

/// Write an ASCII character's font mask into a slot. Bytes without a glyph
/// render blank; the lookup never fails.
pub fn update_buffer_with_char<D: SegmentDisplay>(display: &mut D, index: Index, value: u8)
    requires
        old(display).rows().len() == 8,
    ensures
        final (display).rows() == apply_mask_rows(
            old(display).rows(),
            index.spec_value(),
            ascii_font(value),
        ),
{
    let bits = ascii_mask(value);
    update_bits(display, index, bits);
}

/// Turn a slot's decimal-point segment on or off, touching nothing else:
/// only bit 6 of the slot's high buffer byte changes.
pub fn update_buffer_with_dot<D: SegmentDisplay>(display: &mut D, index: Index, dot_on: bool)
    requires
        old(display).rows().len() == 8,
    ensures
        final (display).rows() == old(display).rows().update(
            2 * index.spec_value() + 1,
            set_u8_bit(old(display).rows()[2 * index.spec_value() + 1], 6, dot_on),
        ),
{
    set_bit(display, index, DOT_BIT, dot_on);
}

/// Blank a slot: stage the all-off mask into it.
pub fn clear_slot<D: SegmentDisplay>(display: &mut D, index: Index)
    requires
        old(display).rows().len() == 8,
    ensures
        final (display).rows() == apply_mask_rows(old(display).rows(), index.spec_value(), 0),
{
    update_bits(display, index, 0);
}

/// Reading a slot back after a mask write yields exactly that mask, bit for
/// bit, and no other slot's bytes change.
pub proof fn lemma_apply_mask_readback(rows: Seq<u8>, s: int, m: u16)
    requires
        rows.len() == 8,
        0 <= s < 4,
    ensures
        forall|b: u8| b < 16 ==> slot_bit(apply_mask_rows(rows, s, m), s, b) == u16_bit(m, b as u16),
        forall|r: int|
            0 <= r < 8 && r != 2 * s && r != 2 * s + 1 ==> apply_mask_rows(rows, s, m)[r] == rows[r],
{
    assert forall|b: u8| b < 16 implies slot_bit(apply_mask_rows(rows, s, m), s, b) == u16_bit(
        m,
        b as u16,
    ) by {
        if b < 8 {
            lemma_low8_bit(m, b);
        } else {
            lemma_high8_bit(m, (b - 8) as u8);
        }
    }
}

/// Writing a digit then turning the dot on reads back as the digit's
/// canonical font mask with the dot bit added: the dot write sets segment
/// bit 14 and leaves the other 15 segment bits of the slot untouched.
pub proof fn lemma_digit_then_dot_readback(rows: Seq<u8>, s: int, value: u8)
    requires
        rows.len() == 8,
        0 <= s < 4,
        value < 10,
    ensures
        ({
            let after_digit = apply_mask_rows(rows, s, digit_font(value));
            let after_dot = after_digit.update(
                2 * s + 1,
                set_u8_bit(after_digit[2 * s + 1], 6, true),
            );
            &&& forall|b: u8|
                b < 16 ==> slot_bit(after_digit, s, b) == u16_bit(digit_font(value), b as u16)
            &&& slot_bit(after_dot, s, 14)
            &&& forall|b: u8|
                b < 16 && b != 14 ==> slot_bit(after_dot, s, b) == slot_bit(after_digit, s, b)
        }),
{
    let after_digit = apply_mask_rows(rows, s, digit_font(value));
    let after_dot = after_digit.update(2 * s + 1, set_u8_bit(after_digit[2 * s + 1], 6, true));
    lemma_apply_mask_readback(rows, s, digit_font(value));
    lemma_set_u8_bit(after_digit[2 * s + 1], 6, 6, true);
    assert forall|b: u8| b < 16 && b != 14 implies slot_bit(after_dot, s, b) == slot_bit(
        after_digit,
        s,
        b,
    ) by {
        if b >= 8 {
            lemma_set_u8_bit(after_digit[2 * s + 1], 6, (b - 8) as u8, true);
        }
    }
}

/// Writing the same digit to the same slot twice leaves exactly the same
/// staged buffer as writing it once.
pub proof fn lemma_digit_write_idempotent(rows: Seq<u8>, s: int, value: u8)
    requires
        rows.len() == 8,
        0 <= s < 4,
    ensures
        apply_mask_rows(apply_mask_rows(rows, s, digit_font(value)), s, digit_font(value))
            == apply_mask_rows(rows, s, digit_font(value)),
{
    assert(apply_mask_rows(apply_mask_rows(rows, s, digit_font(value)), s, digit_font(value))
        =~= apply_mask_rows(rows, s, digit_font(value)));
}

} // verus!
