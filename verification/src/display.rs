//! The display-buffer capability the engine consumes, and a verified
//! in-memory implementation of it.
//!
//! A display holds 8 buffer bytes ("rows"): each of the 4 character slots
//! owns two consecutive rows, the low byte at row `2*slot` and the high byte
//! at row `2*slot + 1`, together forming the slot's 16-bit segment mask.
//! The capability exposes exactly one operation: stage a single segment's
//! on/off state at a (row, bit-within-row) coordinate.

use vstd::prelude::*;

verus! {

/// Whether bit `j` of a byte is set.
pub open spec fn u8_bit(x: u8, j: u8) -> bool {
    (x >> j) & 1 == 1
}

/// Whether bit `j` of a 16-bit segment mask is set.
pub open spec fn u16_bit(m: u16, j: u16) -> bool {
    (m >> j) & 1 == 1
}

/// A byte with bit `j` forced on or off.
pub open spec fn set_u8_bit(x: u8, j: u8, on: bool) -> u8 {
    if on {
        x | (1u8 << j)
    } else {
        x & !(1u8 << j)
    }
}

/// The low byte of a 16-bit segment mask.
pub open spec fn low8(m: u16) -> u8 {
    (m & 0xFF) as u8
}

/// The high byte of a 16-bit segment mask.
pub open spec fn high8(m: u16) -> u8 {
    (m >> 8) as u8
}

/// Whether segment bit `b` (0..=15) of slot `s` is lit in the given rows.
pub open spec fn slot_bit(rows: Seq<u8>, s: int, b: u8) -> bool {
    if b < 8 {
        u8_bit(rows[2 * s], b)
    } else {
        u8_bit(rows[2 * s + 1], (b - 8) as u8)
    }
}

/// The rows after writing the full 16-bit mask `m` into slot `s`.
pub open spec fn apply_mask_rows(rows: Seq<u8>, s: int, m: u16) -> Seq<u8> {
    rows.update(2 * s, low8(m)).update(2 * s + 1, high8(m))
}

/// Forcing one bit leaves that bit equal to `on` and every other bit of the
/// byte unchanged.
pub proof fn lemma_set_u8_bit(x: u8, j: u8, k: u8, on: bool)
    requires
        j < 8,
        k < 8,
    ensures
        u8_bit(set_u8_bit(x, j, on), k) == if k == j {
            on
        } else {
            u8_bit(x, k)
        },
{
    if on {
        assert((((x | (1u8 << j)) >> k) & 1 == 1) == if k == j {
            true
        } else {
            (x >> k) & 1 == 1
        }) by (bit_vector)
            requires
                j < 8,
                k < 8,
        ;
    } else {
        assert((((x & !(1u8 << j)) >> k) & 1 == 1) == if k == j {
            false
        } else {
            (x >> k) & 1 == 1
        }) by (bit_vector)
            requires
                j < 8,
                k < 8,
        ;
    }
}

/// Bit `j` of a mask's low byte is bit `j` of the mask.
pub proof fn lemma_low8_bit(m: u16, j: u8)
    requires
        j < 8,
    ensures
        u8_bit(low8(m), j) == u16_bit(m, j as u16),
{
    assert(((((m & 0xFF) as u8) >> j) & 1 == 1) == ((m >> (j as u16)) & 1 == 1)) by (bit_vector)
        requires
            j < 8,
    ;
}

/// Bit `j` of a mask's high byte is bit `j + 8` of the mask.
pub proof fn lemma_high8_bit(m: u16, j: u8)
    requires
        j < 8,
    ensures
        u8_bit(high8(m), j) == u16_bit(m, (j + 8) as u16),
{
    assert(((((m >> 8) as u8) >> j) & 1 == 1) == ((m >> ((j + 8) as u16)) & 1 == 1)) by (bit_vector)
        requires
            j < 8,
    ;
}

/// Two bytes that agree on all 8 bits are equal.
pub proof fn lemma_u8_bit_ext(a: u8, b: u8)
    requires
        forall|j: u8| j < 8 ==> u8_bit(a, j) == u8_bit(b, j),
    ensures
        a == b,
{
    assert(u8_bit(a, 0) == u8_bit(b, 0));
    assert(u8_bit(a, 1) == u8_bit(b, 1));
    assert(u8_bit(a, 2) == u8_bit(b, 2));
    assert(u8_bit(a, 3) == u8_bit(b, 3));
    assert(u8_bit(a, 4) == u8_bit(b, 4));
    assert(u8_bit(a, 5) == u8_bit(b, 5));
    assert(u8_bit(a, 6) == u8_bit(b, 6));
    assert(u8_bit(a, 7) == u8_bit(b, 7));
    assert(a == b) by (bit_vector)
        requires
            ((a >> 0u8) & 1 == 1) == ((b >> 0u8) & 1 == 1),
            ((a >> 1u8) & 1 == 1) == ((b >> 1u8) & 1 == 1),
            ((a >> 2u8) & 1 == 1) == ((b >> 2u8) & 1 == 1),
            ((a >> 3u8) & 1 == 1) == ((b >> 3u8) & 1 == 1),
            ((a >> 4u8) & 1 == 1) == ((b >> 4u8) & 1 == 1),
            ((a >> 5u8) & 1 == 1) == ((b >> 5u8) & 1 == 1),
            ((a >> 6u8) & 1 == 1) == ((b >> 6u8) & 1 == 1),
            ((a >> 7u8) & 1 == 1) == ((b >> 7u8) & 1 == 1),
    ;
}

/// A display buffer: the capability the encoding engine consumes. One call
/// stages a single segment's state; committing the staged buffer to hardware
/// is the implementor's own, separate concern.
pub trait SegmentDisplay: Sized {
    /// The 8 staged buffer bytes.
    spec fn rows(&self) -> Seq<u8>;

    /// Stage one segment on or off: bit `bit` of buffer byte `row`.
    fn apply_bit(&mut self, row: u8, bit: u8, on: bool)
        requires
            old(self).rows().len() == 8,
            row < 8,
            bit < 8,
        ensures
            final (self).rows() == old(self).rows().update(
                row as int,
                set_u8_bit(old(self).rows()[row as int], bit, on),
            ),
    ;
}

/// A plain in-memory display buffer: 8 bytes, nothing else. It lets the
/// engine run and be observed without hardware.
pub struct BufferModel {
    rows: Vec<u8>,
}

impl BufferModel {
    /// A blank buffer: every segment off.
    pub fn new() -> (r: BufferModel)
        ensures
            r.rows() == Seq::<u8>::new(8, |i: int| 0u8),
    {
        let mut rows: Vec<u8> = Vec::new();
        let mut i: usize = 0;
        while i < 8
            invariant
                i <= 8,
                rows@.len() == i as int,
                forall|j: int| 0 <= j < i as int ==> rows@[j] == 0u8,
            decreases 8 - i,
        {
            rows.push(0);
            i += 1;
        }
        proof {
            assert(rows@ =~= Seq::<u8>::new(8, |i: int| 0u8));
        }
        BufferModel { rows }
    }

    /// Read back one staged buffer byte.
    pub fn row_value(&self, row: u8) -> (r: u8)
        requires
            self.rows().len() == 8,
            row < 8,
        ensures
            r == self.rows()[row as int],
    {
        self.rows[row as usize]
    }

    /// Read back the full 16-bit segment mask staged for one slot.
    pub fn slot_mask(&self, index: crate::Index) -> (r: u16)
        requires
            self.rows().len() == 8,
        ensures
            low8(r) == self.rows()[2 * index.spec_value()],
            high8(r) == self.rows()[2 * index.spec_value() + 1],
            forall|b: u8| b < 16 ==> u16_bit(r, b as u16) == slot_bit(self.rows(), index.spec_value(), b),
    {
        let i = index.value();
        let lo = self.rows[(2 * i) as usize];
        let hi = self.rows[(2 * i + 1) as usize];
        let r: u16 = (lo as u16) | ((hi as u16) << 8);
        proof {
            assert(low8(r) == lo && high8(r) == hi) by (bit_vector)
                requires
                    r == (lo as u16) | ((hi as u16) << 8u16),
            ;
            assert forall|b: u8| b < 16 implies u16_bit(r, b as u16) == slot_bit(
                self.rows(),
                index.spec_value(),
                b,
            ) by {
                if b < 8 {
                    lemma_low8_bit(r, b);
                } else {
                    lemma_high8_bit(r, (b - 8) as u8);
                }
            }
        }
        r
    }
}

impl SegmentDisplay for BufferModel {
    closed spec fn rows(&self) -> Seq<u8> {
        self.rows@
    }

    fn apply_bit(&mut self, row: u8, bit: u8, on: bool) {
        let old_byte = self.rows[row as usize];
        let new_byte = if on {
            old_byte | (1u8 << bit)
        } else {
            old_byte & !(1u8 << bit)
        };
        self.rows.set(row as usize, new_byte);
    }
}

} // verus!
