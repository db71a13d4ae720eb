//! Fitting a signed decimal number into the display's slots.
//!
//! The value to render arrives as exact plain data: a sign, and a magnitude
//! `num / 2^shift` (any binary floating-point magnitude has this form). The
//! formatter scales the magnitude by `base^fractional_digits`, rounds
//! half-up to an integer, and writes its digits right-to-left, placing the
//! decimal point, the sign and blanks around them. When the scaled integer
//! would overflow the slots available, fractional digits are sacrificed one
//! by one; if the integer part alone still cannot fit, the call fails with
//! [`crate::Error::InsufficientDigits`] before staging anything.

use vstd::prelude::*;

use crate::display::SegmentDisplay;
use crate::display::high8;
use crate::display::low8;
use crate::encode::clear_slot;
use crate::encode::update_buffer_with_char;
use crate::encode::update_buffer_with_digit;
use crate::encode::update_buffer_with_dot;

use vstd::arithmetic::div_mod::lemma_basic_div;
use vstd::arithmetic::div_mod::lemma_div_decreases;
use vstd::arithmetic::div_mod::lemma_div_denominator;
use vstd::arithmetic::div_mod::lemma_div_is_ordered;
use vstd::arithmetic::div_mod::lemma_fundamental_div_mod;
use vstd::arithmetic::div_mod::lemma_small_div_converse;
use vstd::arithmetic::div_mod::lemma_mod_division_less_than_divisor;
use vstd::arithmetic::mul::lemma_mul_inequality;
use vstd::arithmetic::power::lemma_pow0;
use vstd::arithmetic::power::lemma_pow1;
use vstd::arithmetic::power::lemma_pow_adds;
use vstd::arithmetic::power::lemma_pow_increases;
use vstd::arithmetic::power::lemma_pow_positive;
use vstd::arithmetic::power::pow;
use vstd::arithmetic::power2::lemma_pow2_adds;
use vstd::arithmetic::power2::lemma_pow2_pos;
use vstd::arithmetic::power2::lemma_pow2_strictly_increases;
use vstd::arithmetic::power2::lemma2_to64;
use vstd::arithmetic::power2::lemma2_to64_rest;
use vstd::arithmetic::power2::pow2;

verus! {

/// `|v| * base^f`, rounded half away from zero to an integer, where the
/// magnitude `|v|` is `num / 2^shift`. Written over integers:
/// `floor((2 * num * base^f + 2^shift) / 2^(shift+1))`.
pub open spec fn scaled_at(num: nat, shift: nat, base: nat, f: nat) -> nat {
    ((2 * num * pow(base as int, f) + pow2(shift)) / (pow2((shift + 1) as nat) as int)) as nat
}

/// The fractional-digit count the formatter settles on: the largest
/// `f <= fractional_digits` whose scaled integer stays under `limit`, or 0
/// when even that is too big (the failure case).
pub open spec fn chosen_precision(num: nat, shift: nat, base: nat, f: nat, limit: nat) -> nat
    decreases f,
{
    if f == 0 || scaled_at(num, shift, base, f) < limit {
        f
    } else {
        chosen_precision(num, shift, base, (f - 1) as nat, limit)
    }
}

/// How many digits `n` has in the given base (1 for `n == 0`).
pub open spec fn num_digits(n: nat, base: nat) -> nat
    decreases n,
    when base >= 2
    via num_digits_decreases
{
    if n < base {
        1
    } else {
        (1 + num_digits(n / base, base)) as nat
    }
}

#[via_fn]
proof fn num_digits_decreases(n: nat, base: nat) {
    if n >= base {
        lemma_div_decreases(n as int, base as int);
    }
}

/// Digit `i` of `n`, counting from the least significant.
pub open spec fn digit_at(n: nat, base: nat, i: nat) -> nat {
    (n / (pow(base as int, i) as nat)) % base
}

/// How many characters the digit-emission loop writes: every digit of `n`,
/// but at least one digit past the decimal point's position so that
/// trailing fractional zeros still render (a zero value is the one
/// exception: it renders as the single digit `0`).
pub open spec fn emit_count(n: nat, f: nat, base: nat) -> nat {
    if n == 0 {
        1
    } else if num_digits(n, base) >= f + 1 {
        num_digits(n, base)
    } else {
        f + 1
    }
}

/// How many slots the sign consumes.
pub open spec fn sign_slots(negative: bool) -> int {
    if negative {
        1
    } else {
        0
    }
}

/// How many slots are available for digits: those from the start slot to
/// the display's end, less one reserved for the sign of a negative value.
pub open spec fn avail_slots(index: crate::Index, negative: bool) -> nat {
    (4 - index.spec_value() - sign_slots(negative)) as nat
}

/// The scaled integer must stay under this bound to fit the available
/// slots.
pub open spec fn overflow_limit(base: nat, index: crate::Index, negative: bool) -> nat {
    pow(base as int, avail_slots(index, negative)) as nat
}

/// The segment mask the formatter leaves in the slot at distance `i` from
/// the display's right edge: a digit (with the decimal point on the digit
/// at distance `f`), then the sign, then blanks.
pub open spec fn rendered_mask(i: nat, negative: bool, n: nat, f: nat, base: nat) -> u16 {
    let k = emit_count(n, f, base);
    if i < k {
        if n == 0 {
            crate::fonts::digit_font(0)
        } else if f != 0 && i == f {
            crate::fonts::digit_font(digit_at(n, base, i) as u8) | crate::fonts::DOT_MASK
        } else {
            crate::fonts::digit_font(digit_at(n, base, i) as u8)
        }
    } else if negative && i == k {
        crate::fonts::ascii_font(45)
    } else {
        0
    }
}

/// A successful call stages digits, point, sign and blanks in the slots
/// from the start index rightwards; they must all exist. The one demand on
/// callers beyond the machine-limit bounds: when the value fits at all, the
/// settled fractional-digit count together with sign and digits may not
/// reach below the start slot.
pub open spec fn float_fits(
    num: nat,
    shift: nat,
    base: nat,
    fractional_digits: nat,
    index: crate::Index,
    negative: bool,
) -> bool {
    let limit = overflow_limit(base, index, negative);
    scaled_at(num, shift, base, 0) < limit ==> chosen_precision(
        num,
        shift,
        base,
        fractional_digits,
        limit,
    ) + 1 + sign_slots(negative) <= 4 - index.spec_value()
}

/// Scaling by a larger power can only grow the rounded integer.
pub proof fn lemma_scaled_monotone(num: nat, shift: nat, base: nat, f1: nat, f2: nat)
    requires
        base >= 1,
        f1 <= f2,
    ensures
        scaled_at(num, shift, base, f1) <= scaled_at(num, shift, base, f2),
{
    lemma_pow_increases(base, f1, f2);
    lemma_pow_positive(base as int, f1);
    let p1 = pow(base as int, f1);
    let p2 = pow(base as int, f2);
    assert(2 * num * p1 <= 2 * num * p2) by (nonlinear_arith)
        requires
            p1 <= p2,
            p1 > 0,
            num >= 0,
    ;
    lemma_pow2_pos((shift + 1) as nat);
    lemma_div_is_ordered(
        2 * num * p1 + pow2(shift),
        2 * num * p2 + pow2(shift),
        pow2((shift + 1) as nat) as int,
    );
}

/// The settled precision never exceeds the requested one, and when even it
/// overflows the limit it is zero (the failure case).
pub proof fn lemma_chosen_precision(num: nat, shift: nat, base: nat, f: nat, limit: nat)
    ensures
        chosen_precision(num, shift, base, f, limit) <= f,
        scaled_at(num, shift, base, chosen_precision(num, shift, base, f, limit)) >= limit
            ==> chosen_precision(num, shift, base, f, limit) == 0,
    decreases f,
{
    if !(f == 0 || scaled_at(num, shift, base, f) < limit) {
        lemma_chosen_precision(num, shift, base, (f - 1) as nat, limit);
    }
}

/// `n >= 1` sits between the powers of the base picked out by its digit
/// count.
pub proof fn lemma_num_digits_correct(n: nat, base: nat)
    requires
        base >= 2,
        n >= 1,
    ensures
        num_digits(n, base) >= 1,
        pow(base as int, (num_digits(n, base) - 1) as nat) <= n,
        n < pow(base as int, num_digits(n, base)),
    decreases n,
{
    let nd = num_digits(n, base);
    if n < base {
        lemma_pow0(base as int);
        lemma_pow1(base as int);
    } else {
        lemma_div_decreases(n as int, base as int);
        if n / base == 0 {
            lemma_small_div_converse(n as int, base as int);
        }
        lemma_num_digits_correct(n / base, base);
        let nd1 = num_digits(n / base, base);
        let q = (n / base) as int;
        lemma_fundamental_div_mod(n as int, base as int);
        lemma_mod_division_less_than_divisor(n as int, base as int);
        lemma_pow1(base as int);
        // lower bound: n >= (n/base) * base >= base^(nd1-1) * base = base^nd1
        lemma_mul_inequality(pow(base as int, (nd1 - 1) as nat), q, base as int);
        lemma_pow_adds(base as int, (nd1 - 1) as nat, 1);
        assert(pow(base as int, nd1) <= q * base);
        assert(n >= q * base);
        // upper bound: n < (n/base + 1) * base <= base^nd1 * base = base^(nd1+1)
        assert((n as int) < (q + 1) * base) by {
            assert((n as int) == base as int * q + (n as int) % (base as int));
            assert((q + 1) * base == q * base + base) by {
                vstd::arithmetic::mul::lemma_mul_is_distributive_add_other_way(
                    base as int,
                    q,
                    1,
                );
            }
        }
        lemma_mul_inequality(q + 1, pow(base as int, nd1), base as int);
        lemma_pow_adds(base as int, nd1, 1);
    }
}

/// A nonzero value below `base^e` has at most `e` digits.
pub proof fn lemma_num_digits_bound(n: nat, base: nat, e: nat)
    requires
        base >= 2,
        1 <= n,
        n < pow(base as int, e),
    ensures
        num_digits(n, base) <= e,
{
    let nd = num_digits(n, base);
    lemma_num_digits_correct(n, base);
    if nd > e {
        lemma_pow_increases(base, e, (nd - 1) as nat);
        assert(false);
    }
}

/// `n / base^i` is zero exactly when `i` has run past `n`'s digits.
pub proof fn lemma_digits_exhausted(n: nat, base: nat, i: nat)
    requires
        base >= 2,
        n >= 1,
    ensures
        (n / (pow(base as int, i) as nat) == 0) <==> (i >= num_digits(n, base)),
{
    let nd = num_digits(n, base);
    let p = pow(base as int, i);
    lemma_pow_positive(base as int, i);
    lemma_num_digits_correct(n, base);
    if i >= nd {
        lemma_pow_increases(base, nd, i);
        lemma_basic_div(n as int, p);
    } else {
        // i <= nd - 1, so base^i <= base^(nd-1) <= n and the quotient is positive
        lemma_pow_increases(base, i, (nd - 1) as nat);
        if n / (p as nat) == 0 {
            lemma_small_div_converse(n as int, p);
            assert(false);
        }
    }
}

/// `base^exp`, computed exactly.
pub fn pow_u32(base: u8, exp: u8) -> (r: u32)
    requires
        1 <= base,
        pow(base as int, exp as nat) <= u32::MAX,
    ensures
        r as int == pow(base as int, exp as nat),
{
    proof {
        lemma_pow0(base as int);
    }
    let mut r: u32 = 1;
    let mut i: u8 = 0;
    while i < exp
        invariant
            i <= exp,
            1 <= base,
            pow(base as int, exp as nat) <= u32::MAX,
            r as int == pow(base as int, i as nat),
        decreases exp - i,
    {
        proof {
            lemma_pow_adds(base as int, i as nat, 1);
            lemma_pow1(base as int);
            lemma_pow_increases(base as nat, (i + 1) as nat, exp as nat);
        }
        r = r * (base as u32);
        i += 1;
    }
    r
}

/// `2^exp`, computed exactly.
fn pow2_u128(exp: u8) -> (r: u128)
    requires
        exp <= 100,
    ensures
        r as nat == pow2(exp as nat),
{
    proof {
        lemma2_to64();
        lemma2_to64_rest();
    }
    let mut r: u128 = 1;
    let mut i: u8 = 0;
    while i < exp
        invariant
            i <= exp,
            exp <= 100,
            r as nat == pow2(i as nat),
        decreases exp - i,
    {
        proof {
            lemma_pow2_adds(i as nat, 1);
            lemma2_to64();
            lemma2_to64_rest();
            lemma_pow2_adds(64, 36);
            lemma_pow2_adds((i + 1) as nat, (100 - i - 1) as nat);
            lemma_pow2_pos((100 - i - 1) as nat);
            lemma_pow2_pos((i + 1) as nat);
            lemma_mul_inequality(1, pow2((100 - i - 1) as nat) as int, pow2((i + 1) as nat) as int);
        }
        r = r * 2;
        i += 1;
    }
    r
}

/// The scaled, rounded integer for the given precision, saturating at
/// `u32::MAX` (which always lies beyond any slot limit, so saturation never
/// masks a fitting value).
pub fn scaled_of(num: u64, shift: u8, base: u8, f: u8) -> (r: u32)
    requires
        2 <= base,
        shift <= 150,
        pow(base as int, f as nat) <= u32::MAX,
    ensures
        scaled_at(num as nat, shift as nat, base as nat, f as nat) <= u32::MAX as nat ==> r as nat
            == scaled_at(num as nat, shift as nat, base as nat, f as nat),
        scaled_at(num as nat, shift as nat, base as nat, f as nat) > u32::MAX as nat ==> r
            == u32::MAX,
{
    let p: u32 = pow_u32(base, f);
    let ghost prod = 2 * (num as int) * (p as int);
    proof {
        lemma2_to64();
        lemma2_to64_rest();
        lemma_pow2_adds(64, 32);
        lemma_pow2_adds(64, 33);
        assert(pow2(96) == 0x1000000000000000000000000 && pow2(97)
            == 0x2000000000000000000000000) by (nonlinear_arith)
            requires
                pow2(96) == pow2(64) * pow2(32),
                pow2(97) == pow2(64) * pow2(33),
                pow2(64) == 0x10000000000000000,
                pow2(32) == 0x100000000,
                pow2(33) == 0x200000000,
        ;
        assert(prod >= 0 && prod < pow2(97)) by (nonlinear_arith)
            requires
                prod == 2 * (num as int) * (p as int),
                0 <= num <= u64::MAX,
                0 <= p <= u32::MAX,
                pow2(97) == 0x2000000000000000000000000,
        ;
    }
    if shift >= 97 {
        // 2*num*p < 2^97 <= 2^shift, so the numerator stays below the divisor
        // 2^(shift+1) and the quotient is zero.
        proof {
            if shift > 97 {
                lemma_pow2_strictly_increases(97, shift as nat);
            }
            lemma_pow2_adds(shift as nat, 1);
            assert(pow2((shift + 1) as nat) == 2 * pow2(shift as nat)) by (nonlinear_arith)
                requires
                    pow2((shift + 1) as nat) == pow2(shift as nat) * pow2(1),
                    pow2(1) == 2,
            ;
            lemma_basic_div(prod + pow2(shift as nat), pow2((shift + 1) as nat) as int);
        }
        return 0;
    }
    proof {
        if shift < 96 {
            lemma_pow2_strictly_increases(shift as nat, 96);
        }
        lemma_pow2_pos(shift as nat);
        lemma_pow2_pos((shift + 1) as nat);
    }
    let t: u128 = 2u128 * (num as u128) * (p as u128) + pow2_u128(shift);
    let d: u128 = pow2_u128(shift + 1);
    let q: u128 = t / d;
    if q > u32::MAX as u128 {
        u32::MAX
    } else {
        q as u32
    }
}

/// The slots `lo..=hi` hold exactly what the formatter renders for the
/// value `(negative, n)` at precision `f`: digits right-to-left from the
/// display's edge, the decimal point on digit `f`, then the sign, then
/// blanks.
pub open spec fn slots_rendered(
    rows: Seq<u8>,
    lo: int,
    hi: int,
    negative: bool,
    n: nat,
    f: nat,
    base: nat,
) -> bool {
    forall|j: int| #![trigger rows[2 * j]] #![trigger rows[2 * j + 1]]
        lo <= j <= hi ==> rows[2 * j] == crate::display::low8(
            rendered_mask((3 - j) as nat, negative, n, f, base),
        ) && rows[2 * j + 1] == crate::display::high8(
            rendered_mask((3 - j) as nat, negative, n, f, base),
        )
}

/// The buffer bytes of every slot left of `slot` are unchanged.
pub open spec fn untouched_below(rows: Seq<u8>, rows0: Seq<u8>, slot: int) -> bool {
    forall|r: int| 0 <= r < 2 * slot ==> rows[r] == rows0[r]
}

/// Setting the dot bit on a staged font mask's high byte is the same as
/// staging the mask with the dot segment merged in.
proof fn lemma_dot_mask(m: u16)
    ensures
        crate::display::set_u8_bit(crate::display::high8(m), 6, true) == crate::display::high8(
            m | crate::fonts::DOT_MASK,
        ),
        crate::display::low8(m | crate::fonts::DOT_MASK) == crate::display::low8(m),
{
    assert((((m >> 8) as u8) | (1u8 << 6u8)) == (((m | 0x4000) >> 8) as u8)) by (bit_vector);
    assert((((m | 0x4000) & 0xFF) as u8) == ((m & 0xFF) as u8)) by (bit_vector);
}

/// For any base 2..=10 and up to 4 slots the overflow limit is at most
/// 10000, so it always fits a `u32`.
proof fn lemma_limit_bound(base: nat, e: nat)
    requires
        2 <= base <= 10,
        e <= 4,
    ensures
        1 <= pow(base as int, e),
        pow(base as int, e) <= 10000,
{
    lemma_pow_positive(base as int, e);
    lemma_pow_increases(base, e, 4);
    lemma_pow1(base as int);
    lemma_pow_adds(base as int, 1, 1);
    lemma_pow_adds(base as int, 2, 2);
    assert(pow(base as int, 2) <= 100) by (nonlinear_arith)
        requires
            pow(base as int, 2) == pow(base as int, 1) * pow(base as int, 1),
            pow(base as int, 1) == base,
            2 <= base <= 10,
    ;
    assert(pow(base as int, 4) <= 10000) by (nonlinear_arith)
        requires
            pow(base as int, 4) == pow(base as int, 2) * pow(base as int, 2),
            0 <= pow(base as int, 2) <= 100,
    ;
}

/// Walk the precision down from the requested count until the scaled
/// integer fits under `limit` or no fractional digits remain. Returns the
/// settled precision and its (saturating) scaled integer.
fn shrink_precision(num: u64, shift: u8, base: u8, fractional_digits: u8, limit: u32) -> (r: (
    u8,
    u32,
))
    requires
        2 <= base,
        shift <= 150,
        pow(base as int, fractional_digits as nat) <= u32::MAX,
    ensures
        r.0 as nat == chosen_precision(
            num as nat,
            shift as nat,
            base as nat,
            fractional_digits as nat,
            limit as nat,
        ),
        r.0 <= fractional_digits,
        scaled_at(num as nat, shift as nat, base as nat, r.0 as nat) <= u32::MAX as nat
            ==> r.1 as nat == scaled_at(num as nat, shift as nat, base as nat, r.0 as nat),
        scaled_at(num as nat, shift as nat, base as nat, r.0 as nat) > u32::MAX as nat ==> r.1
            == u32::MAX,
        r.1 >= limit ==> scaled_at(num as nat, shift as nat, base as nat, r.0 as nat) >= limit,
        r.1 < limit ==> scaled_at(num as nat, shift as nat, base as nat, r.0 as nat) == r.1 as nat,
{
    let mut f: u8 = fractional_digits;
    let mut n: u32 = scaled_of(num, shift, base, f);
    while n >= limit && f > 0
        invariant
            2 <= base,
            shift <= 150,
            f <= fractional_digits,
            pow(base as int, f as nat) <= u32::MAX,
            scaled_at(num as nat, shift as nat, base as nat, f as nat) <= u32::MAX as nat
                ==> n as nat == scaled_at(num as nat, shift as nat, base as nat, f as nat),
            scaled_at(num as nat, shift as nat, base as nat, f as nat) > u32::MAX as nat ==> n
                == u32::MAX,
            chosen_precision(
                num as nat,
                shift as nat,
                base as nat,
                fractional_digits as nat,
                limit as nat,
            ) == chosen_precision(num as nat, shift as nat, base as nat, f as nat, limit as nat),
        decreases f,
    {
        proof {
            assert(scaled_at(num as nat, shift as nat, base as nat, f as nat) >= limit as nat);
            lemma_pow_increases(base as nat, (f - 1) as nat, f as nat);
        }
        f = f - 1;
        n = scaled_of(num, shift, base, f);
    }
    (f, n)
}

/// Whether a formatting call from this slot is well-placed: either it will
/// fail cleanly, or its digits, decimal point and sign all fit between the
/// start slot and the display's edge. The formatter requires this; a caller
/// that cannot establish it by proof tests it first.
pub fn update_fits(
    index: crate::Index,
    negative: bool,
    num: u64,
    shift: u8,
    fractional_digits: u8,
    base: u8,
) -> (r: bool)
    requires
        2 <= base,
        base <= 10,
        shift <= 150,
        pow(base as int, fractional_digits as nat) <= u32::MAX,
    ensures
        r == float_fits(
            num as nat,
            shift as nat,
            base as nat,
            fractional_digits as nat,
            index,
            negative,
        ),
{
    let idx: u8 = index.value();
    let sign: u8 = if negative {
        1
    } else {
        0
    };
    let avail: u8 = 4 - idx - sign;
    proof {
        assert(avail as nat == avail_slots(index, negative));
        lemma_limit_bound(base as nat, avail as nat);
    }
    let limit: u32 = pow_u32(base, avail);
    let (f, n) = shrink_precision(num, shift, base, fractional_digits, limit);
    proof {
        lemma_chosen_precision(
            num as nat,
            shift as nat,
            base as nat,
            fractional_digits as nat,
            limit as nat,
        );
        lemma_scaled_monotone(num as nat, shift as nat, base as nat, 0, f as nat);
    }
    if n >= limit {
        true
    } else {
        (f as u16) + 1 + (sign as u16) <= 4 - (idx as u16)
    }
}

/// Render a signed value into the slots from `index` rightwards. The
/// magnitude is the exact rational `num / 2^shift`; `fractional_digits` is
/// the desired count of digits after the point and shrinks adaptively when
/// the scaled integer would overflow the available slots. On success the
/// staged buffer holds, right to left: the value's digits (the point on the
/// digit at the settled precision), the `-` sign for a negative value, and
/// blanks back to `index`; slots left of `index` keep their bytes. The call
/// fails — staging nothing — exactly when even zero fractional digits
/// cannot fit the integer part.
pub fn update_buffer_with_float<D: SegmentDisplay>(
    display: &mut D,
    index: crate::Index,
    negative: bool,
    num: u64,
    shift: u8,
    fractional_digits: u8,
    base: u8,
) -> (result: Result<(), crate::Error>)
    requires
        old(display).rows().len() == 8,
        2 <= base,
        base <= 10,
        shift <= 150,
        pow(base as int, fractional_digits as nat) <= u32::MAX,
        float_fits(
            num as nat,
            shift as nat,
            base as nat,
            fractional_digits as nat,
            index,
            negative,
        ),
    ensures
        result is Err <==> scaled_at(num as nat, shift as nat, base as nat, 0) >= overflow_limit(
            base as nat,
            index,
            negative,
        ),
        result is Err ==> final(display).rows() == old(display).rows(),
        result is Ok ==> ({
            let f = chosen_precision(
                num as nat,
                shift as nat,
                base as nat,
                fractional_digits as nat,
                overflow_limit(base as nat, index, negative),
            );
            let n = scaled_at(num as nat, shift as nat, base as nat, f);
            &&& final(display).rows().len() == 8
            &&& untouched_below(final(display).rows(), old(display).rows(), index.spec_value())
            &&& slots_rendered(
                final(display).rows(),
                index.spec_value(),
                3,
                negative,
                n,
                f,
                base as nat,
            )
        }),
{
    let idx: u8 = index.value();
    let sign: u8 = if negative {
        1
    } else {
        0
    };
    let avail: u8 = 4 - idx - sign;
    proof {
        assert(avail as nat == avail_slots(index, negative));
        lemma_limit_bound(base as nat, avail as nat);
    }
    let limit: u32 = pow_u32(base, avail);
    let (f, n) = shrink_precision(num, shift, base, fractional_digits, limit);
    let ghost gnum = num as nat;
    let ghost gshift = shift as nat;
    let ghost gbase = base as nat;
    proof {
        lemma_chosen_precision(gnum, gshift, gbase, fractional_digits as nat, limit as nat);
        lemma_scaled_monotone(gnum, gshift, gbase, 0, f as nat);
    }
    if n >= limit {
        return Err(crate::Error::InsufficientDigits);
    }
    let ghost gn = n as nat;
    let ghost gf = f as nat;
    let ghost k = emit_count(gn, gf, gbase);
    let ghost rows0 = old(display).rows();
    proof {
        assert(gf + 1 + sign as int <= 4 - idx as int);
        if gn != 0 {
            lemma_num_digits_bound(gn, gbase, avail as nat);
        }
        assert(k <= avail as nat);
        assert(low8(0) == 0 && high8(0) == 0) by (bit_vector);
    }
    let width: u8;
    if n == 0 {
        update_buffer_with_digit(display, crate::Index::from_value(3), 0);
        width = 1;
        proof {
            assert(slots_rendered(display.rows(), 3, 3, negative, gn, gf, gbase));
        }
    } else {
        let mut cur: u32 = n;
        let mut i: u8 = 0;
        proof {
            lemma_pow0(gbase as int);
        }
        while cur != 0 || i <= f
            invariant
                2 <= gbase <= 10,
                gbase == base as nat,
                gf == f as nat,
                gn >= 1,
                gn < limit as nat,
                idx <= 3,
                sign as int == sign_slots(negative),
                avail as int == 4 - idx as int - sign as int,
                k == emit_count(gn, gf, gbase),
                k <= avail as nat,
                i as nat <= k,
                cur as nat == gn / (pow(gbase as int, i as nat) as nat),
                rows0.len() == 8,
                rows0 == old(display).rows(),
                display.rows().len() == 8,
                untouched_below(display.rows(), rows0, 4 - i as int),
                slots_rendered(display.rows(), 4 - i as int, 3, negative, gn, gf, gbase),
            decreases k - i as nat,
        {
            proof {
                lemma_pow_positive(gbase as int, i as nat);
                lemma_digits_exhausted(gn, gbase, i as nat);
                lemma_num_digits_correct(gn, gbase);
                assert((i as nat) < k);
            }
            let d: u8 = (cur % (base as u32)) as u8;
            let slot = crate::Index::from_value(3 - i);
            let ghost before = display.rows();
            update_buffer_with_digit(display, slot, d);
            if f != 0 && i == f {
                update_buffer_with_dot(display, slot, true);
            }
            proof {
                let j0 = 3 - i as int;
                let m = rendered_mask(i as nat, negative, gn, gf, gbase);
                assert(d as nat == digit_at(gn, gbase, i as nat));
                lemma_dot_mask(crate::fonts::digit_font(d));
                assert(display.rows()[2 * j0] == low8(m) && display.rows()[2 * j0 + 1] == high8(
                    m,
                ));
                assert forall|jj: int| #![trigger display.rows()[2 * jj]] 4 - (i as int + 1) <= jj <= 3 implies display.rows()[2 * jj]
                    == low8(rendered_mask((3 - jj) as nat, negative, gn, gf, gbase))
                    && display.rows()[2 * jj + 1] == high8(
                    rendered_mask((3 - jj) as nat, negative, gn, gf, gbase),
                ) by {
                    if jj != j0 {
                        assert(display.rows()[2 * jj] == before[2 * jj]);
                        assert(display.rows()[2 * jj + 1] == before[2 * jj + 1]);
                    }
                }
                assert forall|r: int| 0 <= r < 2 * (4 - (i as int + 1)) implies display.rows()[r]
                    == rows0[r] by {
                    assert(display.rows()[r] == before[r]);
                }
                lemma_pow_adds(gbase as int, i as nat, 1);
                lemma_pow1(gbase as int);
                lemma_div_denominator(
                    gn as int,
                    pow(gbase as int, i as nat),
                    gbase as int,
                );
            }
            cur = cur / (base as u32);
            i = i + 1;
        }
        proof {
            lemma_digits_exhausted(gn, gbase, i as nat);
            lemma_num_digits_correct(gn, gbase);
            assert(i as nat >= k);
        }
        width = i;
    }
    proof {
        assert(width as nat == k);
        assert(slots_rendered(display.rows(), 4 - width as int, 3, negative, gn, gf, gbase));
        assert(untouched_below(display.rows(), rows0, 4 - width as int));
    }
    if negative {
        let slot = crate::Index::from_value(3 - width);
        let ghost before = display.rows();
        update_buffer_with_char(display, slot, 45);
        proof {
            let j1 = 3 - width as int;
            assert(rendered_mask(width as nat, negative, gn, gf, gbase) == crate::fonts::ascii_font(
                45,
            ));
            assert forall|jj: int| #![trigger display.rows()[2 * jj]] j1 <= jj <= 3 implies display.rows()[2 * jj] == low8(
                rendered_mask((3 - jj) as nat, negative, gn, gf, gbase),
            ) && display.rows()[2 * jj + 1] == high8(
                rendered_mask((3 - jj) as nat, negative, gn, gf, gbase),
            ) by {
                if jj != j1 {
                    assert(display.rows()[2 * jj] == before[2 * jj]);
                    assert(display.rows()[2 * jj + 1] == before[2 * jj + 1]);
                }
            }
            assert forall|r: int| 0 <= r < 2 * j1 implies display.rows()[r] == rows0[r] by {
                assert(display.rows()[r] == before[r]);
            }
        }
    }
    let stop: u8 = 4 - width - sign;
    let mut j: u8 = idx;
    proof {
        assert(low8(0) == 0 && high8(0) == 0) by (bit_vector);
    }
    while j < stop
        invariant
            idx <= j <= stop,
            stop as int == 4 - width as int - sign as int,
            idx as int == index.spec_value(),
            sign as int == sign_slots(negative),
            width as nat == k,
            k == emit_count(gn, gf, gbase),
            rows0.len() == 8,
            rows0 == old(display).rows(),
            display.rows().len() == 8,
            untouched_below(display.rows(), rows0, idx as int),
            slots_rendered(display.rows(), stop as int, 3, negative, gn, gf, gbase),
            slots_rendered(display.rows(), idx as int, j as int - 1, negative, gn, gf, gbase),
            forall|r: int| 2 * j <= r < 2 * stop ==> display.rows()[r] == rows0[r],
        decreases stop - j,
    {
        let ghost before = display.rows();
        clear_slot(display, crate::Index::from_value(j));
        proof {
            assert(low8(0) == 0 && high8(0) == 0) by (bit_vector);
            assert(rendered_mask((3 - j as int) as nat, negative, gn, gf, gbase) == 0);
            assert forall|jj: int| #![trigger display.rows()[2 * jj]] stop as int <= jj <= 3 implies display.rows()[2 * jj] == low8(
                rendered_mask((3 - jj) as nat, negative, gn, gf, gbase),
            ) && display.rows()[2 * jj + 1] == high8(
                rendered_mask((3 - jj) as nat, negative, gn, gf, gbase),
            ) by {
                assert(display.rows()[2 * jj] == before[2 * jj]);
                assert(display.rows()[2 * jj + 1] == before[2 * jj + 1]);
            }
            assert forall|jj: int| #![trigger display.rows()[2 * jj]] idx as int <= jj <= j as int implies display.rows()[2 * jj]
                == low8(rendered_mask((3 - jj) as nat, negative, gn, gf, gbase))
                && display.rows()[2 * jj + 1] == high8(
                rendered_mask((3 - jj) as nat, negative, gn, gf, gbase),
            ) by {
                if jj != j as int {
                    assert(display.rows()[2 * jj] == before[2 * jj]);
                    assert(display.rows()[2 * jj + 1] == before[2 * jj + 1]);
                }
            }
            assert forall|r: int| 2 * (j as int + 1) <= r < 2 * stop as int implies display.rows()[r]
                == rows0[r] by {
                assert(display.rows()[r] == before[r]);
            }
            assert forall|r: int| 0 <= r < 2 * idx as int implies display.rows()[r] == rows0[r] by {
                assert(display.rows()[r] == before[r]);
            }
        }
        j = j + 1;
    }
    proof {
        assert(slots_rendered(display.rows(), idx as int, 3, negative, gn, gf, gbase));
    }
    Ok(())
}

/// Rounding is half away from zero on the sign-stripped magnitude: when the
/// scaled magnitude lands exactly on a half — `2 * num * base^f` an odd
/// multiple of `2^shift`, i.e. `num / 2^shift * base^f == k + 1/2` — the
/// retained integer rounds up to `k + 1`.
pub proof fn lemma_round_half_up(num: nat, shift: nat, base: nat, f: nat, k: nat)
    requires
        2 * num * pow(base as int, f) == (2 * k + 1) * pow2(shift),
    ensures
        scaled_at(num, shift, base, f) == k + 1,
{
    lemma_pow2_adds(shift, 1);
    lemma2_to64();
    lemma_pow2_pos((shift + 1) as nat);
    assert(2 * num * pow(base as int, f) + pow2(shift) == pow2((shift + 1) as nat) * (k + 1))
        by (nonlinear_arith)
        requires
            2 * num * pow(base as int, f) == (2 * k + 1) * pow2(shift),
            pow2((shift + 1) as nat) == pow2(shift) * pow2(1),
            pow2(1) == 2,
    ;
    vstd::arithmetic::div_mod::lemma_div_multiples_vanish(
        k as int + 1,
        pow2((shift + 1) as nat) as int,
    );
}

} // verus!
