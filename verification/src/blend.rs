//! Blending of one colour channel between two pictures.
//!
//! A channel is blended as double-precision arithmetic blends it: the blend
//! amount `1.0 - distance / sweep_width` and the blend
//! `c1 + (c2 - c1) * amount` are computed step by step, each step rounded to
//! a double, and only the final sum is cut off to a byte.

use vstd::prelude::*;
use vstd::arithmetic::div_mod::{
    lemma_fundamental_div_mod, lemma_fundamental_div_mod_converse, lemma_mod_pos_bound,
};
use crate::double::{
    lemma_rounded_at_most_one, lemma_rounded_is_not_negative, lemma_rounded_is_positive,
    lemma_rounded_zero, lemma_whole_is_double, nearest_double, rounded, scaled_quotient,
    SIGNIFICAND_LIMIT, UNIT,
};

verus! {

/// The double nearest to nine tenths, in units of `2^-116`.
pub const NINE_TENTHS: u128 = 0xE_6666_6666_6666_8000_0000_0000_0000;

/// The double nearest to four fifths is this number divided by `2^53`.
pub const FOUR_FIFTHS: u128 = 0x19_9999_9999_999A;

/// How the raw blend amount is bent before the linear blend.
#[derive(Clone, Copy, Debug, PartialEq, Eq, Structural)]
pub enum Easing {
    /// The amount is used as it is.
    Linear,
    /// An amount above nine tenths snaps to the full "after" value; any other
    /// amount is scaled by four fifths.
    SnapThenScale,
}

/// A blend amount: a double between 0 and 1. Beside it stands four fifths of
/// it, so that a column's amount is eased once and not once for every byte of
/// the column.
#[derive(Clone, Copy, Debug)]
pub struct Amount {
    units: u128,
    eased: u128,
}

/// The amount by which a column `distance` columns behind the leading edge
/// of a sweep `span` columns wide is blended: `1.0 - distance / span` in
/// doubles. Both numbers are converted, the quotient is rounded, and so is
/// the difference. Where the quotient is 1, as it is when both numbers
/// convert to the same double, the amount is 0.
pub open spec fn amount_behind(distance: int, span: int) -> int {
    let d = rounded(distance, 1);
    let s = rounded(span, 1);
    if d >= s {
        0
    } else {
        let quotient = rounded(d * UNIT, s);
        if quotient >= UNIT {
            0
        } else {
            rounded(UNIT - quotient, 1)
        }
    }
}

/// A double as a channel value: its fraction cut off, and 255 for anything
/// above.
pub open spec fn shown(value: int) -> int {
    if value / (UNIT as int) > 255 {
        255
    } else {
        value / (UNIT as int)
    }
}

/// `c1 + (c2 - c1) * weight` in doubles: the product is rounded, then the
/// sum, and the sum is cut to a channel value. A sum below zero shows as 0.
pub open spec fn mixed(c1: int, c2: int, weight: int) -> int {
    if c2 >= c1 {
        shown(rounded(c1 * UNIT + rounded((c2 - c1) * weight, 1), 1))
    } else {
        let product = rounded((c1 - c2) * weight, 1);
        if product > c1 * UNIT {
            0
        } else {
            shown(rounded(c1 * UNIT - product, 1))
        }
    }
}

/// The channel value that blending `c1` towards `c2` by `amount` gives under
/// `easing`.
pub open spec fn blended(c1: int, c2: int, amount: int, easing: Easing) -> int {
    match easing {
        Easing::Linear => mixed(c1, c2, amount),
        Easing::SnapThenScale => if amount > NINE_TENTHS {
            c2
        } else {
            mixed(c1, c2, rounded(amount * FOUR_FIFTHS, SIGNIFICAND_LIMIT as int))
        },
    }
}

impl Amount {
    /// The amount is at most 1, and what stands beside it is four fifths
    /// of it.
    #[verifier::type_invariant]
    pub closed spec fn wf(self) -> bool {
        &&& self.units <= UNIT
        &&& self.eased <= 0x40_0000_0000_0000_0000_0000_0000_0000
        &&& self.eased == rounded(self.units * FOUR_FIFTHS, SIGNIFICAND_LIMIT as int)
    }

    /// The amount, in units of `2^-116`.
    pub closed spec fn units(self) -> int {
        self.units as int
    }

    /// The amount for a column `distance` columns behind the leading edge of
    /// a sweep `span` columns wide, if the column is no further behind than
    /// the sweep is wide.
    pub fn behind(distance: usize, span: usize) -> (r: Option<Amount>)
        ensures
            r is Some <==> span > 0 && distance <= span,
            r matches Some(a) ==> a.wf() && a.units() == amount_behind(
                distance as int,
                span as int,
            ),
            r matches Some(a) ==> 0 <= a.units() <= UNIT,
            r matches Some(a) ==> (distance == 0 ==> a.units() == UNIT),
            r matches Some(a) ==> (distance == span ==> a.units() == 0),
    {
        if span == 0 || distance > span {
            return None;
        }
        proof {
            lemma_amount_at_the_ends(span as int);
            lemma_amount_in_unit_interval(distance as int, span as int);
        }
        let d: u128 = nearest_double(distance as u128, 0, 1);
        let s: u128 = nearest_double(span as u128, 0, 1);
        if d >= s {
            return Some(Amount { units: 0, eased: four_fifths_of(0) });
        }
        assert(s <= 0x2_0000_0000_0000_0000);
        let (whole, rest) = scaled_quotient(d, s);
        let quotient: u128 = nearest_double(whole, rest, s);
        if quotient >= UNIT {
            return Some(Amount { units: 0, eased: four_fifths_of(0) });
        }
        let units: u128 = nearest_double(UNIT - quotient, 0, 1);
        Some(Amount { units, eased: four_fifths_of(units) })
    }
}

/// Blends channel `c1` towards `c2` by `amount`, as double arithmetic does:
/// `c1 + (c2 - c1) * amount`, each step rounded, the result cut off to a
/// channel value. With `Easing::SnapThenScale` an amount above nine tenths
/// gives `c2` itself, and any other amount is first scaled by four fifths.
/// Blending a channel with itself gives that channel; the amount 1 gives
/// `c2` and the amount 0 gives `c1`.
pub fn interpolate(c1: u8, c2: u8, amount: Amount, easing: Easing) -> (r: u8)
    ensures
        r == blended(c1 as int, c2 as int, amount.units(), easing),
        c1 == c2 ==> r == c1,
        amount.units() == UNIT ==> r == c2,
        amount.units() == 0 ==> r == c1,
{
    proof {
        use_type_invariant(&amount);
        lemma_blend_same(c1 as int, amount.units(), easing);
        lemma_blend_full(c1 as int, c2 as int, easing);
        lemma_blend_none(c1 as int, c2 as int, easing);
    }
    match easing {
        Easing::Linear => mix(c1, c2, amount.units),
        Easing::SnapThenScale => {
            if amount.units > NINE_TENTHS {
                c2
            } else {
                mix(c1, c2, amount.eased)
            }
        },
    }
}

/// Four fifths of `amount`, rounded to a double.
fn four_fifths_of(amount: u128) -> (r: u128)
    requires
        amount <= UNIT,
    ensures
        r == rounded(amount * FOUR_FIFTHS, SIGNIFICAND_LIMIT as int),
        r <= 0x40_0000_0000_0000_0000_0000_0000_0000,
{
    let high: u128 = amount / SIGNIFICAND_LIMIT;
    let low: u128 = amount % SIGNIFICAND_LIMIT;
    let part: u128 = low * FOUR_FIFTHS;
    let carry: u128 = part / SIGNIFICAND_LIMIT;
    let rest: u128 = part % SIGNIFICAND_LIMIT;
    proof {
        assert(high * FOUR_FIFTHS <= 0x1_0000_0000_0000_0000 * 0x19_9999_9999_999A)
            by (nonlinear_arith)
            requires
                high <= 0x1_0000_0000_0000_0000,
                FOUR_FIFTHS == 0x19_9999_9999_999A,
        ;
        assert(high <= 0x1_0000_0000_0000_0000);
    }
    let whole: u128 = high * FOUR_FIFTHS + carry;
    proof {
        assert(whole * SIGNIFICAND_LIMIT + rest == amount * FOUR_FIFTHS) by (nonlinear_arith)
            requires
                amount == SIGNIFICAND_LIMIT * high + low,
                part == low * FOUR_FIFTHS,
                part == SIGNIFICAND_LIMIT * carry + rest,
                whole == high * FOUR_FIFTHS + carry,
        ;
    }
    nearest_double(whole, rest, SIGNIFICAND_LIMIT)
}

/// `mixed` on machine integers.
fn mix(c1: u8, c2: u8, weight: u128) -> (r: u8)
    requires
        weight <= 0x40_0000_0000_0000_0000_0000_0000_0000,
    ensures
        r == mixed(c1 as int, c2 as int, weight as int),
{
    let base: u128 = (c1 as u128) * UNIT;
    if c2 >= c1 {
        let diff: u128 = (c2 - c1) as u128;
        proof {
            assert(diff * weight <= 255 * 0x40_0000_0000_0000_0000_0000_0000_0000)
                by (nonlinear_arith)
                requires
                    diff <= 255,
                    weight <= 0x40_0000_0000_0000_0000_0000_0000_0000,
            ;
        }
        let product: u128 = nearest_double(diff * weight, 0, 1);
        let sum: u128 = nearest_double(base + product, 0, 1);
        show(sum)
    } else {
        let diff: u128 = (c1 - c2) as u128;
        proof {
            assert(diff * weight <= 255 * 0x40_0000_0000_0000_0000_0000_0000_0000)
                by (nonlinear_arith)
                requires
                    diff <= 255,
                    weight <= 0x40_0000_0000_0000_0000_0000_0000_0000,
            ;
        }
        let product: u128 = nearest_double(diff * weight, 0, 1);
        if product > base {
            0
        } else {
            let sum: u128 = nearest_double(base - product, 0, 1);
            show(sum)
        }
    }
}

/// `shown` on machine integers.
fn show(value: u128) -> (r: u8)
    ensures
        r == shown(value as int),
{
    let whole: u128 = value / UNIT;
    if whole > 255 {
        255
    } else {
        whole as u8
    }
}

/// A blended channel is a byte.
pub proof fn lemma_blend_is_byte(c1: int, c2: int, amount: int, easing: Easing)
    requires
        0 <= c1 <= 255,
        0 <= c2 <= 255,
        0 <= amount,
    ensures
        0 <= blended(c1, c2, amount, easing) <= 255,
{
    lemma_mix_is_byte(c1, c2, amount);
    assert(0 <= amount * FOUR_FIFTHS) by (nonlinear_arith)
        requires
            0 <= amount,
    ;
    lemma_rounded_is_not_negative(amount * FOUR_FIFTHS, SIGNIFICAND_LIMIT as int);
    lemma_mix_is_byte(c1, c2, rounded(amount * FOUR_FIFTHS, SIGNIFICAND_LIMIT as int));
}

proof fn lemma_mix_is_byte(c1: int, c2: int, weight: int)
    requires
        0 <= c1 <= 255,
        0 <= c2 <= 255,
        0 <= weight,
    ensures
        0 <= mixed(c1, c2, weight) <= 255,
{
    if c2 >= c1 {
        assert(0 <= (c2 - c1) * weight) by (nonlinear_arith)
            requires
                0 <= c2 - c1,
                0 <= weight,
        ;
        lemma_rounded_is_not_negative((c2 - c1) * weight, 1);
        let sum = c1 * UNIT + rounded((c2 - c1) * weight, 1);
        lemma_rounded_is_not_negative(sum, 1);
        lemma_shown_is_byte(rounded(sum, 1));
    } else {
        assert(0 <= (c1 - c2) * weight) by (nonlinear_arith)
            requires
                0 <= c1 - c2,
                0 <= weight,
        ;
        let product = rounded((c1 - c2) * weight, 1);
        if product <= c1 * UNIT {
            lemma_rounded_is_not_negative(c1 * UNIT - product, 1);
            lemma_shown_is_byte(rounded(c1 * UNIT - product, 1));
        }
    }
}

proof fn lemma_shown_is_byte(value: int)
    requires
        0 <= value,
    ensures
        0 <= shown(value) <= 255,
{
    lemma_fundamental_div_mod(value, UNIT as int);
    lemma_mod_pos_bound(value, UNIT as int);
}

/// Blending a channel with itself changes nothing, whatever the amount and
/// the easing.
pub proof fn lemma_blend_same(c: int, amount: int, easing: Easing)
    requires
        0 <= c <= 255,
    ensures
        blended(c, c, amount, easing) == c,
{
    lemma_mix_same(c, amount);
    lemma_mix_same(c, rounded(amount * FOUR_FIFTHS, SIGNIFICAND_LIMIT as int));
}

proof fn lemma_mix_same(c: int, weight: int)
    requires
        0 <= c <= 255,
    ensures
        mixed(c, c, weight) == c,
{
    assert((c - c) * weight == 0) by (nonlinear_arith);
    lemma_whole_is_double(0);
    lemma_whole_is_double(c);
    lemma_shown_whole(c);
}

/// A whole number from 0 to 255 shows as itself.
proof fn lemma_shown_whole(c: int)
    requires
        0 <= c <= 255,
    ensures
        shown(c * UNIT) == c,
{
    lemma_fundamental_div_mod_converse(c * UNIT, UNIT as int, c, 0);
}

/// The amount 1 gives the second channel exactly, under either easing.
pub proof fn lemma_blend_full(c1: int, c2: int, easing: Easing)
    requires
        0 <= c1 <= 255,
        0 <= c2 <= 255,
    ensures
        blended(c1, c2, UNIT as int, easing) == c2,
{
    if c2 >= c1 {
        lemma_whole_is_double(c2 - c1);
        assert((c2 - c1) * UNIT == (c2 - c1) * (UNIT as int));
        assert(c1 * UNIT + (c2 - c1) * UNIT == c2 * UNIT) by (nonlinear_arith);
    } else {
        lemma_whole_is_double(c1 - c2);
        assert(c1 * UNIT - (c1 - c2) * UNIT == c2 * UNIT) by (nonlinear_arith);
        assert((c1 - c2) * UNIT <= c1 * UNIT) by (nonlinear_arith)
            requires
                0 <= c2,
        ;
    }
    lemma_whole_is_double(c2);
    lemma_shown_whole(c2);
}

/// The amount 0 gives the first channel exactly, under either easing.
pub proof fn lemma_blend_none(c1: int, c2: int, easing: Easing)
    requires
        0 <= c1 <= 255,
        0 <= c2 <= 255,
    ensures
        blended(c1, c2, 0, easing) == c1,
{
    lemma_whole_is_double(0);
    assert(0 * FOUR_FIFTHS == 0);
    lemma_rounded_zero(SIGNIFICAND_LIMIT as int);
    assert((c2 - c1) * 0 == 0);
    assert((c1 - c2) * 0 == 0);
    lemma_whole_is_double(c1);
    lemma_shown_whole(c1);
}

/// On the leading edge the amount is 1; a whole sweep width behind it the
/// amount is 0.
pub proof fn lemma_amount_at_the_ends(span: int)
    requires
        0 < span,
    ensures
        amount_behind(0, span) == UNIT,
        amount_behind(span, span) == 0,
{
    lemma_whole_is_double(0);
    lemma_whole_is_double(1);
    assert(rounded(0, 1) == 0);
    lemma_rounded_is_positive(span);
    let s = rounded(span, 1);
    assert(0 * UNIT == 0);
    lemma_rounded_zero(s);
    assert(1 * UNIT == UNIT);
}

/// A blend amount lies between 0 and 1.
pub proof fn lemma_amount_in_unit_interval(distance: int, span: int)
    requires
        0 <= distance,
        0 < span,
    ensures
        0 <= amount_behind(distance, span) <= UNIT,
{
    let d = rounded(distance, 1);
    let s = rounded(span, 1);
    lemma_rounded_is_not_negative(distance, 1);
    lemma_rounded_is_positive(span);
    if d < s {
        assert(0 <= d * UNIT) by (nonlinear_arith)
            requires
                0 <= d,
        ;
        let quotient = rounded(d * UNIT, s);
        lemma_rounded_is_not_negative(d * UNIT, s);
        if quotient < UNIT {
            lemma_rounded_is_not_negative(UNIT - quotient, 1);
            lemma_rounded_at_most_one(UNIT - quotient);
        }
    }
}

} // verus!
