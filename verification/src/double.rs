//! Double-precision arithmetic on integers.
//!
//! Blends are computed as IEEE 754 double arithmetic computes them, without
//! a floating-point type. A quantity is held as a whole number of units of
//! `2^-116`. A double that is a whole number of units is a whole number with
//! at most 53 significant bits, and every such number stands for a double.
//! An operation forms its exact result, a whole number or a fraction of two
//! whole numbers, and `rounded` takes it to the nearest double, ties to the
//! even one.
//!
//! `rounded` is the rounding of the hardware for every fraction that is
//! either a whole number below `2^53` units or at least `2^52` units, which
//! is `2^-64`: there the doubles on both sides of the fraction are whole
//! numbers of units. The fractions that blending rounds are of that kind. A
//! quotient of a distance other than zero by a sweep width is at least
//! `2^-64`, a blend amount other than zero is at least `2^-53`, and products,
//! sums and differences of doubles are whole numbers. All of them are far from
//! the subnormal and from the infinite.

use vstd::prelude::*;
use vstd::arithmetic::div_mod::{
    lemma_div_denominator, lemma_fundamental_div_mod, lemma_fundamental_div_mod_converse,
    lemma_mod_pos_bound,
};
use vstd::arithmetic::power2::{lemma2_to64, lemma2_to64_rest, lemma_pow2_adds, pow2};

verus! {

/// The number 1, in units of `2^-116`.
pub const UNIT: u128 = 0x10_0000_0000_0000_0000_0000_0000_0000;

/// `2^53`: a double has fewer significant bits than this number.
pub const SIGNIFICAND_LIMIT: u128 = 0x20_0000_0000_0000;

/// The gap between neighbouring doubles at `x`: the power of two `u` for
/// which `x / u` has 53 significant bits, and 1 for an `x` of fewer bits.
pub open spec fn ulp_of(x: int) -> int
    decreases x,
{
    if x < SIGNIFICAND_LIMIT {
        1
    } else {
        2 * ulp_of(x / 2)
    }
}

/// The double nearest to the fraction `n / d`: the multiple of the gap at
/// `n / d` that lies nearest to it, and of two that lie equally near the even
/// one. A whole number `x` is rounded as the fraction `x / 1`.
pub open spec fn rounded(n: int, d: int) -> int {
    let ulp = ulp_of(n / d);
    let below = n / (d * ulp);
    let rest = n % (d * ulp);
    if 2 * rest < d * ulp || (2 * rest == d * ulp && below % 2 == 0) {
        below * ulp
    } else {
        (below + 1) * ulp
    }
}

/// Whether `x` has at most 53 significant bits: whether it is a double.
pub open spec fn is_double(x: int) -> bool
    decreases x,
{
    x < SIGNIFICAND_LIMIT || (x % 2 == 0 && is_double(x / 2))
}

/// What `gap_at` keeps true of a candidate gap and the multiple of it just
/// below `x`, while it narrows them down.
spec fn narrowing(x: int, below: int, gap: int) -> bool {
    &&& gap >= 1
    &&& below == x / gap
    &&& below * gap <= x < (below + 1) * gap
    &&& ulp_of(x) == gap * ulp_of(below)
    &&& (gap == 1 || (gap % 2 == 0 && gap * 0x10_0000_0000_0000 <= x))
}

/// Halving `x` `k` times halves the gap `k` times, as long as 53 bits stay.
proof fn lemma_gap_of_shifted(x: int, k: nat)
    requires
        x >= 0x10_0000_0000_0000 * pow2(k),
    ensures
        ulp_of(x) == pow2(k) * ulp_of(x / (pow2(k) as int)),
    decreases k,
{
    lemma2_to64();
    if k == 0 {
        assert(x / 1 == x);
    } else {
        let half = pow2((k - 1) as nat) as int;
        vstd::arithmetic::power2::lemma_pow2_pos((k - 1) as nat);
        assert(pow2(k) == 2 * half) by {
            lemma_pow2_adds(1, (k - 1) as nat);
        }
        assert(x >= 0x20_0000_0000_0000) by (nonlinear_arith)
            requires
                x >= 0x10_0000_0000_0000 * (2 * half),
                half >= 1,
        ;
        assert(x / 2 >= 0x10_0000_0000_0000 * half) by (nonlinear_arith)
            requires
                x >= 0x10_0000_0000_0000 * (2 * half),
        ;
        lemma_gap_of_shifted(x / 2, (k - 1) as nat);
        lemma_div_denominator(x, 2, half);
        assert(2 * (half * ulp_of(x / 2 / half)) == (2 * half) * ulp_of(x / 2 / half))
            by (nonlinear_arith);
    }
}

/// One step of `gap_at`: where `below` still has `k` bits too many or more,
/// it loses `k` bits to the gap.
fn narrow(x: u128, below: u128, gap: u128, factor: u128, Ghost(k): Ghost<nat>) -> (r: (
    u128,
    u128,
))
    requires
        narrowing(x as int, below as int, gap as int),
        factor == pow2(k),
        factor % 2 == 0,
        2 <= factor <= 0x1_0000_0000_0000_0000,
        below < 0x10_0000_0000_0000 * factor * factor,
    ensures
        narrowing(x as int, r.0 as int, r.1 as int),
        r.0 < 0x10_0000_0000_0000 * factor,
        r.0 <= below,
{
    if below >= 0x10_0000_0000_0000 * factor {
        proof {
            let b = below as int;
            let g = gap as int;
            let f = factor as int;
            lemma_gap_of_shifted(b, k);
            lemma_div_denominator(x as int, g, f);
            lemma_fundamental_div_mod(b, f);
            lemma_mod_pos_bound(b, f);
            assert(g * (f * ulp_of(b / f)) == (g * f) * ulp_of(b / f)) by (nonlinear_arith);
            assert((b / f) * (g * f) <= x < (b / f + 1) * (g * f)) by (nonlinear_arith)
                requires
                    b * g <= x < (b + 1) * g,
                    b == f * (b / f) + b % f,
                    0 <= b % f < f,
                    g >= 1,
            ;
            assert((g * f) * 0x10_0000_0000_0000 <= x && (g * f) % 2 == 0) by (nonlinear_arith)
                requires
                    b * g <= x,
                    b >= 0x10_0000_0000_0000 * f,
                    g >= 1,
                    f % 2 == 0,
                    f >= 2,
            ;
            assert(b / f < 0x10_0000_0000_0000 * f) by (nonlinear_arith)
                requires
                    b == f * (b / f) + b % f,
                    0 <= b % f,
                    b < 0x10_0000_0000_0000 * f * f,
                    f >= 2,
            ;
        }
        (below / factor, gap * factor)
    } else {
        (below, gap)
    }
}

/// `ulp_of`, and the multiple of it just below `x`, on machine integers.
fn gap_at(x: u128) -> (r: (u128, u128))
    ensures
        r.0 == ulp_of(x as int),
        r.1 == x as int / r.0 as int,
        r.0 >= 1,
        r.1 < SIGNIFICAND_LIMIT,
        r.1 * r.0 <= x < (r.1 + 1) * r.0,
        r.0 == 1 || (r.0 % 2 == 0 && r.0 * 0x10_0000_0000_0000 <= x),
{
    proof {
        lemma2_to64();
        assert(x as int / 1 == x);
    }
    let (below, gap) = narrow(x, x, 1, 0x1_0000_0000_0000_0000, Ghost(64));
    let (below, gap) = narrow(x, below, gap, 0x1_0000_0000, Ghost(32));
    let (below, gap) = narrow(x, below, gap, 0x1_0000, Ghost(16));
    let (below, gap) = narrow(x, below, gap, 0x100, Ghost(8));
    let (below, gap) = narrow(x, below, gap, 0x10, Ghost(4));
    let (below, gap) = narrow(x, below, gap, 4, Ghost(2));
    let (below, gap) = narrow(x, below, gap, 2, Ghost(1));
    (gap, below)
}

/// Rounds the fraction `(x * d + rest) / d`, given by its whole part `x` and
/// what is left over, to the nearest double.
pub(crate) fn nearest_double(x: u128, rest: u128, d: u128) -> (r: u128)
    requires
        rest < d,
        d <= 0x2_0000_0000_0000_0000,
        x <= 0xC000_0000_0000_0000_0000_0000_0000_0000,
    ensures
        r == rounded(x * d + rest, d as int),
        r <= x + ulp_of(x as int),
        ulp_of(x as int) == 1 || ulp_of(x as int) * 0x10_0000_0000_0000 <= x,
{
    let (gap, below) = gap_at(x);
    proof {
        assert((below + 1) * gap == below * gap + gap) by (nonlinear_arith);
    }
    let low: u128 = x - below * gap;
    let ghost n: int = x * d + rest;
    let ghost wide: int = d * gap;
    let ghost left: int = low * d + rest;
    proof {
        lemma_fundamental_div_mod_converse(n, d as int, x as int, rest as int);
        assert(n == below * wide + left && 0 <= left < wide) by (nonlinear_arith)
            requires
                n == x * d + rest,
                wide == d * gap,
                left == low * d + rest,
                x == below * gap + low,
                0 <= low < gap,
                0 <= rest < d,
        ;
        lemma_fundamental_div_mod_converse(n, wide, below as int, left);
    }
    let up: bool = if gap == 1 {
        2 * rest > d || (2 * rest == d && below % 2 == 1)
    } else {
        let half: u128 = gap / 2;
        proof {
            assert(low > half ==> 2 * left > wide) by (nonlinear_arith)
                requires
                    left == low * d + rest,
                    wide == d * gap,
                    gap == 2 * half,
                    0 <= rest,
                    0 < d,
            ;
            assert(low < half ==> 2 * left < wide) by (nonlinear_arith)
                requires
                    left == low * d + rest,
                    wide == d * gap,
                    gap == 2 * half,
                    0 <= rest < d,
            ;
            assert(low == half ==> 2 * left == wide + 2 * rest) by (nonlinear_arith)
                requires
                    left == low * d + rest,
                    wide == d * gap,
                    gap == 2 * half,
            ;
        }
        low > half || (low == half && (rest > 0 || below % 2 == 1))
    };
    if up {
        (below + 1) * gap
    } else {
        below * gap
    }
}

/// The whole part of `d / s` in units of `2^-116`, and what is left over.
pub(crate) fn scaled_quotient(d: u128, s: u128) -> (r: (u128, u128))
    requires
        d < s,
        s <= 0x2_0000_0000_0000_0000,
    ensures
        r.0 * s + r.1 == d * UNIT,
        r.1 < s,
        r.0 < UNIT,
{
    let high: u128 = d * 0x400_0000_0000_0000;
    let q1: u128 = high / s;
    let r1: u128 = high % s;
    let low: u128 = r1 * 0x400_0000_0000_0000;
    let q2: u128 = low / s;
    let r2: u128 = low % s;
    proof {
        lemma_fundamental_div_mod(high as int, s as int);
        lemma_fundamental_div_mod(low as int, s as int);
        assert(q1 < 0x400_0000_0000_0000 && q2 < 0x400_0000_0000_0000) by (nonlinear_arith)
            requires
                high == s * q1 + r1,
                low == s * q2 + r2,
                high == d * 0x400_0000_0000_0000,
                low == r1 * 0x400_0000_0000_0000,
                d < s,
                r1 < s,
                0 <= r2,
        ;
        assert((q1 * 0x400_0000_0000_0000 + q2) * s + r2 == d * UNIT) by (nonlinear_arith)
            requires
                high == s * q1 + r1,
                low == s * q2 + r2,
                high == d * 0x400_0000_0000_0000,
                low == r1 * 0x400_0000_0000_0000,
                UNIT == 0x400_0000_0000_0000 * 0x400_0000_0000_0000,
        ;
    }
    (q1 * 0x400_0000_0000_0000 + q2, r2)
}

/// The gap between doubles is at least one unit.
pub proof fn lemma_gap_is_positive(x: int)
    ensures
        ulp_of(x) >= 1,
    decreases x,
{
    if x >= SIGNIFICAND_LIMIT {
        lemma_gap_is_positive(x / 2);
    }
}

/// Rounding a fraction that is not negative gives a double that is not
/// negative.
pub proof fn lemma_rounded_is_not_negative(n: int, d: int)
    requires
        0 <= n,
        0 < d,
    ensures
        0 <= rounded(n, d),
{
    let u = ulp_of(n / d);
    lemma_gap_is_positive(n / d);
    let gap = d * u;
    assert(gap >= 1) by (nonlinear_arith)
        requires
            gap == d * u,
            d >= 1,
            u >= 1,
    ;
    lemma_fundamental_div_mod(n, gap);
    lemma_mod_pos_bound(n, gap);
    let below = n / gap;
    assert(below >= 0) by (nonlinear_arith)
        requires
            n == gap * below + n % gap,
            0 <= n % gap < gap,
            0 <= n,
    ;
    assert(below * u >= 0 && (below + 1) * u >= 0) by (nonlinear_arith)
        requires
            below >= 0,
            u >= 1,
    ;
}

/// Rounding leaves a double as it is.
pub proof fn lemma_double_is_fixed(x: int)
    requires
        0 <= x,
        is_double(x),
    ensures
        rounded(x, 1) == x,
{
    lemma_double_is_on_grid(x);
    let u = ulp_of(x);
    lemma_gap_is_positive(x);
    lemma_fundamental_div_mod(x, u);
    assert(u * (x / u) == (x / u) * u) by (nonlinear_arith);
}

/// A double is a multiple of the gap between doubles at its place.
proof fn lemma_double_is_on_grid(x: int)
    requires
        0 <= x,
        is_double(x),
    ensures
        x % ulp_of(x) == 0,
    decreases x,
{
    if x < SIGNIFICAND_LIMIT {
        assert(x % 1 == 0);
    } else {
        let y = x / 2;
        let v = ulp_of(y);
        lemma_double_is_on_grid(y);
        lemma_gap_is_positive(y);
        lemma_fundamental_div_mod(y, v);
        assert(x == (y / v) * (2 * v) + 0) by (nonlinear_arith)
            requires
                x == 2 * y,
                y == v * (y / v) + y % v,
                y % v == 0,
        ;
        lemma_fundamental_div_mod_converse(x, 2 * v, y / v, 0);
    }
}

/// A number of fewer than 53 bits, multiplied by a power of two, is a double.
proof fn lemma_shifted_is_double(m: int, shift: nat)
    requires
        0 <= m < SIGNIFICAND_LIMIT,
    ensures
        is_double(m * pow2(shift)),
        0 <= m * pow2(shift),
    decreases shift,
{
    reveal(pow2);
    if shift == 0 {
        assert(pow2(0) == 1) by {
            lemma2_to64();
        }
    } else {
        lemma_shifted_is_double(m, (shift - 1) as nat);
        let half = m * pow2((shift - 1) as nat);
        assert(pow2(shift) == 2 * pow2((shift - 1) as nat)) by {
            lemma_pow2_adds(1, (shift - 1) as nat);
            lemma2_to64();
        }
        assert(m * pow2(shift) == 2 * half) by (nonlinear_arith)
            requires
                pow2(shift) == 2 * pow2((shift - 1) as nat),
                half == m * pow2((shift - 1) as nat),
        ;
    }
}

/// A whole number below `2^53`, in units of `2^-116`, is a double.
pub proof fn lemma_whole_is_double(c: int)
    requires
        0 <= c < SIGNIFICAND_LIMIT,
    ensures
        is_double(c * UNIT),
        rounded(c * UNIT, 1) == c * UNIT,
        0 <= c * UNIT,
{
    lemma_shifted_is_double(c, 116);
    assert(pow2(116) == UNIT) by {
        lemma2_to64();
        lemma2_to64_rest();
        lemma_pow2_adds(64, 52);
    }
    lemma_double_is_fixed(c * UNIT);
}

/// Zero rounds to zero, whatever it is a fraction of.
pub proof fn lemma_rounded_zero(d: int)
    requires
        0 < d,
    ensures
        rounded(0, d) == 0,
{
    assert(0int / d == 0) by (nonlinear_arith)
        requires
            d > 0,
    ;
    assert(ulp_of(0) == 1);
    assert(0int / (d * 1) == 0) by (nonlinear_arith)
        requires
            d > 0,
    ;
    assert(0int % (d * 1) == 0) by (nonlinear_arith)
        requires
            d > 0,
    ;
}

/// The gap at a number of at most `53 + j` bits divides `2^j`.
proof fn lemma_gap_divides(x: int, j: nat)
    requires
        0 <= x < SIGNIFICAND_LIMIT * pow2(j),
    ensures
        pow2(j) as int % ulp_of(x) == 0,
    decreases j,
{
    lemma2_to64();
    if x < SIGNIFICAND_LIMIT {
        assert(pow2(j) as int % 1 == 0);
    } else {
        assert(j >= 1);
        let h = pow2((j - 1) as nat) as int;
        assert(pow2(j) == 2 * h) by {
            lemma_pow2_adds(1, (j - 1) as nat);
        }
        lemma_gap_divides(x / 2, (j - 1) as nat);
        let v = ulp_of(x / 2);
        lemma_gap_is_positive(x / 2);
        lemma_fundamental_div_mod(h, v);
        assert(2 * h == (h / v) * (2 * v) + 0) by (nonlinear_arith)
            requires
                h == v * (h / v) + h % v,
                h % v == 0,
        ;
        lemma_fundamental_div_mod_converse(2 * h, 2 * v, h / v, 0);
    }
}

/// Rounding a number that is at most 1 gives at most 1.
pub proof fn lemma_rounded_at_most_one(x: int)
    requires
        0 <= x <= UNIT,
    ensures
        rounded(x, 1) <= UNIT,
{
    if x == UNIT {
        lemma_whole_is_double(1);
        assert(1 * UNIT == UNIT);
    } else {
        lemma2_to64();
        lemma2_to64_rest();
        assert(pow2(63) == 0x8000_0000_0000_0000);
        lemma_gap_divides(x, 63);
        let u = ulp_of(x);
        lemma_gap_is_positive(x);
        let p = pow2(63) as int;
        lemma_fundamental_div_mod(p, u);
        let t = SIGNIFICAND_LIMIT * (p / u);
        assert(UNIT == t * u) by (nonlinear_arith)
            requires
                p == u * (p / u) + p % u,
                p % u == 0,
                t == SIGNIFICAND_LIMIT * (p / u),
                UNIT == SIGNIFICAND_LIMIT * p,
        ;
        lemma_fundamental_div_mod(x, u);
        lemma_mod_pos_bound(x, u);
        let k = x / u;
        assert((k + 1) * u <= t * u && k * u <= t * u) by (nonlinear_arith)
            requires
                x == u * k + x % u,
                0 <= x % u,
                x < t * u,
                u >= 1,
        ;
    }
}

/// A whole number that is not zero does not round to zero.
pub proof fn lemma_rounded_is_positive(x: int)
    requires
        0 < x,
    ensures
        0 < rounded(x, 1),
{
    let u = ulp_of(x);
    lemma_gap_at_most(x);
    lemma_fundamental_div_mod(x, u);
    lemma_mod_pos_bound(x, u);
    let below = x / u;
    assert(below >= 1) by (nonlinear_arith)
        requires
            x == u * below + x % u,
            0 <= x % u < u,
            u <= x,
            0 < u,
    ;
    assert(below * u >= 1 && (below + 1) * u >= 1) by (nonlinear_arith)
        requires
            below >= 1,
            u >= 1,
    ;
}

/// The gap between doubles at a whole number that is not zero is no larger
/// than the number.
proof fn lemma_gap_at_most(x: int)
    requires
        0 < x,
    ensures
        1 <= ulp_of(x) <= x,
    decreases x,
{
    if x >= SIGNIFICAND_LIMIT {
        lemma_gap_at_most(x / 2);
    }
}

} // verus!
