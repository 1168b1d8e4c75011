//! Subtraction modulo `m`, with a result that is never negative.

use vstd::prelude::*;

verus! {

/// `(a - b) mod m` as a mathematical value: the one representative of
/// `a - b` in `[0, m)`.
pub open spec fn wrapped_difference(a: int, b: int, m: int) -> int {
    (a - b) % m
}

/// Computes `(a - b) mod m` on unsigned operands. Where `a < b` the
/// difference is negative and the result is the modulo, not the remainder:
/// it is counted upward from the next lower multiple of `m`.
pub fn sub_modulo(a: usize, b: usize, m: usize) -> (r: usize)
    requires
        m > 0,
    ensures
        r == wrapped_difference(a as int, b as int, m as int),
        0 <= r < m,
{
    if a >= b {
        (a - b) % m
    } else {
        let back: usize = (b - a) % m;
        proof {
            lemma_negated_modulo((b - a) as int, m as int);
        }
        (m - back) % m
    }
}

/// For `k >= 0`, `(-k) mod m` is `(m - k mod m) mod m`.
pub proof fn lemma_negated_modulo(k: int, m: int)
    requires
        k >= 0,
        m > 0,
    ensures
        (-k) % m == (m - k % m) % m,
{
    let q = k / m;
    let r = k % m;
    vstd::arithmetic::div_mod::lemma_fundamental_div_mod(k, m);
    vstd::arithmetic::div_mod::lemma_mod_pos_bound(k, m);
    if r == 0 {
        assert(-k == (-q) * m + 0) by (nonlinear_arith)
            requires
                k == m * q + r,
                r == 0,
        ;
        vstd::arithmetic::div_mod::lemma_fundamental_div_mod_converse(-k, m, -q, 0);
        vstd::arithmetic::div_mod::lemma_mod_self_0(m);
    } else {
        assert(-k == (-q - 1) * m + (m - r)) by (nonlinear_arith)
            requires
                k == m * q + r,
        ;
        vstd::arithmetic::div_mod::lemma_fundamental_div_mod_converse(-k, m, -q - 1, m - r);
        vstd::arithmetic::div_mod::lemma_small_mod((m - r) as nat, m as nat);
    }
}

} // verus!
