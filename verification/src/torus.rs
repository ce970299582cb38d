//! Wraparound of integer coordinates on a ring.

use vstd::prelude::*;
use vstd::arithmetic::div_mod::{
    lemma_fundamental_div_mod, lemma_fundamental_div_mod_converse, lemma_mod_bound,
    lemma_mod_multiples_basic, lemma_small_mod, lemma_sub_mod_noop_right,
};

verus! {

/// The member of the half-open range `[min, max)` that differs from `a`
/// by a whole number of periods `max - min`.
pub open spec fn wrap(a: int, min: int, max: int) -> int {
    min + (a - min) % (max - min)
}

/// Folds `a` into `[min, max)`, however many periods away it lies: the
/// result lies in the range and differs from `a` by a whole number of
/// periods, and a value already in the range is returned as it is.
pub fn loop_coord(a: i64, min: i64, max: i64) -> (r: i64)
    requires
        min < max,
    ensures
        r == wrap(a as int, min as int, max as int),
        min <= r < max,
        (r - a) % (max - min) == 0,
        min <= a < max ==> r == a,
{
    proof {
        lemma_wrap_congruent(a as int, min as int, max as int);
        if min <= a < max {
            lemma_wrap_fixes_range(a as int, min as int, max as int);
        }
    }
    let span: i128 = max as i128 - min as i128;
    let folded: i128 = if a >= min {
        let ahead: i128 = (a as i128 - min as i128) % span;
        proof {
            lemma_mod_bound(a - min, span as int);
        }
        min as i128 + ahead
    } else {
        let behind: i128 = (min as i128 - a as i128) % span;
        proof {
            let d = min - a;
            lemma_mod_bound(d, span as int);
            lemma_fundamental_div_mod(d, span as int);
            let q = d / (span as int);
            if behind == 0 {
                assert(a - min == (-q) * span + 0) by (nonlinear_arith)
                    requires
                        d == span * q + 0,
                        d == min - a,
                ;
                lemma_fundamental_div_mod_converse(a - min, span as int, -q, 0);
            } else {
                assert(a - min == (-q - 1) * span + (span - behind)) by (nonlinear_arith)
                    requires
                        d == span * q + behind,
                        d == min - a,
                ;
                lemma_fundamental_div_mod_converse(a - min, span as int, -q - 1, span - behind);
            }
        }
        if behind == 0 {
            min as i128
        } else {
            max as i128 - behind
        }
    };
    folded as i64
}

/// The wrapped value lies in `[min, max)`.
pub proof fn lemma_wrap_in_range(a: int, min: int, max: int)
    requires
        min < max,
    ensures
        min <= wrap(a, min, max) < max,
{
    lemma_mod_bound(a - min, max - min);
}

/// The wrapped value differs from the input by a multiple of the period.
pub proof fn lemma_wrap_congruent(a: int, min: int, max: int)
    requires
        min < max,
    ensures
        (wrap(a, min, max) - a) % (max - min) == 0,
        (a - wrap(a, min, max)) % (max - min) == 0,
{
    let m = max - min;
    let q = (a - min) / m;
    lemma_fundamental_div_mod(a - min, m);
    assert(wrap(a, min, max) - a == (-q) * m) by (nonlinear_arith)
        requires
            a - min == m * q + (a - min) % m,
            wrap(a, min, max) == min + (a - min) % m,
    ;
    assert(a - wrap(a, min, max) == q * m) by (nonlinear_arith)
        requires
            wrap(a, min, max) - a == (-q) * m,
    ;
    lemma_mod_multiples_basic(-q, m);
    lemma_mod_multiples_basic(q, m);
}

/// A value already in range is left as it is.
pub proof fn lemma_wrap_fixes_range(a: int, min: int, max: int)
    requires
        min <= a < max,
    ensures
        wrap(a, min, max) == a,
{
    lemma_small_mod((a - min) as nat, (max - min) as nat);
}

/// Wrapping twice is the same as wrapping once.
pub proof fn lemma_wrap_idempotent(a: int, min: int, max: int)
    requires
        min < max,
    ensures
        wrap(wrap(a, min, max), min, max) == wrap(a, min, max),
{
    lemma_wrap_in_range(a, min, max);
    lemma_wrap_fixes_range(wrap(a, min, max), min, max);
}

/// The wrapped value is the only member of the range that is congruent to
/// the input.
pub proof fn lemma_wrap_unique(a: int, b: int, min: int, max: int)
    requires
        min <= b < max,
        (b - a) % (max - min) == 0,
    ensures
        b == wrap(a, min, max),
{
    let m = max - min;
    lemma_fundamental_div_mod(b - a, m);
    let k = (b - a) / m;
    lemma_fundamental_div_mod(a - min, m);
    let q = (a - min) / m;
    let r = (a - min) % m;
    lemma_mod_bound(a - min, m);
    assert(b - min == (k + q) * m + r) by (nonlinear_arith)
        requires
            b - a == m * k + 0,
            a - min == m * q + r,
    ;
    lemma_fundamental_div_mod_converse(b - min, m, k + q, r);
    lemma_small_mod((b - min) as nat, m as nat);
}

/// Shifting by a wrapped amount lands where shifting by the amount itself
/// does.
pub proof fn lemma_wrap_shift(i: int, shift: int, n: int)
    requires
        0 < n,
    ensures
        wrap(i - wrap(shift, 0, n), 0, n) == wrap(i - shift, 0, n),
{
    lemma_sub_mod_noop_right(i, shift, n);
}

} // verus!
