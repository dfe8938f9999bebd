//! Fixed-point arithmetic helpers shared by the geometry code.
//!
//! Quantities scaled by [`crate::FP`] are plain integers here; these
//! functions give the few nonlinear operations (scaling by a ratio,
//! integer square root, angle normalization) exact contracts.

use vstd::prelude::*;
use vstd::arithmetic::div_mod::{
    lemma_div_is_ordered, lemma_div_multiples_vanish, lemma_div_nonincreasing,
    lemma_div_pos_is_pos, lemma_mod_add_multiples_vanish, lemma_mod_sub_multiples_vanish,
    lemma_multiply_divide_lt, lemma_small_mod,
};
use vstd::arithmetic::mul::{lemma_mul_inequality, lemma_mul_nonnegative};

verus! {

/// One full turn (two pi radians) in fixed-point units.
pub const TWO_PI_FP: i64 = 411775;

/// `r` is the integer square root of `n`.
pub open spec fn is_sqrt(n: int, r: int) -> bool {
    &&& r >= 0
    &&& r * r <= n
    &&& n < (r + 1) * (r + 1)
}

/// The integer square root of `n`: the largest `r` with `r * r <= n`.
pub open spec fn sqrt_spec(n: nat) -> nat
    decreases n,
{
    if n == 0 {
        0
    } else {
        let p = sqrt_spec((n - 1) as nat);
        if (p + 1) * (p + 1) <= n {
            p + 1
        } else {
            p
        }
    }
}

pub proof fn lemma_sqrt_spec_is_sqrt(n: nat)
    ensures
        is_sqrt(n as int, sqrt_spec(n) as int),
    decreases n,
{
    if n == 0 {
    } else {
        lemma_sqrt_spec_is_sqrt((n - 1) as nat);
        let p = sqrt_spec((n - 1) as nat);
        if (p + 1) * (p + 1) <= n {
            assert((p + 1 + 1) * (p + 1 + 1) > (p + 1) * (p + 1)) by (nonlinear_arith);
        }
    }
}

/// Any `r` that satisfies `is_sqrt` is `sqrt_spec`.
pub proof fn lemma_sqrt_unique(n: nat, r: nat)
    requires
        is_sqrt(n as int, r as int),
    ensures
        r == sqrt_spec(n),
{
    let s = sqrt_spec(n);
    lemma_sqrt_spec_is_sqrt(n);
    if r < s {
        lemma_mul_inequality(r as int + 1, s as int, r as int + 1);
        lemma_mul_inequality(r as int + 1, s as int, s as int);
        assert(false);
    }
    if s < r {
        lemma_mul_inequality(s as int + 1, r as int, s as int + 1);
        lemma_mul_inequality(s as int + 1, r as int, r as int);
        assert(false);
    }
}

/// Integer square root by bisection.
pub fn isqrt(n: u64) -> (r: u64)
    requires
        n < 0x4000_0000_0000_0000,
    ensures
        r == sqrt_spec(n as nat),
        is_sqrt(n as int, r as int),
{
    let mut lo: u64 = 0;
    let mut hi: u64 = 0x8000_0000;
    assert(0x8000_0000int * 0x8000_0000int == 0x4000_0000_0000_0000int);
    while lo + 1 < hi
        invariant
            lo < hi,
            hi <= 0x8000_0000,
            (lo as int) * (lo as int) <= n as int,
            (n as int) < (hi as int) * (hi as int),
        decreases hi - lo,
    {
        let mid = lo + (hi - lo) / 2;
        assert(lo < mid < hi) by {
            assert(hi - lo >= 2);
            assert(1 <= (hi - lo) as int / 2 < (hi - lo) as int) by (nonlinear_arith)
                requires (hi - lo) as int >= 2;
        };
        assert((mid as int) * (mid as int) < 0x4000_0000_0000_0000) by (nonlinear_arith)
            requires mid < 0x8000_0000;
        let sq = mid * mid;
        if sq <= n {
            lo = mid;
        } else {
            hi = mid;
        }
    }
    proof {
        assert(hi == lo + 1);
        lemma_sqrt_unique(n as nat, lo as nat);
    }
    lo
}

/// Scaling down by a factor at most one keeps a nonnegative quantity
/// between zero and itself.
pub proof fn lemma_scale_le(d: int, v: int, f: int)
    requires
        0 <= d,
        0 <= v <= f,
        1 <= f,
    ensures
        0 <= d * v / f <= d,
{
    assert(d * v == v * d) by (nonlinear_arith);
    lemma_mul_nonnegative(v, d);
    lemma_div_pos_is_pos(v * d, f);
    lemma_mul_inequality(v, f, d);
    lemma_div_is_ordered(v * d, f * d, f);
    lemma_div_multiples_vanish(d, f);
}

/// A quantity strictly below the scale, scaled up by `f` and divided by
/// the scale, stays strictly below `f`.
pub proof fn lemma_frac_lt(a: int, c: int, f: int)
    requires
        0 <= a < c,
        1 <= f,
    ensures
        0 <= a * f / c < f,
{
    lemma_mul_nonnegative(a, f);
    lemma_div_pos_is_pos(a * f, c);
    assert(a * f < c * f) by (nonlinear_arith)
        requires 0 <= a < c && 1 <= f;
    lemma_multiply_divide_lt(a * f, c, f);
}

/// `v * num / den` for a signed `v`, rounding the magnitude down.
pub open spec fn mul_div_s(v: int, num: int, den: int) -> int {
    if v >= 0 {
        v * num / den
    } else {
        -((-v) * num / den)
    }
}

/// Scales a signed fixed-point quantity by the ratio `num / den`.
pub fn scale_signed(v: i64, num: u64, den: u64) -> (r: i64)
    requires
        den > 0,
        v > i64::MIN,
        (if v >= 0 { v * num } else { (-v) * num }) <= i64::MAX,
    ensures
        r == mul_div_s(v as int, num as int, den as int),
        v >= 0 ==> 0 <= r <= v * num,
        v < 0 ==> -((-(v as int)) * num) <= r <= 0,
{
    if v >= 0 {
        let m = (v as u64) * num;
        proof {
            lemma_div_nonincreasing(m as int, den as int);
            lemma_div_pos_is_pos(m as int, den as int);
        }
        (m / den) as i64
    } else {
        let m = ((-v) as u64) * num;
        proof {
            lemma_div_nonincreasing(m as int, den as int);
            lemma_div_pos_is_pos(m as int, den as int);
        }
        -((m / den) as i64)
    }
}

/// Brings a fixed-point angle into `[0, TWO_PI_FP)`; the result is the
/// Euclidean remainder of the input modulo one turn.
pub fn normalize_angle(a: i64) -> (r: i64)
    ensures
        0 <= r < TWO_PI_FP,
        r == (a as int) % (TWO_PI_FP as int),
{
    let mut r = a;
    while r < 0
        invariant
            (r as int) % (TWO_PI_FP as int) == (a as int) % (TWO_PI_FP as int),
            r <= i64::MAX - TWO_PI_FP || r >= 0,
        decreases (if r < 0 { -(r as int) } else { 0int }),
    {
        proof {
            lemma_mod_add_multiples_vanish(r as int, TWO_PI_FP as int);
        }
        r = r + TWO_PI_FP;
    }
    while r >= TWO_PI_FP
        invariant
            r >= 0,
            (r as int) % (TWO_PI_FP as int) == (a as int) % (TWO_PI_FP as int),
        decreases r,
    {
        proof {
            lemma_mod_sub_multiples_vanish(r as int, TWO_PI_FP as int);
        }
        r = r - TWO_PI_FP;
    }
    proof {
        lemma_small_mod(r as nat, TWO_PI_FP as nat);
    }
    r
}

} // verus!
