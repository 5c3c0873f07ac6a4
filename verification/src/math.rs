//! Fixed-point integer arithmetic: truncating division, saturation to the
//! i64 range, and the integer square root used for distances.

use vstd::prelude::*;

verus! {

use vstd::arithmetic::div_mod::{
    lemma_div_by_multiple,
    lemma_div_is_ordered,
    lemma_div_nonincreasing,
    lemma_div_pos_is_pos,
};
use vstd::arithmetic::mul::{lemma_mul_inequality, lemma_mul_strict_inequality};

/// Absolute value of a mathematical integer.
pub open spec fn abs_i(a: int) -> int {
    if a >= 0 {
        a
    } else {
        -a
    }
}

/// Truncating (round-toward-zero) division for a positive divisor: the
/// semantics of `/` on Rust's machine integers.
pub open spec fn tdiv(a: int, b: int) -> int {
    if a >= 0 {
        a / b
    } else {
        -((-a) / b)
    }
}

/// Clamp a mathematical integer into the i64 range.
pub open spec fn sat_i64(v: int) -> int {
    if v > i64::MAX as int {
        i64::MAX as int
    } else if v < i64::MIN as int {
        i64::MIN as int
    } else {
        v
    }
}

/// `r` is the floor of the real square root of `n`.
pub open spec fn is_isqrt(n: int, r: int) -> bool {
    0 <= r && r * r <= n && n < (r + 1) * (r + 1)
}

/// Integer square root: the floor of the real square root of `n`.
pub open spec fn isqrt(n: nat) -> nat
    decreases n,
{
    if n == 0 {
        0
    } else {
        let p = isqrt((n - 1) as nat);
        if (p + 1) * (p + 1) <= n {
            p + 1
        } else {
            p
        }
    }
}

pub proof fn lemma_isqrt_fundamental(n: nat)
    ensures
        is_isqrt(n as int, isqrt(n) as int),
    decreases n,
{
    if n == 0 {
    } else {
        lemma_isqrt_fundamental((n - 1) as nat);
        let p = isqrt((n - 1) as nat);
        if (p + 1) * (p + 1) <= n {
            assert((p + 1) * (p + 1) < (p + 2) * (p + 2)) by (nonlinear_arith)
                requires p >= 0;
        }
    }
}

pub proof fn lemma_isqrt_unique(n: nat, r: int)
    requires
        is_isqrt(n as int, r),
    ensures
        r == isqrt(n),
{
    lemma_isqrt_fundamental(n);
    let s = isqrt(n) as int;
    if r < s {
        lemma_mul_inequality(r + 1, s, r + 1);
        lemma_mul_inequality(r + 1, s, s);
        assert(false);
    }
    if s < r {
        lemma_mul_inequality(s + 1, r, s + 1);
        lemma_mul_inequality(s + 1, r, r);
        assert(false);
    }
}

/// A larger argument never has a smaller integer square root.
pub proof fn lemma_isqrt_mono(m: nat, n: nat)
    requires
        m <= n,
    ensures
        isqrt(m) <= isqrt(n),
{
    lemma_isqrt_fundamental(m);
    lemma_isqrt_fundamental(n);
    let a = isqrt(m) as int;
    let b = isqrt(n) as int;
    if b < a {
        lemma_mul_inequality(b + 1, a, b + 1);
        lemma_mul_inequality(b + 1, a, a);
        assert(false);
    }
}

/// The integer square root of a perfect square is exact.
pub proof fn lemma_isqrt_square(a: int)
    requires
        0 <= a,
    ensures
        isqrt((a * a) as nat) == a,
{
    assert(a * a < (a + 1) * (a + 1)) by (nonlinear_arith)
        requires a >= 0;
    lemma_isqrt_unique((a * a) as nat, a);
}

/// Truncating division never grows the magnitude, and dividing a magnitude
/// bound divides the bound.
pub proof fn lemma_tdiv_bounds(a: int, b: int)
    requires
        b >= 1,
    ensures
        abs_i(tdiv(a, b)) <= abs_i(a) / b,
        abs_i(a) / b <= abs_i(a),
        a == 0 ==> tdiv(a, b) == 0,
{
    lemma_div_pos_is_pos(abs_i(a), b);
    lemma_div_nonincreasing(abs_i(a), b);
    if a >= 0 {
    } else {
        lemma_div_pos_is_pos(-a, b);
    }
}

/// A magnitude bound on the dividend carries to a truncating quotient.
pub proof fn lemma_tdiv_le(a: int, bound: int, b: int)
    requires
        b >= 1,
        abs_i(a) <= bound,
    ensures
        abs_i(tdiv(a, b)) <= bound / b,
        abs_i(tdiv(a, b)) <= bound,
{
    lemma_tdiv_bounds(a, b);
    lemma_div_is_ordered(abs_i(a), bound, b);
    lemma_div_nonincreasing(bound, b);
}

/// Multiplying by `s` and truncating-dividing by `s` cancel exactly.
pub proof fn lemma_tdiv_mul_cancel(v: int, s: int)
    requires
        s >= 1,
    ensures
        tdiv(v * s, s) == v,
{
    if v >= 0 {
        lemma_div_by_multiple(v, s);
        assert(v * s >= 0) by (nonlinear_arith)
            requires v >= 0 && s >= 1;
    } else {
        lemma_div_by_multiple(-v, s);
        assert(v * s < 0) by (nonlinear_arith)
            requires v < 0 && s >= 1;
        assert(-(v * s) == (-v) * s) by (nonlinear_arith);
    }
}

/// Truncating division is odd in its dividend.
pub proof fn lemma_tdiv_neg(a: int, b: int)
    requires
        b >= 1,
    ensures
        tdiv(-a, b) == -tdiv(a, b),
{
}

/// The magnitude of a product is the product of the magnitudes.
pub proof fn lemma_abs_mul(a: int, b: int)
    by (nonlinear_arith)
    ensures
        abs_i(a * b) == abs_i(a) * abs_i(b),
{
}

/// Integer square root of an unsigned 128-bit value, by binary search.
pub fn isqrt_u128(n: u128) -> (r: u64)
    ensures
        r as nat == isqrt(n as nat),
        is_isqrt(n as int, r as int),
{
    let mut lo: u128 = 0;
    let mut hi: u128 = 0x1_0000_0000_0000_0000;
    assert(n < hi * hi) by (nonlinear_arith)
        requires hi == 0x1_0000_0000_0000_0000u128 && n <= u128::MAX;
    while lo + 1 < hi
        invariant
            0 <= lo < hi <= 0x1_0000_0000_0000_0000u128,
            lo * lo <= n,
            n < hi * hi,
        decreases hi - lo,
    {
        let mid: u128 = lo + (hi - lo) / 2;
        assert(lo < mid < hi);
        assert(mid * mid <= u128::MAX) by (nonlinear_arith)
            requires 0 < mid && mid <= 0xffff_ffff_ffff_ffffu128;
        let sq: u128 = mid * mid;
        if sq <= n {
            lo = mid;
        } else {
            hi = mid;
        }
    }
    assert(is_isqrt(n as int, lo as int));
    proof {
        lemma_isqrt_unique(n as nat, lo as int);
    }
    lo as u64
}

/// Truncating `a * b / d`, computed without overflow on magnitudes.
pub fn mul_div_trunc(a: i128, b: i128, d: i128) -> (r: i128)
    requires
        d >= 1,
        i128::MIN < a,
        i128::MIN < b,
        abs_i(a * b) <= i128::MAX as int,
    ensures
        r == tdiv(a * b, d as int),
        abs_i(r as int) <= abs_i(a * b),
{
    proof {
        lemma_abs_mul(a as int, b as int);
        lemma_tdiv_bounds(a * b, d as int);
    }
    let neg: bool = (a < 0) != (b < 0);
    let am: u128 = if a < 0 {
        (-a) as u128
    } else {
        a as u128
    };
    let bm: u128 = if b < 0 {
        (-b) as u128
    } else {
        b as u128
    };
    assert(am * bm == abs_i(a * b)) by (nonlinear_arith)
        requires
            am == abs_i(a as int),
            bm == abs_i(b as int),
            abs_i(a * b) == abs_i(a as int) * abs_i(b as int);
    let p: u128 = am * bm;
    proof {
        lemma_div_nonincreasing(p as int, d as int);
        lemma_div_pos_is_pos(p as int, d as int);
    }
    let q: u128 = p / (d as u128);
    if neg {
        proof {
            if a * b > 0 {
                assert((a < 0) == (b < 0)) by (nonlinear_arith)
                    requires a * b > 0;
                assert(false);
            }
        }
        -(q as i128)
    } else {
        proof {
            if a * b < 0 {
                assert((a < 0) != (b < 0)) by (nonlinear_arith)
                    requires a * b < 0;
                assert(false);
            }
        }
        q as i128
    }
}

/// Saturate a 128-bit value into the i64 range.
pub fn sat_i64_of_i128(v: i128) -> (r: i64)
    ensures
        r as int == sat_i64(v as int),
{
    if v > i64::MAX as i128 {
        i64::MAX
    } else if v < i64::MIN as i128 {
        i64::MIN
    } else {
        v as i64
    }
}

} // verus!
