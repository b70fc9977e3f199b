use vstd::prelude::*;

use vstd::arithmetic::div_mod::{
    lemma_div_is_ordered, lemma_div_multiples_vanish, lemma_div_nonincreasing,
    lemma_div_pos_is_pos,
};

verus! {

/// Number of fixed-point units in 1.0: every scalar quantity in this engine
/// (coordinate, matrix entry, depth, tangent) is an `i64` counting 1/65536ths.
pub const ONE: i64 = 65536;

/// Coordinate magnitude accepted at construction boundaries: keeps every
/// intermediate of the transform pipeline inside `i64`/`i128` ranges.
pub const COORD_LIMIT: i64 = 0x2000_0000_0000;

/// Magnitude accepted for a mesh generator's center coordinates and extent:
/// half of `COORD_LIMIT`, so generated vertices stay in coordinate range.
pub const POS_LIMIT: i64 = 0x1000_0000_0000;

/// Truncating (round-toward-zero) division for a positive divisor: the
/// rounding that Rust's integer `/` performs.
pub open spec fn div_tz(x: int, d: int) -> int
    recommends
        d > 0,
{
    if x >= 0 {
        x / d
    } else {
        -((-x) / d)
    }
}

/// Saturates a mathematical integer into the `i64` range.
pub open spec fn sat64(x: int) -> int {
    if x > i64::MAX {
        i64::MAX as int
    } else if x < i64::MIN {
        i64::MIN as int
    } else {
        x
    }
}

/// Fixed-point product: `(a * b) / ONE`, truncated, saturated into `i64`.
pub open spec fn spec_fmul(a: int, b: int) -> int {
    sat64(div_tz(a * b, ONE as int))
}

/// Dividing an exact multiple of a positive divisor is exact.
pub proof fn lemma_div_tz_exact(k: int, d: int)
    requires
        d > 0,
    ensures
        div_tz(k * d, d) == k,
{
    if k >= 0 {
        lemma_div_multiples_vanish(k, d);
        assert(k * d == d * k) by (nonlinear_arith);
    } else {
        lemma_div_multiples_vanish(-k, d);
        assert(-(k * d) == d * (-k)) by (nonlinear_arith);
    }
}

/// Truncating division by a positive divisor never grows the magnitude.
pub proof fn lemma_div_tz_mag(x: int, d: int)
    requires
        d > 0,
    ensures
        x >= 0 ==> 0 <= div_tz(x, d) <= x,
        x < 0 ==> x <= div_tz(x, d) <= 0,
{
    if x >= 0 {
        lemma_div_pos_is_pos(x, d);
        lemma_div_nonincreasing(x, d);
    } else {
        lemma_div_pos_is_pos(-x, d);
        lemma_div_nonincreasing(-x, d);
    }
}

/// A bound on the dividend, stated as a multiple of the divisor, carries
/// over to the truncated quotient.
pub proof fn lemma_div_tz_bound(x: int, d: int, b: int)
    requires
        d > 0,
        b >= 0,
        -(b * d) <= x <= b * d,
    ensures
        -b <= div_tz(x, d) <= b,
{
    lemma_div_tz_exact(b, d);
    if x >= 0 {
        lemma_div_pos_is_pos(x, d);
        lemma_div_is_ordered(x, b * d, d);
    } else {
        lemma_div_pos_is_pos(-x, d);
        lemma_div_is_ordered(-x, b * d, d);
    }
}

/// Magnitude bound on a product from bounds on its factors.
pub proof fn lemma_mul_mag(a: int, b: int, ca: int, cb: int)
    requires
        -ca <= a <= ca,
        -cb <= b <= cb,
    ensures
        -(ca * cb) <= a * b <= ca * cb,
{
    assert(-(ca * cb) <= a * b <= ca * cb) by (nonlinear_arith)
        requires
            -ca <= a <= ca,
            -cb <= b <= cb,
    ;
}

/// Truncating `i128` division, exactly `div_tz` of the operands.
pub fn div_trunc(x: i128, d: i128) -> (r: i128)
    requires
        d > 0,
    ensures
        r as int == div_tz(x as int, d as int),
{
    proof {
        lemma_div_tz_mag(x as int, d as int);
        if x as int >= 0 {
            lemma_div_pos_is_pos(x as int, d as int);
        }
    }
    let q = x.checked_div(d);
    match q {
        Some(r) => r,
        None => 0,
    }
}

/// Saturates an `i128` into the `i64` range.
pub fn sat_narrow(x: i128) -> (r: i64)
    ensures
        r as int == sat64(x as int),
{
    if x > i64::MAX as i128 {
        i64::MAX
    } else if x < i64::MIN as i128 {
        i64::MIN
    } else {
        x as i64
    }
}

/// Fixed-point multiplication of two engine scalars.
pub fn fmul(a: i64, b: i64) -> (r: i64)
    ensures
        r as int == spec_fmul(a as int, b as int),
{
    proof {
        lemma_mul_mag(a as int, b as int, 0x8000_0000_0000_0000, 0x8000_0000_0000_0000);
    }
    let p: i128 = (a as i128) * (b as i128);
    let q = div_trunc(p, ONE as i128);
    sat_narrow(q)
}

/// A factor of magnitude at most `ONE` (at most 1.0) cannot grow the other
/// factor under fixed-point multiplication.
pub proof fn lemma_fmul_contracts(a: int, b: int, ca: int)
    requires
        -ca <= a <= ca,
        -(ONE as int) <= b <= ONE as int,
        0 <= ca <= i64::MAX,
    ensures
        -ca <= spec_fmul(a, b) <= ca,
{
    lemma_mul_mag(a, b, ca, ONE as int);
    lemma_div_tz_bound(a * b, ONE as int, ca);
}

} // verus!
