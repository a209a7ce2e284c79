//! Fixed-point numbers: a level or a coordinate is an `i64` counting units of
//! `1 / ONE`, so that `ONE` stands for the real value 1.0.
use vstd::prelude::*;
use vstd::arithmetic::div_mod::lemma_fundamental_div_mod_converse;

verus! {

/// The fixed-point representation of 1.0.
pub const ONE: i64 = 65536;

/// The largest magnitude a coordinate may have, in fixed-point units
/// (2^40, that is 2^24 grid cells on either side of the origin).
pub const COORD_LIMIT: i64 = 1099511627776;

/// Division that rounds toward zero, as integer division does in Rust.
pub open spec fn trunc_div(p: int, d: int) -> int {
    if p >= 0 {
        p / d
    } else {
        -((-p) / d)
    }
}

/// `v` pulled into `[0, max]`.
pub open spec fn clamp_level(v: int, max: int) -> int {
    if v > max {
        max
    } else if v < 0 {
        0
    } else {
        v
    }
}

/// Exact floor square root.
pub open spec fn is_isqrt(n: int, r: int) -> bool {
    0 <= r && r * r <= n && n < (r + 1) * (r + 1)
}

/// The floor square root of `n`.
pub open spec fn floor_sqrt(n: int) -> int {
    choose|r: int| is_isqrt(n, r)
}

/// A floor square root is unique, so it is `floor_sqrt`.
pub proof fn lemma_isqrt_unique(n: int, r: int)
    requires
        is_isqrt(n, r),
    ensures
        floor_sqrt(n) == r,
{
    let q = floor_sqrt(n);
    assert(is_isqrt(n, q));
    if q < r {
        assert((q + 1) * (q + 1) <= r * r) by (nonlinear_arith)
            requires
                0 <= q < r,
        ;
    } else if r < q {
        assert((r + 1) * (r + 1) <= q * q) by (nonlinear_arith)
            requires
                0 <= r < q,
        ;
    }
}

/// Bounds on a product from bounds on its factors.
pub proof fn lemma_mul_bounds(a: int, b: int, x: int, y: int)
    requires
        -x <= a <= x,
        -y <= b <= y,
    ensures
        -(x * y) <= a * b <= x * y,
{
    assert(-(x * y) <= a * b <= x * y) by (nonlinear_arith)
        requires
            -x <= a <= x,
            -y <= b <= y,
    ;
}

/// Dividing by `d >= 1` keeps a value within `x / d` of zero.
pub proof fn lemma_trunc_div_bounds(p: int, d: int, x: int)
    requires
        d >= 1,
        -x <= p <= x,
    ensures
        -(x / d) <= trunc_div(p, d) <= x / d,
        -x <= trunc_div(p, d) <= x,
        0 <= p ==> 0 <= trunc_div(p, d),
        p <= 0 ==> trunc_div(p, d) <= 0,
{
    vstd::arithmetic::div_mod::lemma_div_is_ordered_by_denominator(x, 1, d);
    if p >= 0 {
        vstd::arithmetic::div_mod::lemma_div_is_ordered(p, x, d);
        vstd::arithmetic::div_mod::lemma_div_is_ordered(0, p, d);
    } else {
        vstd::arithmetic::div_mod::lemma_div_is_ordered(-p, x, d);
        vstd::arithmetic::div_mod::lemma_div_is_ordered(0, -p, d);
    }
}

/// For `0 <= p <= q`, the ratio `p * s / q` lies in `[0, s]`.
pub proof fn lemma_ratio_bounds(p: int, q: int, s: int)
    requires
        0 <= p <= q,
        q > 0,
        s >= 0,
    ensures
        0 <= (p * s) / q <= s,
{
    assert(0 <= p * s <= q * s) by (nonlinear_arith)
        requires
            0 <= p <= q,
            s >= 0,
    ;
    vstd::arithmetic::div_mod::lemma_div_is_ordered(p * s, q * s, q);
    vstd::arithmetic::div_mod::lemma_div_is_ordered(0, p * s, q);
    assert(q * s == s * q + 0) by (nonlinear_arith);
    lemma_fundamental_div_mod_converse(q * s, q, s, 0);
}

/// `(v * s) / v == s` for `v > 0`.
pub proof fn lemma_fundamental_div_mod_converse_mul(v: int, s: int)
    requires
        v > 0,
    ensures
        (v * s) / v == s,
{
    assert(v * s == s * v + 0) by (nonlinear_arith);
    lemma_fundamental_div_mod_converse(v * s, v, s, 0);
}

/// Rounds `p / d` toward zero.
pub fn trunc_div_i128(p: i128, d: i128) -> (r: i128)
    requires
        d > 0,
        p > i128::MIN,
    ensures
        r == trunc_div(p as int, d as int),
{
    if p >= 0 {
        p / d
    } else {
        let q = (-p) / d;
        -q
    }
}

/// Clamps `v` into `[0, max]`.
pub fn clamp_i128(v: i128, max: i64) -> (r: i64)
    requires
        max >= 0,
    ensures
        r == clamp_level(v as int, max as int),
{
    if v > max as i128 {
        max
    } else if v < 0 {
        0
    } else {
        v as i64
    }
}

/// Splits a coordinate into the index of the cell below it and the fraction
/// of a cell past that index: `x == cell * ONE + frac`, `0 <= frac < ONE`.
pub fn split_coord(x: i64) -> (r: (i64, i64))
    ensures
        r.0 == (x as int) / (ONE as int),
        r.1 == (x as int) % (ONE as int),
        0 <= r.1 < ONE,
        r.0 * ONE + r.1 == x,
{
    let q: i64 = if x >= 0 {
        x / ONE
    } else {
        let t: i64 = (-(x as i128) - 1) as i64;
        -(t / ONE) - 1
    };
    assert(-(ONE as int) <= x - q * ONE < 2 * ONE) by (nonlinear_arith)
        requires
            x >= 0 ==> q == (x as int) / (ONE as int),
            x < 0 ==> q == -((-(x as int) - 1) / (ONE as int)) - 1,
            ONE == 65536,
    ;
    let f: i64 = x - q * ONE;
    assert(0 <= f < ONE) by (nonlinear_arith)
        requires
            f == x - q * ONE,
            x >= 0 ==> q == (x as int) / (ONE as int),
            x < 0 ==> q == -((-(x as int) - 1) / (ONE as int)) - 1,
            ONE == 65536,
    ;
    proof {
        lemma_fundamental_div_mod_converse(x as int, ONE as int, q as int, f as int);
    }
    (q, f)
}

/// Floor square root of `n`.
pub fn isqrt(n: u128) -> (r: u128)
    requires
        n <= 0x10000000000000000000000000,
    ensures
        is_isqrt(n as int, r as int),
        r == floor_sqrt(n as int),
        r <= 0x4000000000001,
{
    let mut lo: u128 = 0;
    let mut hi: u128 = 0x4000000000001;
    assert(n < hi * hi) by (nonlinear_arith)
        requires
            hi == 0x4000000000001,
            n <= 0x10000000000000000000000000,
    ;
    while lo + 1 < hi
        invariant
            lo < hi <= 0x4000000000001,
            lo * lo <= n,
            n < hi * hi,
        decreases hi - lo,
    {
        let mid: u128 = lo + (hi - lo) / 2;
        assert(mid * mid <= 0x4000000000001 * 0x4000000000001) by (nonlinear_arith)
            requires
                mid < 0x4000000000001,
        ;
        if mid * mid <= n {
            lo = mid;
        } else {
            hi = mid;
        }
    }
    proof {
        lemma_isqrt_unique(n as int, lo as int);
    }
    lo
}

} // verus!
