//! Fixed-point scalar arithmetic for the solver: truncating division,
//! coordinate clamping, and an integer square root.

use vstd::prelude::*;

verus! {

/// Milli-units per simulation unit: every coordinate, radius and length in
/// the library is an `i64` count of milli-units.
pub const SCALE: i64 = 1000;

/// Largest coordinate magnitude the world admits; every position and
/// acceleration component is clamped into `[-MAX_COORD, MAX_COORD]`.
pub const MAX_COORD: i64 = 1_000_000_000;

/// Absolute value of a mathematical integer.
pub open spec fn absi(x: int) -> int {
    if x >= 0 {
        x
    } else {
        -x
    }
}

/// A product is bounded by the product of the absolute values.
pub proof fn lemma_abs_mul(a: int, b: int)
    ensures
        -(absi(a) * absi(b)) <= a * b <= absi(a) * absi(b),
        absi(a * b) == absi(a) * absi(b),
{
    assert((-a) * b == -(a * b) && a * (-b) == -(a * b) && (-a) * (-b) == a * b)
        by (nonlinear_arith);
    if a >= 0 && b >= 0 {
        assert(a * b >= 0) by (nonlinear_arith)
            requires a >= 0 && b >= 0;
    } else if a >= 0 && b < 0 {
        assert(a * (-b) >= 0) by (nonlinear_arith)
            requires a >= 0 && -b >= 0;
    } else if a < 0 && b >= 0 {
        assert((-a) * b >= 0) by (nonlinear_arith)
            requires -a >= 0 && b >= 0;
    } else {
        assert((-a) * (-b) >= 0) by (nonlinear_arith)
            requires -a >= 0 && -b >= 0;
    }
}

/// Largest outer timestep the solver accepts (one thousand units).
pub const MAX_DT: i64 = 1_000_000;

/// Largest spring stiffness the world accepts (one thousand units).
pub const MAX_STIFF: i64 = 1_000_000;

/// Division truncating toward zero (the rounding every correction uses).
pub open spec fn div_tz(n: int, d: int) -> int {
    if n >= 0 {
        n / d
    } else {
        -((-n) / d)
    }
}

/// A coordinate clamped into the world's admissible range.
pub open spec fn clampc(v: int) -> int {
    if v < -(MAX_COORD as int) {
        -(MAX_COORD as int)
    } else if v > MAX_COORD as int {
        MAX_COORD as int
    } else {
        v
    }
}

/// `r` is the integer square root of `n`: the largest `r` with `r * r <= n`.
pub open spec fn is_sqrt(n: int, r: int) -> bool {
    &&& 0 <= r
    &&& r * r <= n
    &&& n < (r + 1) * (r + 1)
}

/// The integer square root of `n`, as a spec-level value.
pub open spec fn sqrt_of(n: int) -> int {
    choose|r: int| is_sqrt(n, r)
}

/// A fixed-point product: `a * b`, rescaled back into milli-units.
pub open spec fn fp_mul(a: int, b: int) -> int {
    div_tz(a * b, SCALE as int)
}

/// A fixed-point quotient: `a / b` in milli-units, for positive `b`.
pub open spec fn fp_div(a: int, b: int) -> int {
    div_tz(a * SCALE as int, b)
}

/// Half of `a`, truncating toward zero.
pub open spec fn half(a: int) -> int {
    div_tz(a, 2)
}

/// An integer square root is at least the magnitude of any component whose
/// square it dominates.
pub proof fn lemma_sqrt_dominates(n: int, d: int, x: int)
    requires
        is_sqrt(n, d),
        x * x <= n,
    ensures
        -d <= x <= d,
{
    assert(-d <= x <= d) by (nonlinear_arith)
        requires 0 <= d && x * x <= n && n < (d + 1) * (d + 1);
}

/// Two integer square roots of the same number are equal.
pub proof fn lemma_sqrt_unique(n: int, a: int, b: int)
    requires
        is_sqrt(n, a),
        is_sqrt(n, b),
    ensures
        a == b,
{
    assert(a == b) by (nonlinear_arith)
        requires
            0 <= a,
            0 <= b,
            a * a <= n,
            n < (a + 1) * (a + 1),
            b * b <= n,
            n < (b + 1) * (b + 1),
    ;
}

/// Clamp a value into the admissible coordinate range.
pub fn clamp_coord(v: i64) -> (r: i64)
    ensures
        r as int == clampc(v as int),
{
    if v < -MAX_COORD {
        -MAX_COORD
    } else if v > MAX_COORD {
        MAX_COORD
    } else {
        v
    }
}

/// Truncating division of non-negative `n` by positive `d`.
fn div_nonneg(n: i64, d: i64) -> (r: i64)
    requires
        n >= 0,
        d > 0,
    ensures
        r as int == n as int / d as int,
        0 <= r <= n,
{
    let q: u64 = (n as u64) / (d as u64);
    proof {
        assert(n as u64 as int == n as int);
        assert(d as u64 as int == d as int);
        assert(n as int / d as int <= n as int) by (nonlinear_arith)
            requires n as int >= 0 && d as int >= 1;
        assert(n as int / d as int >= 0) by (nonlinear_arith)
            requires n as int >= 0 && d as int >= 1;
    }
    q as i64
}

/// Truncating division, any sign of `n`, positive `d`.
pub fn div_trunc(n: i64, d: i64) -> (r: i64)
    requires
        n > i64::MIN,
        d > 0,
    ensures
        r as int == div_tz(n as int, d as int),
{
    if n >= 0 {
        div_nonneg(n, d)
    } else {
        let q = div_nonneg(-n, d);
        -q
    }
}

/// Truncating division shrinks the magnitude: `|n / d| * d <= |n|`, and it
/// never crosses zero. For non-negative `n` it also loses less than `d`.
pub proof fn lemma_div_tz_bound(n: int, d: int)
    requires
        d > 0,
    ensures
        absi(div_tz(n, d)) * d <= absi(n),
        absi(div_tz(n, d)) <= absi(n),
        n >= 0 ==> div_tz(n, d) >= 0,
        n <= 0 ==> div_tz(n, d) <= 0,
        n >= 0 ==> div_tz(n, d) * d > n - d,
{
    if n >= 0 {
        assert((n / d) * d <= n && n / d >= 0 && n / d <= n && (n / d) * d > n - d)
            by (nonlinear_arith)
            requires n >= 0 && d > 0;
    } else {
        assert(((-n) / d) * d <= -n && (-n) / d >= 0 && (-n) / d <= -n)
            by (nonlinear_arith)
            requires -n >= 0 && d > 0;
    }
}

/// Largest squared norm the vector helpers accept; the square of any pair of
/// in-range coordinate differences stays below it.
pub const MAX_NORM_SQ: u64 = 8_000_000_000_000_000_000;

/// Integer square root by bisection.
pub fn isqrt(n: u64) -> (r: u64)
    requires
        n <= MAX_NORM_SQ,
    ensures
        is_sqrt(n as int, r as int),
        r as int == sqrt_of(n as int),
        r <= 3_000_000_000,
{
    let mut lo: u64 = 0;
    let mut hi: u64 = 3_000_000_000;
    proof {
        assert((n as int) < 3_000_000_000int * 3_000_000_000int);
    }
    while lo + 1 < hi
        invariant
            lo < hi <= 3_000_000_000,
            lo as int * lo as int <= n as int,
            (n as int) < hi as int * hi as int,
        decreases hi - lo,
    {
        let mid = lo + (hi - lo) / 2;
        proof {
            assert(mid as int * mid as int <= 9_000_000_000_000_000_000int) by (nonlinear_arith)
                requires 0 <= mid as int <= 3_000_000_000int;
        }
        if mid * mid <= n {
            lo = mid;
        } else {
            hi = mid;
        }
    }
    proof {
        let nn = n as int;
        assert(hi == lo + 1);
        assert(is_sqrt(nn, lo as int));
        assert(exists|r: int| is_sqrt(nn, r));
        lemma_sqrt_unique(nn, lo as int, sqrt_of(nn));
    }
    lo
}

/// `a * b / d`, truncating toward zero; the product must fit in `i64`.
pub fn mul_div_trunc(a: i64, b: i64, d: i64) -> (r: i64)
    requires
        a > i64::MIN,
        b > i64::MIN,
        absi(a as int) * absi(b as int) <= i64::MAX as int,
        d > 0,
    ensures
        r as int == div_tz(a as int * b as int, d as int),
{
    proof {
        lemma_abs_mul(a as int, b as int);
    }
    let p: i64 = a * b;
    div_trunc(p, d)
}

/// Dividing an exact multiple truncates nothing.
pub proof fn lemma_div_tz_exact(a: int, d: int)
    requires
        d > 0,
    ensures
        div_tz(a * d, d) == a,
{
    if a >= 0 {
        assert(a * d >= 0 && (a * d) / d == a) by (nonlinear_arith)
            requires d > 0 && a >= 0;
    } else {
        assert(a * d <= 0 && -(a * d) == (-a) * d) by (nonlinear_arith)
            requires d > 0 && a < 0;
        assert(((-a) * d) / d == -a) by (nonlinear_arith)
            requires d > 0 && -a >= 0;
    }
}

/// The integer square root of a perfect square is the absolute value.
pub proof fn lemma_sqrt_of_square(t: int)
    ensures
        sqrt_of(t * t) == absi(t),
        is_sqrt(t * t, absi(t)),
{
    lemma_abs_mul(t, t);
    assert(t * t >= 0) by (nonlinear_arith);
    let u = absi(t);
    assert(u * u < (u + 1) * (u + 1)) by (nonlinear_arith)
        requires u >= 0;
    assert(is_sqrt(t * t, u));
    assert(exists|r: int| #[trigger] is_sqrt(t * t, r));
    lemma_sqrt_unique(t * t, u, sqrt_of(t * t));
}

/// Fixed-point product, executable.
pub fn mul_fp(a: i64, b: i64) -> (r: i64)
    requires
        a > i64::MIN,
        b > i64::MIN,
        absi(a as int) * absi(b as int) <= i64::MAX as int,
    ensures
        r as int == fp_mul(a as int, b as int),
{
    mul_div_trunc(a, b, SCALE)
}

/// Fixed-point quotient, executable.
pub fn div_fp(a: i64, b: i64) -> (r: i64)
    requires
        a > i64::MIN,
        b > 0,
        absi(a as int) <= 9_000_000_000_000_000,
    ensures
        r as int == fp_div(a as int, b as int),
{
    proof {
        lemma_abs_mul(a as int, SCALE as int);
        assert(absi(a as int) * (SCALE as int) <= i64::MAX as int) by (nonlinear_arith)
            requires 0 <= absi(a as int) <= 9_000_000_000_000_000int;
    }
    mul_div_trunc(a, SCALE, b)
}

/// Truncating halving, executable.
pub fn half_tz(a: i64) -> (r: i64)
    requires
        a > i64::MIN,
    ensures
        r as int == half(a as int),
{
    div_trunc(a, 2)
}

} // verus!
