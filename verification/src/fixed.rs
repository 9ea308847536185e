//! Fixed-point scalars.
//!
//! Every quantity of the simulation is a whole number of thousandths: a
//! length in thousandths of a world unit, a time in milliseconds, a speed in
//! thousandths of a unit per second, a mass in thousandths of a mass unit.
//! Quotients are rounded toward zero, and stored values saturate at the
//! limits declared here.
use vstd::prelude::*;

verus! {

/// Raw steps per world unit, per second and per unit of mass.
pub const SCALE: i64 = 1_000;

/// Largest magnitude of a stored coordinate.
pub const COORD_LIMIT: i64 = 1_000_000_000_000_000;

/// Largest magnitude of a coordinate of a goal point.
pub const POINT_LIMIT: i64 = 2_000_000_000_000_000;

/// Largest magnitude of a velocity component, of a speed and of an acceleration.
pub const SPEED_LIMIT: i64 = 1_000_000_000;

/// Largest radius.
pub const RADIUS_LIMIT: i64 = 1_000_000_000;

/// Largest mass.
pub const MASS_LIMIT: i64 = 1_000_000_000;

/// Largest magnitude of a stored duration.
pub const TIME_LIMIT: i64 = 1_000_000_000_000_000;

/// Largest magnitude of a coordinate on which squared lengths are computed.
pub const WIDE_LIMIT: i64 = 0x2000_0000_0000_0000;

/// Largest magnitude of a coordinate of a vector whose length is taken in
/// steps of a thousandth of a step.
pub const FINE_LIMIT: i64 = 4_000_000_000_000_000;

/// `x` brought into `lo ..= hi`.
pub open spec fn clamp(x: int, lo: int, hi: int) -> int {
    if x < lo {
        lo
    } else if x > hi {
        hi
    } else {
        x
    }
}

/// `x` brought into `-limit ..= limit`.
pub open spec fn saturate(x: int, limit: int) -> int {
    clamp(x, -limit, limit)
}

/// The quotient of `a` by a positive `d`, rounded toward zero.
pub open spec fn trunc_div(a: int, d: int) -> int
    recommends
        d > 0,
{
    if a >= 0 {
        a / d
    } else {
        -((-a) / d)
    }
}

/// `r` is the integer square root of `n`: the largest integer whose square
/// does not exceed `n`.
pub open spec fn is_isqrt(n: int, r: int) -> bool {
    0 <= r && r * r <= n < (r + 1) * (r + 1)
}

/// The integer square root of `n` (of a negative `n`: unspecified).
pub open spec fn isqrt(n: int) -> int {
    choose|r: int| is_isqrt(n, r)
}

/// The square root of `n` rounded up: the smallest integer whose square is
/// not below `n` (of a negative `n`: unspecified).
pub open spec fn isqrt_up(n: int) -> int {
    if isqrt(n) * isqrt(n) == n {
        isqrt(n)
    } else {
        isqrt(n) + 1
    }
}

/// The length of a vector of squared length `nn`, in steps of `1 / scale` of
/// a step, rounded up. Lengths are divided by, so the finer the steps, the
/// less is lost; and a length rounded up makes what is divided by it no
/// longer than it should be.
pub open spec fn fine_length(nn: int, scale: int) -> int {
    isqrt_up(nn * scale * scale)
}

/// A number has at most one integer square root.
pub proof fn lemma_isqrt_unique(n: int, a: int, b: int)
    by (nonlinear_arith)
    requires
        is_isqrt(n, a),
        is_isqrt(n, b),
    ensures
        a == b,
{
}

/// Whatever satisfies `is_isqrt` is `isqrt`.
pub proof fn lemma_isqrt_is(n: int, r: int)
    requires
        is_isqrt(n, r),
    ensures
        isqrt(n) == r,
{
    lemma_isqrt_unique(n, r, isqrt(n));
}

/// Bounds of a product from bounds of its factors.
pub proof fn lemma_mul_bounds(a: int, b: int, la: int, lb: int)
    by (nonlinear_arith)
    requires
        -la <= a <= la,
        -lb <= b <= lb,
    ensures
        -(la * lb) <= a * b <= la * lb,
{
}

/// Dividing an exact multiple gives the multiplier back.
pub proof fn lemma_trunc_div_exact(k: int, d: int)
    by (nonlinear_arith)
    requires
        d > 0,
    ensures
        trunc_div(k * d, d) == k,
{
}

/// What rounding toward zero leaves over is smaller than the divisor and has
/// the sign of the dividend.
pub proof fn lemma_trunc_div_remainder(a: int, d: int)
    requires
        d > 0,
    ensures
        a >= 0 ==> 0 <= a - trunc_div(a, d) * d < d,
        a <= 0 ==> -d < a - trunc_div(a, d) * d <= 0,
{
    if a >= 0 {
        vstd::arithmetic::div_mod::lemma_fundamental_div_mod(a, d);
        assert((a / d) * d == d * (a / d)) by (nonlinear_arith);
    } else {
        vstd::arithmetic::div_mod::lemma_fundamental_div_mod(-a, d);
        assert((-((-a) / d)) * d == -(d * ((-a) / d))) by (nonlinear_arith);
    }
}

/// A quotient rounded toward zero lies between zero and what is divided.
pub proof fn lemma_trunc_div_shrinks(a: int, d: int)
    requires
        d > 0,
    ensures
        a >= 0 ==> 0 <= trunc_div(a, d) <= a,
        a <= 0 ==> a <= trunc_div(a, d) <= 0,
{
    lemma_trunc_div_remainder(a, d);
    let q = trunc_div(a, d);
    assert(a >= 0 ==> 0 <= q <= a) by (nonlinear_arith)
        requires
            d > 0,
            a >= 0 ==> 0 <= a - q * d < d,
    ;
    assert(a <= 0 ==> a <= q <= 0) by (nonlinear_arith)
        requires
            d > 0,
            a <= 0 ==> -d < a - q * d <= 0,
    ;
}

/// Every natural number has an integer square root.
pub proof fn lemma_isqrt_exists(n: int)
    requires
        n >= 0,
    ensures
        is_isqrt(n, isqrt(n)),
    decreases n,
{
    if n == 0 {
        assert(is_isqrt(0, 0));
    } else {
        lemma_isqrt_exists(n - 1);
        let r = isqrt(n - 1);
        if (r + 1) * (r + 1) <= n {
            assert(is_isqrt(n, r + 1)) by (nonlinear_arith)
                requires
                    is_isqrt(n - 1, r),
                    (r + 1) * (r + 1) <= n,
            ;
        } else {
            assert(is_isqrt(n, r));
        }
    }
}

/// The root rounded up is the smallest integer whose square is not below
/// the number.
pub proof fn lemma_isqrt_up(n: int)
    requires
        n >= 0,
    ensures
        isqrt_up(n) >= 0,
        isqrt_up(n) * isqrt_up(n) >= n,
        n > 0 ==> isqrt_up(n) >= 1 && (isqrt_up(n) - 1) * (isqrt_up(n) - 1) < n,
{
    lemma_isqrt_exists(n);
    let r = isqrt(n);
    if r * r != n {
        assert((r + 1) * (r + 1) >= n && r * r < n);
    } else if n > 0 {
        assert(r >= 1 && (r - 1) * (r - 1) < r * r) by (nonlinear_arith)
            requires
                r * r == n,
                n > 0,
                r >= 0,
        ;
    }
}

/// The root rounded up is no larger than any number whose square is not
/// below the number.
pub proof fn lemma_isqrt_up_least(n: int, bound: int)
    requires
        n >= 0,
        bound >= 0,
        bound * bound >= n,
    ensures
        isqrt_up(n) <= bound,
{
    lemma_isqrt_up(n);
    let r = isqrt_up(n);
    if n > 0 {
        assert(r <= bound) by (nonlinear_arith)
            requires
                (r - 1) * (r - 1) < n,
                bound * bound >= n,
                bound >= 0,
                r >= 1,
        ;
    } else {
        lemma_isqrt_is(0, 0);
    }
}

/// The fine length of a vector is no shorter than the magnitude of either
/// coordinate at the same scale.
pub proof fn lemma_fine_length_covers(c: int, x: int, y: int, scale: int)
    requires
        c == x || c == y,
        scale >= 1,
    ensures
        fine_length(x * x + y * y, scale) >= 0,
        -fine_length(x * x + y * y, scale) <= c * scale <= fine_length(x * x + y * y, scale),
        (x != 0 || y != 0) ==> fine_length(x * x + y * y, scale) >= scale,
{
    let nn = x * x + y * y;
    let n = nn * scale * scale;
    assert(nn >= 0 && c * c <= nn && ((x != 0 || y != 0) ==> nn >= 1)) by (nonlinear_arith)
        requires
            nn == x * x + y * y,
            c == x || c == y,
    ;
    assert(n >= (c * scale) * (c * scale) && n >= 0 && (nn >= 1 ==> n >= scale * scale))
        by (nonlinear_arith)
        requires
            n == nn * scale * scale,
            c * c <= nn,
            nn >= 0,
            scale >= 1,
    ;
    lemma_isqrt_up(n);
    let l = isqrt_up(n);
    assert(-l <= c * scale <= l) by (nonlinear_arith)
        requires
            l * l >= n,
            n >= (c * scale) * (c * scale),
            l >= 0,
    ;
    if nn >= 1 {
        assert(l >= scale) by (nonlinear_arith)
            requires
                l * l >= n,
                n >= scale * scale,
                l >= 0,
                scale >= 1,
        ;
    }
}

/// Brings a wide value into `-limit ..= limit`.
pub fn saturate_i128(x: i128, limit: i64) -> (r: i64)
    requires
        limit >= 0,
    ensures
        r == saturate(x as int, limit as int),
{
    if x < -(limit as i128) {
        -limit
    } else if x > limit as i128 {
        limit
    } else {
        x as i64
    }
}

/// Divides by a positive number, rounding toward zero.
pub fn div_trunc(a: i128, d: i128) -> (q: i128)
    requires
        d > 0,
    ensures
        q == trunc_div(a as int, d as int),
{
    a / d
}

/// The integer square root, by bisection.
pub fn integer_sqrt(n: u128) -> (r: u64)
    requires
        n < 0x4000_0000_0000_0000_0000_0000_0000_0000,
    ensures
        is_isqrt(n as int, r as int),
        r == isqrt(n as int),
{
    let mut lo: u128 = 0;
    let mut hi: u128 = 0x8000_0000_0000_0000;
    while hi - lo > 1
        invariant
            lo < hi <= 0x8000_0000_0000_0000,
            lo * lo <= n < hi * hi,
        decreases hi - lo,
    {
        let mid: u128 = lo + (hi - lo) / 2;
        assert(mid * mid <= 0x4000_0000_0000_0000_0000_0000_0000_0000) by (nonlinear_arith)
            requires
                0 <= mid <= 0x8000_0000_0000_0000,
        ;
        if mid * mid <= n {
            lo = mid;
        } else {
            hi = mid;
        }
    }
    proof {
        lemma_isqrt_is(n as int, lo as int);
    }
    lo as u64
}

/// The integer square root, rounded up.
pub fn integer_sqrt_up(n: u128) -> (r: u128)
    requires
        n < 0x4000_0000_0000_0000_0000_0000_0000_0000,
    ensures
        r == isqrt_up(n as int),
        r <= 0x8000_0000_0000_0000,
{
    let root: u128 = integer_sqrt(n) as u128;
    proof {
        lemma_isqrt_up_least(n as int, 0x8000_0000_0000_0000);
    }
    if root * root == n {
        root
    } else {
        root + 1
    }
}

} // verus!
