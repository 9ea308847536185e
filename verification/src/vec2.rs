//! Points and vectors of the plane, in fixed-point coordinates.
use vstd::prelude::*;
use crate::fixed::{
    div_trunc, fine_length, integer_sqrt_up, lemma_fine_length_covers, lemma_isqrt_up,
    lemma_mul_bounds, lemma_trunc_div_remainder, saturate, saturate_i128, trunc_div, FINE_LIMIT,
    SCALE, WIDE_LIMIT,
};

verus! {

/// A point or a vector of the plane.
#[derive(Clone, Copy, Debug, PartialEq, Eq, Structural)]
pub struct Vec2 {
    pub x: i64,
    pub y: i64,
}

/// The squared distance between two points.
pub open spec fn distance_squared(a: Vec2, b: Vec2) -> int {
    (b.x - a.x) * (b.x - a.x) + (b.y - a.y) * (b.y - a.y)
}

/// One coordinate of the unit vector (of length `SCALE`) along `(x, y)`:
/// `c` is `x` or `y`. Zero for the zero vector. The length that is divided by
/// is taken to a thousandth of a step and rounded up, so that short vectors
/// too keep their direction and no unit vector is longer than `SCALE`.
pub open spec fn unit_component(c: int, x: int, y: int) -> int {
    if x == 0 && y == 0 {
        0
    } else {
        trunc_div(c * SCALE * SCALE, fine_length(x * x + y * y, SCALE as int))
    }
}

impl Vec2 {
    /// Both coordinates lie in `-limit ..= limit`.
    pub open spec fn within(self, limit: int) -> bool {
        -limit <= self.x <= limit && -limit <= self.y <= limit
    }

    /// The scalar product.
    pub open spec fn dot(self, other: Vec2) -> int {
        self.x * other.x + self.y * other.y
    }

    /// The squared length.
    pub open spec fn length_squared(self) -> int {
        self.x * self.x + self.y * self.y
    }

    /// The sum, each coordinate saturating at `limit`.
    pub open spec fn plus_saturating(self, dx: int, dy: int, limit: int) -> Vec2 {
        Vec2 { x: saturate(self.x + dx, limit) as i64, y: saturate(self.y + dy, limit) as i64 }
    }

    /// The vector of length `SCALE`, or a little less by rounding, in the
    /// direction of `self`; zero for the zero vector.
    pub open spec fn normalized(self) -> Vec2 {
        Vec2 {
            x: unit_component(self.x as int, self.x as int, self.y as int) as i64,
            y: unit_component(self.y as int, self.x as int, self.y as int) as i64,
        }
    }

    /// The vector with coordinates `x` and `y`.
    pub fn new(x: i64, y: i64) -> (v: Vec2)
        ensures
            v == (Vec2 { x, y }),
    {
        Vec2 { x, y }
    }

    /// The zero vector.
    pub fn zero() -> (v: Vec2)
        ensures
            v == (Vec2 { x: 0, y: 0 }),
    {
        Vec2 { x: 0, y: 0 }
    }

    /// Tells whether both coordinates lie in `-limit ..= limit`.
    pub fn is_within(&self, limit: i64) -> (b: bool)
        requires
            limit >= 0,
        ensures
            b == self.within(limit as int),
    {
        -limit <= self.x && self.x <= limit && -limit <= self.y && self.y <= limit
    }

    /// Tells whether the vector is no longer than `limit`.
    pub fn is_no_longer_than(&self, limit: i64) -> (b: bool)
        requires
            0 <= limit <= WIDE_LIMIT,
        ensures
            b == (self.within(limit as int) && self.length_squared() <= limit * limit),
    {
        if !self.is_within(limit) {
            return false;
        }
        let x: i128 = self.x as i128;
        let y: i128 = self.y as i128;
        let l: i128 = limit as i128;
        proof {
            lemma_mul_bounds(x as int, x as int, WIDE_LIMIT as int, WIDE_LIMIT as int);
            lemma_mul_bounds(y as int, y as int, WIDE_LIMIT as int, WIDE_LIMIT as int);
            lemma_mul_bounds(l as int, l as int, WIDE_LIMIT as int, WIDE_LIMIT as int);
        }
        x * x + y * y <= l * l
    }

    /// Adds `(dx, dy)`, each coordinate saturating at `limit`.
    pub fn add_saturating(&self, dx: i128, dy: i128, limit: i64) -> (v: Vec2)
        requires
            limit >= 0,
            -0x4000_0000_0000_0000_0000_0000_0000_0000 <= dx
                <= 0x4000_0000_0000_0000_0000_0000_0000_0000,
            -0x4000_0000_0000_0000_0000_0000_0000_0000 <= dy
                <= 0x4000_0000_0000_0000_0000_0000_0000_0000,
        ensures
            v == self.plus_saturating(dx as int, dy as int, limit as int),
            v.within(limit as int),
    {
        Vec2 {
            x: saturate_i128(self.x as i128 + dx, limit),
            y: saturate_i128(self.y as i128 + dy, limit),
        }
    }

    /// The squared distance to `other`.
    pub fn distance_squared_to(&self, other: &Vec2) -> (d: i128)
        requires
            self.within(WIDE_LIMIT as int),
            other.within(WIDE_LIMIT as int),
        ensures
            d == distance_squared(*self, *other),
            0 <= d <= 0x2000_0000_0000_0000_0000_0000_0000_0000,
    {
        let dx: i128 = other.x as i128 - self.x as i128;
        let dy: i128 = other.y as i128 - self.y as i128;
        proof {
            lemma_mul_bounds(dx as int, dx as int, 0x4000_0000_0000_0000, 0x4000_0000_0000_0000);
            lemma_mul_bounds(dy as int, dy as int, 0x4000_0000_0000_0000, 0x4000_0000_0000_0000);
            assert(dx * dx >= 0) by (nonlinear_arith);
            assert(dy * dy >= 0) by (nonlinear_arith);
        }
        dx * dx + dy * dy
    }

    /// The vector of length `SCALE`, or a little less by rounding, in the
    /// direction of `self`; the zero vector stays zero.
    pub fn normalize_or_zero(&self) -> (v: Vec2)
        requires
            self.within(FINE_LIMIT as int),
        ensures
            v == self.normalized(),
            v.length_squared() <= SCALE * SCALE,
            v.within(SCALE as int),
    {
        if self.x == 0 && self.y == 0 {
            return Vec2 { x: 0, y: 0 };
        }
        let x: i128 = self.x as i128;
        let y: i128 = self.y as i128;
        proof {
            lemma_mul_bounds(x as int, x as int, FINE_LIMIT as int, FINE_LIMIT as int);
            lemma_mul_bounds(y as int, y as int, FINE_LIMIT as int, FINE_LIMIT as int);
            assert(x * x >= 0 && y * y >= 0) by (nonlinear_arith);
        }
        let nn: i128 = x * x + y * y;
        let len: i128 = integer_sqrt_up((nn * 1_000 * 1_000) as u128) as i128;
        proof {
            lemma_fine_length_covers(x as int, x as int, y as int, SCALE as int);
            lemma_unit_length(x as int, y as int);
        }
        Vec2 {
            x: div_trunc(x * 1_000 * 1_000, len) as i64,
            y: div_trunc(y * 1_000 * 1_000, len) as i64,
        }
    }
}

/// A unit vector is no longer than `SCALE`.
pub proof fn lemma_unit_length(x: int, y: int)
    ensures
        unit_component(x, x, y) * unit_component(x, x, y) + unit_component(y, x, y)
            * unit_component(y, x, y) <= SCALE * SCALE,
        -SCALE <= unit_component(x, x, y) <= SCALE,
        -SCALE <= unit_component(y, x, y) <= SCALE,
{
    if x != 0 || y != 0 {
        let nn = x * x + y * y;
        let l = fine_length(nn, SCALE as int);
        let ux = unit_component(x, x, y);
        let uy = unit_component(y, x, y);
        lemma_fine_length_covers(x, x, y, SCALE as int);
        assert(nn >= 1) by (nonlinear_arith)
            requires
                nn == x * x + y * y,
                x != 0 || y != 0,
        ;
        assert(nn * SCALE * SCALE > 0) by (nonlinear_arith)
            requires
                nn >= 1,
                SCALE == 1000,
        ;
        lemma_isqrt_up(nn * SCALE * SCALE);
        lemma_trunc_div_remainder(x * SCALE * SCALE, l);
        lemma_trunc_div_remainder(y * SCALE * SCALE, l);
        lemma_shrunk_square(ux, x * SCALE * SCALE, l);
        lemma_shrunk_square(uy, y * SCALE * SCALE, l);
        // (ux^2 + uy^2) l^2 <= (x^2 + y^2) SCALE^4 <= l^2 SCALE^2
        assert((x * SCALE * SCALE) * (x * SCALE * SCALE) + (y * SCALE * SCALE) * (y * SCALE * SCALE)
            == (nn * SCALE * SCALE) * (SCALE * SCALE)) by (nonlinear_arith)
            requires
                nn == x * x + y * y,
        ;
        assert((nn * SCALE * SCALE) * (SCALE * SCALE) <= (l * l) * (SCALE * SCALE))
            by (nonlinear_arith)
            requires
                l * l >= nn * SCALE * SCALE,
                SCALE == 1000,
        ;
        assert(ux * ux + uy * uy <= SCALE * SCALE) by (nonlinear_arith)
            requires
                (ux * ux) * (l * l) + (uy * uy) * (l * l) <= (l * l) * (SCALE * SCALE),
                l >= 1,
        ;
        assert(-SCALE <= ux <= SCALE && -SCALE <= uy <= SCALE) by (nonlinear_arith)
            requires
                ux * ux + uy * uy <= SCALE * SCALE,
                SCALE == 1000,
        ;
    }
}

/// The square of a quotient rounded toward zero, times the square of the
/// divisor, is no more than the square of the dividend.
pub proof fn lemma_shrunk_square(q: int, a: int, d: int)
    by (nonlinear_arith)
    requires
        d > 0,
        a >= 0 ==> 0 <= a - q * d < d,
        a <= 0 ==> -d < a - q * d <= 0,
    ensures
        (q * q) * (d * d) <= a * a,
{
}

} // verus!
