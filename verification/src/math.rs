//! Geometric primitives: 2D vectors, 3x3 affine transforms, line segments.
//!
//! Coordinates are 16.16 fixed-point numbers (see `fixed`). Segment
//! intersection solves the 2x2 linear system exactly in integers, so
//! "parallel" means an exactly zero determinant and the returned
//! parameter is the truncated rational solution.

use vstd::prelude::*;

verus! {

use crate::fixed::{fx_abs, tdiv, fx_mul_spec, fx_div_spec, isqrt_spec, lemma_tdiv_abs_le};
use crate::fixed::{fx_mul, fx_div, isqrt64, sin_fx, cos_fx, sin_fx_spec, cos_fx_spec};
use crate::fixed::FX_LIM;
use vstd::arithmetic::mul::lemma_mul_inequality;
use vstd::arithmetic::mul::lemma_mul_upper_bound;

/// A 2D point or direction in fixed-point coordinates.
#[derive(Clone, Copy, PartialEq, Eq, Structural, Debug)]
pub struct Vec2 {
    pub x: i64,
    pub y: i64,
}

/// A 3x3 affine transform in fixed-point; the third row is kept at
/// `[0, 0, FX_ONE]` by the constructors.
#[derive(Clone, Copy, PartialEq, Eq, Structural, Debug)]
pub struct Mat3 {
    pub a00: i64,
    pub a01: i64,
    pub a02: i64,
    pub a10: i64,
    pub a11: i64,
    pub a12: i64,
    pub a20: i64,
    pub a21: i64,
    pub a22: i64,
}

/// An ordered pair of endpoints.
#[derive(Clone, Copy, PartialEq, Eq, Structural, Debug)]
pub struct LineSeg {
    pub a: Vec2,
    pub b: Vec2,
}

/// Both coordinates of `v` have magnitude at most `lim`.
pub open spec fn v2_bounded(v: Vec2, lim: int) -> bool {
    &&& -lim <= v.x <= lim
    &&& -lim <= v.y <= lim
}

/// Both endpoints of `s` are bounded by `lim`.
pub open spec fn seg_bounded(s: LineSeg, lim: int) -> bool {
    v2_bounded(s.a, lim) && v2_bounded(s.b, lim)
}

/// The fixed-point length of `v`: the integer square root of the raw
/// sum of squares (exact, since the unit scale is a perfect square).
pub open spec fn v2_len_spec(v: Vec2) -> int {
    isqrt_spec((v.x * v.x + v.y * v.y) as nat) as int
}

/// The point of `s` at parameter `t` (fixed-point, `0..=FX_ONE`).
pub open spec fn seg_at_spec(s: LineSeg, t: int) -> Vec2 {
    Vec2 {
        x: (s.a.x + fx_mul_spec(s.b.x - s.a.x, t)) as i64,
        y: (s.a.y + fx_mul_spec(s.b.y - s.a.y, t)) as i64,
    }
}

/// Whether the exact rational `n / d` lies in `[0, 1]` (for `d != 0`).
pub open spec fn param_in_range(n: int, d: int) -> bool {
    if d > 0 {
        0 <= n <= d
    } else {
        d <= n <= 0
    }
}

/// The determinant of the intersection system: the cross product of the
/// two segments' direction vectors. Zero exactly when they are parallel.
pub open spec fn seg_denom_spec(l1: LineSeg, l2: LineSeg) -> int {
    (l2.b.y - l2.a.y) * (l1.b.x - l1.a.x) - (l2.b.x - l2.a.x) * (l1.b.y - l1.a.y)
}

/// Segment intersection: the parameter along `l2` at which `l1` crosses
/// it, when both parameters of the linear system lie in `[0, 1]`.
/// Parallel segments (zero determinant) never intersect.
pub open spec fn seg_intersect_spec(l1: LineSeg, l2: LineSeg) -> Option<i64> {
    let denom = seg_denom_spec(l1, l2);
    let numa = (l2.b.x - l2.a.x) * (l1.a.y - l2.a.y) - (l2.b.y - l2.a.y) * (l1.a.x - l2.a.x);
    let numb = (l1.b.x - l1.a.x) * (l1.a.y - l2.a.y) - (l1.b.y - l1.a.y) * (l1.a.x - l2.a.x);
    if denom == 0 {
        None
    } else if param_in_range(numa, denom) && param_in_range(numb, denom) {
        Some((tdiv(numb * 65536, denom)) as i64)
    } else {
        None
    }
}

/// Parallel segments never report an intersection, whatever their overlap.
pub proof fn lemma_parallel_no_intersection(l1: LineSeg, l2: LineSeg)
    requires
        seg_denom_spec(l1, l2) == 0,
    ensures
        seg_intersect_spec(l1, l2) is None,
{
}

/// An in-range parameter quotient, scaled to fixed point, lies in
/// `[0, FX_ONE]`.
pub proof fn lemma_param_t_bounds(n: int, d: int)
    requires
        d != 0,
        param_in_range(n, d),
    ensures
        0 <= tdiv(n * 65536, d) <= 65536,
{
    assert(fx_abs(n) <= fx_abs(d));
    assert(fx_abs(n * 65536) == fx_abs(n) * 65536) by (nonlinear_arith);
    lemma_mul_inequality(fx_abs(n), fx_abs(d), 65536);
    lemma_tdiv_abs_le(n * 65536, fx_abs(d), 65536);
    if d > 0 {
        assert(n * 65536 >= 0) by (nonlinear_arith)
            requires
                n >= 0,
        ;
    } else {
        assert(n * 65536 <= 0) by (nonlinear_arith)
            requires
                n <= 0,
        ;
    }
    vstd::arithmetic::div_mod::lemma_div_pos_is_pos(fx_abs(n * 65536), fx_abs(d));
}

/// Any returned intersection parameter is a fixed-point value in
/// `[0, FX_ONE]`.
pub proof fn lemma_intersect_t_range(l1: LineSeg, l2: LineSeg)
    ensures
        seg_intersect_spec(l1, l2) matches Some(t) ==> 0 <= t <= 65536,
{
    let denom = seg_denom_spec(l1, l2);
    let numb = (l1.b.x - l1.a.x) * (l1.a.y - l2.a.y) - (l1.b.y - l1.a.y) * (l1.a.x - l2.a.x);
    if denom != 0 && param_in_range(numb, denom) {
        lemma_param_t_bounds(numb, denom);
    }
}

/// The point at an in-range parameter stays inside the segment's
/// coordinate bounds.
pub proof fn lemma_seg_at_bounded(s: LineSeg, t: int, lim: int)
    requires
        seg_bounded(s, lim),
        lim >= 0,
        0 <= t <= 65536,
    ensures
        v2_bounded(seg_at_spec(s, t), lim),
{
    let dx = s.b.x - s.a.x;
    let dy = s.b.y - s.a.y;
    assert(fx_abs(dx * t) <= 65536 * fx_abs(dx)) by (nonlinear_arith)
        requires
            0 <= t <= 65536,
    ;
    assert(fx_abs(dy * t) <= 65536 * fx_abs(dy)) by (nonlinear_arith)
        requires
            0 <= t <= 65536,
    ;
    lemma_tdiv_abs_le(dx * t, 65536, fx_abs(dx));
    lemma_tdiv_abs_le(dy * t, 65536, fx_abs(dy));
    if dx >= 0 {
        assert(dx * t >= 0) by (nonlinear_arith)
            requires
                dx >= 0,
                t >= 0,
        ;
    } else {
        assert(dx * t <= 0) by (nonlinear_arith)
            requires
                dx < 0,
                t >= 0,
        ;
    }
    if dy >= 0 {
        assert(dy * t >= 0) by (nonlinear_arith)
            requires
                dy >= 0,
                t >= 0,
        ;
    } else {
        assert(dy * t <= 0) by (nonlinear_arith)
            requires
                dy < 0,
                t >= 0,
        ;
    }
}

/// Truncating division of a wide product, toward zero.
fn tdiv_i128(a: i128, b: i128) -> (r: i128)
    requires
        b != 0,
        -0x4000_0000_0000_0000_0000_0000_0000_0000 < a < 0x4000_0000_0000_0000_0000_0000_0000_0000,
        -0x4000_0000_0000_0000_0000_0000_0000_0000 < b,
    ensures
        r == tdiv(a as int, b as int),
{
    let neg: bool = (a < 0) != (b < 0);
    let m: u128 = if a < 0 {
        (-a) as u128
    } else {
        a as u128
    };
    let d: u128 = if b < 0 {
        (-b) as u128
    } else {
        b as u128
    };
    let q: u128 = m / d;
    proof {
        vstd::arithmetic::div_mod::lemma_div_is_ordered(
            m as int,
            0x4000_0000_0000_0000_0000_0000_0000_0000,
            d as int,
        );
    }
    if neg {
        -(q as i128)
    } else {
        q as i128
    }
}

impl Vec2 {
    /// Build a vector from its coordinates.
    pub fn new(x: i64, y: i64) -> (r: Vec2)
        ensures
            r.x == x,
            r.y == y,
    {
        Vec2 { x, y }
    }

    /// Componentwise sum.
    pub fn add(self, rhs: Vec2) -> (r: Vec2)
        requires
            i64::MIN <= self.x + rhs.x <= i64::MAX,
            i64::MIN <= self.y + rhs.y <= i64::MAX,
        ensures
            r.x == self.x + rhs.x,
            r.y == self.y + rhs.y,
    {
        Vec2 { x: self.x + rhs.x, y: self.y + rhs.y }
    }

    /// Componentwise difference.
    pub fn sub(self, rhs: Vec2) -> (r: Vec2)
        requires
            i64::MIN <= self.x - rhs.x <= i64::MAX,
            i64::MIN <= self.y - rhs.y <= i64::MAX,
        ensures
            r.x == self.x - rhs.x,
            r.y == self.y - rhs.y,
    {
        Vec2 { x: self.x - rhs.x, y: self.y - rhs.y }
    }

    /// Uniform scale by a fixed-point factor.
    pub fn mul(self, rhs: i64) -> (r: Vec2)
        requires
            -0x4000_0000_0000_0000_0000 <= self.x * rhs <= 0x4000_0000_0000_0000_0000,
            -0x4000_0000_0000_0000_0000 <= self.y * rhs <= 0x4000_0000_0000_0000_0000,
        ensures
            r.x == fx_mul_spec(self.x as int, rhs as int),
            r.y == fx_mul_spec(self.y as int, rhs as int),
    {
        Vec2 { x: fx_mul(self.x, rhs), y: fx_mul(self.y, rhs) }
    }

    /// Uniform division by a fixed-point factor.
    pub fn div(self, rhs: i64) -> (r: Vec2)
        requires
            rhs != 0,
            -0x1000_0000_0000 <= self.x <= 0x1000_0000_0000,
            -0x1000_0000_0000 <= self.y <= 0x1000_0000_0000,
        ensures
            r.x == fx_div_spec(self.x as int, rhs as int),
            r.y == fx_div_spec(self.y as int, rhs as int),
    {
        Vec2 { x: fx_div(self.x, rhs), y: fx_div(self.y, rhs) }
    }

    /// Componentwise negation.
    pub fn neg(self) -> (r: Vec2)
        requires
            self.x > i64::MIN,
            self.y > i64::MIN,
        ensures
            r.x == -self.x,
            r.y == -self.y,
    {
        Vec2 { x: -self.x, y: -self.y }
    }

    /// Squared length, as a fixed-point number of square units.
    pub fn get_length_sqr(self) -> (r: i64)
        requires
            v2_bounded(self, 0x4000_0000),
        ensures
            r == (self.x * self.x + self.y * self.y) / 65536,
    {
        proof {
            lemma_mul_upper_bound(fx_abs(self.x as int), 0x4000_0000, fx_abs(self.x as int), 0x4000_0000);
            lemma_mul_upper_bound(fx_abs(self.y as int), 0x4000_0000, fx_abs(self.y as int), 0x4000_0000);
            assert(self.x * self.x == fx_abs(self.x as int) * fx_abs(self.x as int)) by (nonlinear_arith);
            assert(self.y * self.y == fx_abs(self.y as int) * fx_abs(self.y as int)) by (nonlinear_arith);
            assert(self.x * self.x >= 0) by (nonlinear_arith);
            assert(self.y * self.y >= 0) by (nonlinear_arith);
        }
        let sq: i64 = self.x * self.x + self.y * self.y;
        sq / 65536
    }

    /// Length, as a fixed-point number of units.
    pub fn get_length(self) -> (r: i64)
        requires
            v2_bounded(self, 0x4000_0000),
        ensures
            r == v2_len_spec(self),
            0 <= r <= 0x8000_0000,
    {
        proof {
            lemma_mul_upper_bound(fx_abs(self.x as int), 0x4000_0000, fx_abs(self.x as int), 0x4000_0000);
            lemma_mul_upper_bound(fx_abs(self.y as int), 0x4000_0000, fx_abs(self.y as int), 0x4000_0000);
            assert(self.x * self.x == fx_abs(self.x as int) * fx_abs(self.x as int)) by (nonlinear_arith);
            assert(self.y * self.y == fx_abs(self.y as int) * fx_abs(self.y as int)) by (nonlinear_arith);
            assert(self.x * self.x >= 0) by (nonlinear_arith);
            assert(self.y * self.y >= 0) by (nonlinear_arith);
        }
        let sq: u64 = (self.x * self.x + self.y * self.y) as u64;
        let root: u64 = isqrt64(sq);
        proof {
            assert(isqrt_spec(sq as nat) * isqrt_spec(sq as nat) <= sq as nat);
            assert(root as int <= 0x8000_0000) by (nonlinear_arith)
                requires
                    root as int * root as int <= 0x4000_0000_0000_0000,
                    root >= 0,
            ;
        }
        root as i64
    }

    /// Fixed-point dot product (each coordinate product truncated).
    pub fn dot(self, rhs: Vec2) -> (r: i64)
        requires
            v2_bounded(self, 0x4000_0000),
            v2_bounded(rhs, 0x4000_0000),
        ensures
            r == fx_mul_spec(self.x as int, rhs.x as int) + fx_mul_spec(self.y as int, rhs.y as int),
    {
        proof {
            lemma_mul_upper_bound(fx_abs(self.x as int), 0x4000_0000, fx_abs(rhs.x as int), 0x4000_0000);
            lemma_mul_upper_bound(fx_abs(self.y as int), 0x4000_0000, fx_abs(rhs.y as int), 0x4000_0000);
            assert(fx_abs(self.x as int * rhs.x as int) == fx_abs(self.x as int) * fx_abs(rhs.x as int))
                by (nonlinear_arith);
            assert(fx_abs(self.y as int * rhs.y as int) == fx_abs(self.y as int) * fx_abs(rhs.y as int))
                by (nonlinear_arith);
            lemma_tdiv_abs_le(self.x as int * rhs.x as int, 65536, 0x4000_0000_0000);
            lemma_tdiv_abs_le(self.y as int * rhs.y as int, 65536, 0x4000_0000_0000);
        }
        fx_mul(self.x, rhs.x) + fx_mul(self.y, rhs.y)
    }

    /// Fixed-point cross product (each coordinate product truncated).
    pub fn cross(self, rhs: Vec2) -> (r: i64)
        requires
            v2_bounded(self, 0x4000_0000),
            v2_bounded(rhs, 0x4000_0000),
        ensures
            r == fx_mul_spec(self.x as int, rhs.y as int) - fx_mul_spec(rhs.x as int, self.y as int),
    {
        proof {
            lemma_mul_upper_bound(fx_abs(self.x as int), 0x4000_0000, fx_abs(rhs.y as int), 0x4000_0000);
            lemma_mul_upper_bound(fx_abs(rhs.x as int), 0x4000_0000, fx_abs(self.y as int), 0x4000_0000);
            assert(fx_abs(self.x as int * rhs.y as int) == fx_abs(self.x as int) * fx_abs(rhs.y as int))
                by (nonlinear_arith);
            assert(fx_abs(rhs.x as int * self.y as int) == fx_abs(rhs.x as int) * fx_abs(self.y as int))
                by (nonlinear_arith);
            lemma_tdiv_abs_le(self.x as int * rhs.y as int, 65536, 0x4000_0000_0000);
            lemma_tdiv_abs_le(rhs.x as int * self.y as int, 65536, 0x4000_0000_0000);
        }
        fx_mul(self.x, rhs.y) - fx_mul(rhs.x, self.y)
    }

    /// Scale to unit length (approximately, in fixed point).
    pub fn normalize(self) -> (r: Vec2)
        requires
            v2_bounded(self, 0x2000_0000),
            self.x != 0 || self.y != 0,
        ensures
            r.x == fx_div_spec(self.x as int, v2_len_spec(self)),
            r.y == fx_div_spec(self.y as int, v2_len_spec(self)),
            v2_bounded(r, 65536),
    {
        let len: i64 = self.get_length();
        proof {
            assert(self.x * self.x + self.y * self.y >= 1) by (nonlinear_arith)
                requires
                    self.x != 0 || self.y != 0,
            ;
            let n = (self.x * self.x + self.y * self.y) as nat;
            crate::fixed::lemma_isqrt_bounds(n);
            let s = isqrt_spec(n);
            if s == 0 {
                assert((s + 1) * (s + 1) == 1) by (nonlinear_arith)
                    requires
                        s == 0,
                ;
            }
            let root = s as int;
            assert(fx_abs(self.x as int) <= root && fx_abs(self.y as int) <= root)
                by (nonlinear_arith)
                requires
                    root * root <= self.x * self.x + self.y * self.y,
                    self.x * self.x + self.y * self.y < (root + 1) * (root + 1),
                    root >= 0,
            ;
            assert(fx_abs(self.x as int * 65536) == fx_abs(self.x as int) * 65536)
                by (nonlinear_arith);
            assert(fx_abs(self.y as int * 65536) == fx_abs(self.y as int) * 65536)
                by (nonlinear_arith);
            lemma_mul_inequality(fx_abs(self.x as int), root, 65536);
            lemma_mul_inequality(fx_abs(self.y as int), root, 65536);
            lemma_tdiv_abs_le(self.x as int * 65536, root, 65536);
            lemma_tdiv_abs_le(self.y as int * 65536, root, 65536);
        }
        self.div(len)
    }

    /// Projection of `self` onto `rhs`. The target must not vanish;
    /// the precondition asks for a small fraction of a unit of length,
    /// which the fixed-point arithmetic needs to stay in range.
    pub fn project(self, rhs: Vec2) -> (r: Vec2)
        requires
            v2_bounded(self, FX_LIM as int),
            v2_bounded(rhs, FX_LIM as int),
            rhs.x * rhs.x + rhs.y * rhs.y >= 0x80_0000,
        ensures
            ({
                let ratio = fx_div_spec(
                    fx_mul_spec(self.x as int, rhs.x as int) + fx_mul_spec(self.y as int, rhs.y as int),
                    (rhs.x * rhs.x + rhs.y * rhs.y) / 65536,
                );
                r.x == fx_mul_spec(rhs.x as int, ratio) && r.y == fx_mul_spec(rhs.y as int, ratio)
            }),
    {
        let d: i64 = self.dot(rhs);
        let ls: i64 = rhs.get_length_sqr();
        proof {
            // 128 <= ls, and |d| <= 2 * 2^40.
            vstd::arithmetic::div_mod::lemma_div_is_ordered(
                0x80_0000,
                rhs.x * rhs.x + rhs.y * rhs.y,
                65536,
            );
            lemma_mul_upper_bound(fx_abs(self.x as int), 0x1000_0000, fx_abs(rhs.x as int), 0x1000_0000);
            lemma_mul_upper_bound(fx_abs(self.y as int), 0x1000_0000, fx_abs(rhs.y as int), 0x1000_0000);
            assert(fx_abs(self.x as int * rhs.x as int) == fx_abs(self.x as int) * fx_abs(rhs.x as int))
                by (nonlinear_arith);
            assert(fx_abs(self.y as int * rhs.y as int) == fx_abs(self.y as int) * fx_abs(rhs.y as int))
                by (nonlinear_arith);
            lemma_tdiv_abs_le(self.x as int * rhs.x as int, 65536, 0x100_0000_0000);
            lemma_tdiv_abs_le(self.y as int * rhs.y as int, 65536, 0x100_0000_0000);
        }
        let ratio: i64 = fx_div(d, ls);
        proof {
            // |ratio| <= 2^50 because ls >= 128 and |d * 65536| <= 2^57.
            assert(fx_abs(d as int * 65536) == fx_abs(d as int) * 65536) by (nonlinear_arith);
            assert(fx_abs(d as int) * 65536 <= 128 * 0x4_0000_0000_0000) by (nonlinear_arith)
                requires
                    fx_abs(d as int) <= 0x200_0000_0000,
            ;
            lemma_mul_inequality(128, ls as int, 0x4_0000_0000_0000);
            lemma_tdiv_abs_le(d as int * 65536, ls as int, 0x4_0000_0000_0000);
            // so |rhs.x * ratio| <= 2^28 * 2^50 = 2^78.
            lemma_mul_upper_bound(
                fx_abs(rhs.x as int),
                0x1000_0000,
                fx_abs(ratio as int),
                0x4_0000_0000_0000,
            );
            lemma_mul_upper_bound(
                fx_abs(rhs.y as int),
                0x1000_0000,
                fx_abs(ratio as int),
                0x4_0000_0000_0000,
            );
            assert(fx_abs(rhs.x as int * ratio as int) == fx_abs(rhs.x as int) * fx_abs(ratio as int))
                by (nonlinear_arith);
            assert(fx_abs(rhs.y as int * ratio as int) == fx_abs(rhs.y as int) * fx_abs(ratio as int))
                by (nonlinear_arith);
        }
        rhs.mul(ratio)
    }
}

impl LineSeg {
    /// Build a segment from endpoint coordinates.
    pub fn new(x0: i64, y0: i64, x1: i64, y1: i64) -> (r: LineSeg)
        ensures
            r.a.x == x0,
            r.a.y == y0,
            r.b.x == x1,
            r.b.y == y1,
    {
        LineSeg { a: Vec2 { x: x0, y: y0 }, b: Vec2 { x: x1, y: y1 } }
    }

    /// Squared length in fixed-point square units.
    pub fn get_length_sqr(self) -> (r: i64)
        requires
            seg_bounded(self, 0x2000_0000),
        ensures
            r == ((self.b.x - self.a.x) * (self.b.x - self.a.x) + (self.b.y - self.a.y) * (self.b.y
                - self.a.y)) / 65536,
    {
        self.b.sub(self.a).get_length_sqr()
    }

    /// Length in fixed-point units.
    pub fn get_length(self) -> (r: i64)
        requires
            seg_bounded(self, 0x2000_0000),
        ensures
            r == v2_len_spec(Vec2 { x: (self.b.x - self.a.x) as i64, y: (self.b.y - self.a.y) as i64 }),
            0 <= r <= 0x8000_0000,
    {
        self.b.sub(self.a).get_length()
    }

    /// The point at parameter `t` in `[0, FX_ONE]`, truncated toward `a`.
    /// The result stays within the endpoints' bounding box.
    pub fn at(self, t: i64) -> (r: Vec2)
        requires
            seg_bounded(self, 0x4000_0000),
            0 <= t <= 65536,
        ensures
            r == seg_at_spec(self, t as int),
            self.a.x <= self.b.x ==> self.a.x <= r.x <= self.b.x,
            self.b.x <= self.a.x ==> self.b.x <= r.x <= self.a.x,
            self.a.y <= self.b.y ==> self.a.y <= r.y <= self.b.y,
            self.b.y <= self.a.y ==> self.b.y <= r.y <= self.a.y,
    {
        let d: Vec2 = self.b.sub(self.a);
        proof {
            assert(fx_abs(d.x as int * t as int) <= 65536 * fx_abs(d.x as int)) by (nonlinear_arith)
                requires
                    0 <= t <= 65536,
            ;
            assert(fx_abs(d.y as int * t as int) <= 65536 * fx_abs(d.y as int)) by (nonlinear_arith)
                requires
                    0 <= t <= 65536,
            ;
            lemma_tdiv_abs_le(d.x as int * t as int, 65536, fx_abs(d.x as int));
            lemma_tdiv_abs_le(d.y as int * t as int, 65536, fx_abs(d.y as int));
            if d.x >= 0 {
                assert(d.x as int * t as int >= 0) by (nonlinear_arith)
                    requires
                        d.x >= 0,
                        t >= 0,
                ;
            } else {
                assert(d.x as int * t as int <= 0) by (nonlinear_arith)
                    requires
                        d.x < 0,
                        t >= 0,
                ;
            }
            if d.y >= 0 {
                assert(d.y as int * t as int >= 0) by (nonlinear_arith)
                    requires
                        d.y >= 0,
                        t >= 0,
                ;
            } else {
                assert(d.y as int * t as int <= 0) by (nonlinear_arith)
                    requires
                        d.y < 0,
                        t >= 0,
                ;
            }
            lemma_mul_upper_bound(fx_abs(d.x as int), 0x8000_0000, t as int, 65536);
            lemma_mul_upper_bound(fx_abs(d.y as int), 0x8000_0000, t as int, 65536);
            assert(fx_abs(d.x as int * t as int) == fx_abs(d.x as int) * (t as int)) by (nonlinear_arith)
                requires
                    t >= 0,
            ;
            assert(fx_abs(d.y as int * t as int) == fx_abs(d.y as int) * (t as int)) by (nonlinear_arith)
                requires
                    t >= 0,
            ;
        }
        let off: Vec2 = d.mul(t);
        self.a.add(off)
    }

    /// Apply an affine transform to both endpoints.
    pub fn transform(self, mat: Mat3) -> (r: LineSeg)
        requires
            seg_bounded(self, FX_LIM as int),
            m3_bounded(mat, 0x10_0000_0000),
        ensures
            r.a == m3_apply_spec(mat, self.a),
            r.b == m3_apply_spec(mat, self.b),
    {
        LineSeg { a: mat.apply(self.a), b: mat.apply(self.b) }
    }

    /// Intersection with `rhs`: the parameter along `rhs` (fixed-point,
    /// in `[0, FX_ONE]`) where `self` crosses it, if the crossing lies
    /// within both segments. Exactly parallel segments yield `None`.
    pub fn intersects(self, rhs: LineSeg) -> (r: Option<i64>)
        requires
            seg_bounded(self, 0x2000_0000),
            seg_bounded(rhs, 0x2000_0000),
        ensures
            r == seg_intersect_spec(self, rhs),
            r matches Some(t) ==> 0 <= t <= 65536,
    {
        let dx1x3: i64 = self.a.x - rhs.a.x;
        let dy1y3: i64 = self.a.y - rhs.a.y;
        let dx2x1: i64 = self.b.x - self.a.x;
        let dy2y1: i64 = self.b.y - self.a.y;
        let dx4x3: i64 = rhs.b.x - rhs.a.x;
        let dy4y3: i64 = rhs.b.y - rhs.a.y;
        proof {
            lemma_mul_upper_bound(fx_abs(dy4y3 as int), 0x4000_0000, fx_abs(dx2x1 as int), 0x4000_0000);
            lemma_mul_upper_bound(fx_abs(dx4x3 as int), 0x4000_0000, fx_abs(dy2y1 as int), 0x4000_0000);
            lemma_mul_upper_bound(fx_abs(dx4x3 as int), 0x4000_0000, fx_abs(dy1y3 as int), 0x4000_0000);
            lemma_mul_upper_bound(fx_abs(dy4y3 as int), 0x4000_0000, fx_abs(dx1x3 as int), 0x4000_0000);
            lemma_mul_upper_bound(fx_abs(dx2x1 as int), 0x4000_0000, fx_abs(dy1y3 as int), 0x4000_0000);
            lemma_mul_upper_bound(fx_abs(dy2y1 as int), 0x4000_0000, fx_abs(dx1x3 as int), 0x4000_0000);
            assert(fx_abs(dy4y3 as int * dx2x1 as int) == fx_abs(dy4y3 as int) * fx_abs(dx2x1 as int))
                by (nonlinear_arith);
            assert(fx_abs(dx4x3 as int * dy2y1 as int) == fx_abs(dx4x3 as int) * fx_abs(dy2y1 as int))
                by (nonlinear_arith);
            assert(fx_abs(dx4x3 as int * dy1y3 as int) == fx_abs(dx4x3 as int) * fx_abs(dy1y3 as int))
                by (nonlinear_arith);
            assert(fx_abs(dy4y3 as int * dx1x3 as int) == fx_abs(dy4y3 as int) * fx_abs(dx1x3 as int))
                by (nonlinear_arith);
            assert(fx_abs(dx2x1 as int * dy1y3 as int) == fx_abs(dx2x1 as int) * fx_abs(dy1y3 as int))
                by (nonlinear_arith);
            assert(fx_abs(dy2y1 as int * dx1x3 as int) == fx_abs(dy2y1 as int) * fx_abs(dx1x3 as int))
                by (nonlinear_arith);
        }
        let denom: i64 = dy4y3 * dx2x1 - dx4x3 * dy2y1;
        let numa: i64 = dx4x3 * dy1y3 - dy4y3 * dx1x3;
        let numb: i64 = dx2x1 * dy1y3 - dy2y1 * dx1x3;
        if denom == 0 {
            None
        } else {
            let a_ok: bool = if denom > 0 {
                0 <= numa && numa <= denom
            } else {
                denom <= numa && numa <= 0
            };
            let b_ok: bool = if denom > 0 {
                0 <= numb && numb <= denom
            } else {
                denom <= numb && numb <= 0
            };
            if a_ok && b_ok {
                proof {
                    lemma_param_t_bounds(numb as int, denom as int);
                }
                let t: i128 = tdiv_i128((numb as i128) * 65536, denom as i128);
                Some(t as i64)
            } else {
                None
            }
        }
    }
}

/// All nine entries of `m` have magnitude at most `lim`.
pub open spec fn m3_bounded(m: Mat3, lim: int) -> bool {
    &&& -lim <= m.a00 <= lim
    &&& -lim <= m.a01 <= lim
    &&& -lim <= m.a02 <= lim
    &&& -lim <= m.a10 <= lim
    &&& -lim <= m.a11 <= lim
    &&& -lim <= m.a12 <= lim
    &&& -lim <= m.a20 <= lim
    &&& -lim <= m.a21 <= lim
    &&& -lim <= m.a22 <= lim
}

/// The image of point `v` under the affine transform `m`.
pub open spec fn m3_apply_spec(m: Mat3, v: Vec2) -> Vec2 {
    Vec2 {
        x: (tdiv(m.a00 * v.x + m.a01 * v.y, 65536) + m.a02) as i64,
        y: (tdiv(m.a10 * v.x + m.a11 * v.y, 65536) + m.a12) as i64,
    }
}

impl Mat3 {
    /// Build a matrix from its entries, row by row.
    pub fn new(
        a00: i64,
        a01: i64,
        a02: i64,
        a10: i64,
        a11: i64,
        a12: i64,
        a20: i64,
        a21: i64,
        a22: i64,
    ) -> (r: Mat3)
        ensures
            r == (Mat3 { a00, a01, a02, a10, a11, a12, a20, a21, a22 }),
    {
        Mat3 { a00, a01, a02, a10, a11, a12, a20, a21, a22 }
    }

    /// Rotation by a fixed-point angle in radians.
    pub fn rotation(theta: i64) -> (r: Mat3)
        requires
            -0x4000_0000_0000_0000 < theta < 0x4000_0000_0000_0000,
        ensures
            r.a00 == cos_fx_spec(theta as int),
            r.a01 == -sin_fx_spec(theta as int),
            r.a02 == 0,
            r.a10 == sin_fx_spec(theta as int),
            r.a11 == cos_fx_spec(theta as int),
            r.a12 == 0,
            r.a20 == 0,
            r.a21 == 0,
            r.a22 == 65536,
            m3_bounded(r, 65536),
    {
        let s: i64 = sin_fx(theta);
        let c: i64 = cos_fx(theta);
        Mat3::new(c, -s, 0, s, c, 0, 0, 0, 65536)
    }

    /// Translation by `t`.
    pub fn translation(t: Vec2) -> (r: Mat3)
        ensures
            r.a00 == 65536,
            r.a01 == 0,
            r.a02 == t.x,
            r.a10 == 0,
            r.a11 == 65536,
            r.a12 == t.y,
            r.a20 == 0,
            r.a21 == 0,
            r.a22 == 65536,
    {
        Mat3::new(65536, 0, t.x, 0, 65536, t.y, 0, 0, 65536)
    }

    /// Anisotropic scale by `s`.
    pub fn scale(s: Vec2) -> (r: Mat3)
        ensures
            r.a00 == s.x,
            r.a01 == 0,
            r.a02 == 0,
            r.a10 == 0,
            r.a11 == s.y,
            r.a12 == 0,
            r.a20 == 0,
            r.a21 == 0,
            r.a22 == 65536,
    {
        Mat3::new(s.x, 0, 0, 0, s.y, 0, 0, 0, 65536)
    }

    /// Matrix product, entrywise exact in fixed point.
    pub fn mul(self, rhs: Mat3) -> (r: Mat3)
        requires
            m3_bounded(self, 0x10_0000_0000),
            m3_bounded(rhs, 0x10_0000_0000),
        ensures
            r.a00 == tdiv(self.a00 * rhs.a00 + self.a01 * rhs.a10 + self.a02 * rhs.a20, 65536),
            r.a01 == tdiv(self.a00 * rhs.a01 + self.a01 * rhs.a11 + self.a02 * rhs.a21, 65536),
            r.a02 == tdiv(self.a00 * rhs.a02 + self.a01 * rhs.a12 + self.a02 * rhs.a22, 65536),
            r.a10 == tdiv(self.a10 * rhs.a00 + self.a11 * rhs.a10 + self.a12 * rhs.a20, 65536),
            r.a11 == tdiv(self.a10 * rhs.a01 + self.a11 * rhs.a11 + self.a12 * rhs.a21, 65536),
            r.a12 == tdiv(self.a10 * rhs.a02 + self.a11 * rhs.a12 + self.a12 * rhs.a22, 65536),
            r.a20 == tdiv(self.a20 * rhs.a00 + self.a21 * rhs.a10 + self.a22 * rhs.a20, 65536),
            r.a21 == tdiv(self.a20 * rhs.a01 + self.a21 * rhs.a11 + self.a22 * rhs.a21, 65536),
            r.a22 == tdiv(self.a20 * rhs.a02 + self.a21 * rhs.a12 + self.a22 * rhs.a22, 65536),
    {
        Mat3 {
            a00: m3_dot(self.a00, rhs.a00, self.a01, rhs.a10, self.a02, rhs.a20),
            a01: m3_dot(self.a00, rhs.a01, self.a01, rhs.a11, self.a02, rhs.a21),
            a02: m3_dot(self.a00, rhs.a02, self.a01, rhs.a12, self.a02, rhs.a22),
            a10: m3_dot(self.a10, rhs.a00, self.a11, rhs.a10, self.a12, rhs.a20),
            a11: m3_dot(self.a10, rhs.a01, self.a11, rhs.a11, self.a12, rhs.a21),
            a12: m3_dot(self.a10, rhs.a02, self.a11, rhs.a12, self.a12, rhs.a22),
            a20: m3_dot(self.a20, rhs.a00, self.a21, rhs.a10, self.a22, rhs.a20),
            a21: m3_dot(self.a20, rhs.a01, self.a21, rhs.a11, self.a22, rhs.a21),
            a22: m3_dot(self.a20, rhs.a02, self.a21, rhs.a12, self.a22, rhs.a22),
        }
    }

    /// Apply the transform to a point.
    pub fn apply(self, v: Vec2) -> (r: Vec2)
        requires
            m3_bounded(self, 0x10_0000_0000),
            v2_bounded(v, FX_LIM as int),
        ensures
            r == m3_apply_spec(self, v),
    {
        let rx: i64 = m3_dot(self.a00, v.x, self.a01, v.y, 0, 0);
        let ry: i64 = m3_dot(self.a10, v.x, self.a11, v.y, 0, 0);
        proof {
            assert(0int * 0int == 0) by (nonlinear_arith);
            lemma_m3_dot_bound(
                self.a00 as int, v.x as int, self.a01 as int, v.y as int, 0, 0,
                0x10_0000_0000, 0x1000_0000, 0x4_0000_0000_0000,
            );
            lemma_m3_dot_bound(
                self.a10 as int, v.x as int, self.a11 as int, v.y as int, 0, 0,
                0x10_0000_0000, 0x1000_0000, 0x4_0000_0000_0000,
            );
        }
        Vec2 { x: rx + self.a02, y: ry + self.a12 }
    }
}

/// The identity transform.
pub open spec fn m3_identity_spec() -> Mat3 {
    Mat3 { a00: 65536, a01: 0, a02: 0, a10: 0, a11: 65536, a12: 0, a20: 0, a21: 0, a22: 65536 }
}

/// Applying the identity transform returns the point unchanged, bit
/// for bit: the fixed-point scale divides its own multiples exactly.
pub proof fn lemma_identity_apply(v: Vec2)
    ensures
        m3_apply_spec(m3_identity_spec(), v) == v,
{
    vstd::arithmetic::mul::lemma_mul_is_commutative(65536, v.x as int);
    vstd::arithmetic::mul::lemma_mul_is_commutative(65536, v.y as int);
    vstd::arithmetic::div_mod::lemma_div_multiples_vanish(fx_abs(v.x as int), 65536);
    vstd::arithmetic::div_mod::lemma_div_multiples_vanish(fx_abs(v.y as int), 65536);
    assert(fx_abs(65536 * v.x) == fx_abs(v.x as int) * 65536) by (nonlinear_arith);
    assert(fx_abs(65536 * v.y) == fx_abs(v.y as int) * 65536) by (nonlinear_arith);
    assert(fx_abs(v.x as int) * 65536 == 65536 * fx_abs(v.x as int)) by (nonlinear_arith);
    assert(fx_abs(v.y as int) * 65536 == 65536 * fx_abs(v.y as int)) by (nonlinear_arith);
}

/// The rotation by the opposite angle has the transposed matrix: since
/// the integer sine is exactly odd and the integer cosine exactly even,
/// the mathematical inverse of a rotation is reproduced entry for
/// entry, with no rounding.
pub proof fn lemma_rotation_inverse_transposed(theta: int, r: Mat3, rinv: Mat3)
    requires
        r.a00 == cos_fx_spec(theta),
        r.a01 == -sin_fx_spec(theta),
        r.a10 == sin_fx_spec(theta),
        r.a11 == cos_fx_spec(theta),
        rinv.a00 == cos_fx_spec(-theta),
        rinv.a01 == -sin_fx_spec(-theta),
        rinv.a10 == sin_fx_spec(-theta),
        rinv.a11 == cos_fx_spec(-theta),
    ensures
        rinv.a00 == r.a00,
        rinv.a01 == r.a10,
        rinv.a10 == r.a01,
        rinv.a11 == r.a11,
{
    crate::fixed::lemma_sin_odd(theta);
    crate::fixed::lemma_cos_even(theta);
}

/// The bound a fixed-point three-term dot product obeys, given entry
/// bounds on its factors.
pub proof fn lemma_m3_dot_bound(
    a: int,
    b: int,
    c: int,
    d: int,
    e: int,
    f: int,
    la: int,
    lb: int,
    cap: int,
)
    requires
        -la <= a <= la,
        -lb <= b <= lb,
        -la <= c <= la,
        -lb <= d <= lb,
        -la <= e <= la,
        -lb <= f <= lb,
        0 <= la,
        0 <= lb,
        0 <= cap,
        3 * (la * lb) <= 65536 * cap,
    ensures
        -cap <= tdiv(a * b + c * d + e * f, 65536) <= cap,
{
    assert(fx_abs(a * b) <= la * lb) by (nonlinear_arith)
        requires
            -la <= a <= la,
            -lb <= b <= lb,
            0 <= la,
            0 <= lb,
    ;
    assert(fx_abs(c * d) <= la * lb) by (nonlinear_arith)
        requires
            -la <= c <= la,
            -lb <= d <= lb,
            0 <= la,
            0 <= lb,
    ;
    assert(fx_abs(e * f) <= la * lb) by (nonlinear_arith)
        requires
            -la <= e <= la,
            -lb <= f <= lb,
            0 <= la,
            0 <= lb,
    ;
    lemma_tdiv_abs_le(a * b + c * d + e * f, 65536, cap);
}

/// `tdiv(a * b + c * d + e * f, FX_ONE)`, computed without overflow.
fn m3_dot(a: i64, b: i64, c: i64, d: i64, e: i64, f: i64) -> (r: i64)
    requires
        -0x10_0000_0000 <= a <= 0x10_0000_0000,
        -0x10_0000_0000 <= b <= 0x10_0000_0000,
        -0x10_0000_0000 <= c <= 0x10_0000_0000,
        -0x10_0000_0000 <= d <= 0x10_0000_0000,
        -0x10_0000_0000 <= e <= 0x10_0000_0000,
        -0x10_0000_0000 <= f <= 0x10_0000_0000,
    ensures
        r == tdiv(a * b + c * d + e * f, 65536),
{
    proof {
        lemma_mul_upper_bound(fx_abs(a as int), 0x10_0000_0000, fx_abs(b as int), 0x10_0000_0000);
        lemma_mul_upper_bound(fx_abs(c as int), 0x10_0000_0000, fx_abs(d as int), 0x10_0000_0000);
        lemma_mul_upper_bound(fx_abs(e as int), 0x10_0000_0000, fx_abs(f as int), 0x10_0000_0000);
        assert(fx_abs(a as int * b as int) == fx_abs(a as int) * fx_abs(b as int)) by (nonlinear_arith);
        assert(fx_abs(c as int * d as int) == fx_abs(c as int) * fx_abs(d as int)) by (nonlinear_arith);
        assert(fx_abs(e as int * f as int) == fx_abs(e as int) * fx_abs(f as int)) by (nonlinear_arith);
    }
    let s: i128 = (a as i128) * (b as i128) + (c as i128) * (d as i128) + (e as i128) * (f as i128);
    let q: i128 = tdiv_i128(s, 65536);
    proof {
        lemma_tdiv_abs_le(s as int, 65536, 0x4000_0000_0000_0000);
    }
    q as i64
}

} // verus!
