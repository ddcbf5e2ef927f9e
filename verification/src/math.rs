//! Vector algebra and numeric intervals over fixed-point scalars.
//!
//! `Vec3` is a triple of fixed-point coordinates; its view is `SpecVec3`, the
//! same triple as unbounded integers, over which every contract is stated.

use vstd::prelude::*;

use crate::fixed::{div_fx, div_i128, fx_div, fx_mul, isqrt, mul_fx, sqrt_floor, tdiv, SCALE};

verus! {

/// A point is a vector used as a position.
pub type Point3 = Vec3;

/// Mathematical model of a vector: the same coordinates, unbounded.
pub struct SpecVec3 {
    pub x: int,
    pub y: int,
    pub z: int,
}

/// A 3-component vector of fixed-point scalars.
#[derive(Clone, Copy, Debug, PartialEq, Eq, Structural)]
pub struct Vec3 {
    pub x: i64,
    pub y: i64,
    pub z: i64,
}

impl View for Vec3 {
    type V = SpecVec3;

    open spec fn view(&self) -> SpecVec3 {
        SpecVec3 { x: self.x as int, y: self.y as int, z: self.z as int }
    }
}

/// The exact (unscaled) sum of coordinate products; `SCALE` times the
/// fixed-point dot product.
pub open spec fn dot_full(u: SpecVec3, v: SpecVec3) -> int {
    u.x * v.x + u.y * v.y + u.z * v.z
}

/// The fixed-point dot product: the exact sum of products, rescaled once.
pub open spec fn dot_fx(u: SpecVec3, v: SpecVec3) -> int {
    tdiv(dot_full(u, v), SCALE as int)
}

/// The length of a vector in fixed-point steps: since every coordinate
/// carries one factor of `SCALE`, the root of the exact sum of squares is
/// again a scaled quantity, with no rescaling needed.
pub open spec fn norm(v: SpecVec3) -> int {
    sqrt_floor(dot_full(v, v))
}

/// The unit vector along `v`: each coordinate scaled up and divided by the
/// length.
pub open spec fn unit_s(v: SpecVec3) -> SpecVec3 {
    SpecVec3 {
        x: tdiv(v.x * (SCALE as int), norm(v)),
        y: tdiv(v.y * (SCALE as int), norm(v)),
        z: tdiv(v.z * (SCALE as int), norm(v)),
    }
}

/// The unit vector along `v`, or the zero vector when `v` is zero.
pub open spec fn unit_or_zero(v: SpecVec3) -> SpecVec3 {
    if norm(v) == 0 {
        SpecVec3 { x: 0, y: 0, z: 0 }
    } else {
        unit_s(v)
    }
}

/// Componentwise difference, in the model.
pub open spec fn vsub(a: SpecVec3, b: SpecVec3) -> SpecVec3 {
    SpecVec3 { x: a.x - b.x, y: a.y - b.y, z: a.z - b.z }
}

/// Componentwise negation, in the model.
pub open spec fn vneg(a: SpecVec3) -> SpecVec3 {
    SpecVec3 { x: -a.x, y: -a.y, z: -a.z }
}

/// Largest coordinate magnitude the geometry accepts: one factor of `SCALE`
/// of headroom keeps every intermediate of the intersection arithmetic within
/// 128 bits.
pub const MAX_COORD: i64 = 0x1000_0000;

/// All three coordinates within the world bound.
pub open spec fn vec_ok(v: SpecVec3) -> bool {
    &&& -MAX_COORD <= v.x <= MAX_COORD
    &&& -MAX_COORD <= v.y <= MAX_COORD
    &&& -MAX_COORD <= v.z <= MAX_COORD
}

/// Coordinates small enough that sums of three coordinate products stay
/// within 128 bits.
pub open spec fn wide_ok(v: SpecVec3) -> bool {
    &&& -0x4000_0000_0000_0000 <= v.x <= 0x4000_0000_0000_0000
    &&& -0x4000_0000_0000_0000 <= v.y <= 0x4000_0000_0000_0000
    &&& -0x4000_0000_0000_0000 <= v.z <= 0x4000_0000_0000_0000
}

impl Vec3 {
    pub fn new(x: i64, y: i64, z: i64) -> (v: Vec3)
        ensures
            v.x == x,
            v.y == y,
            v.z == z,
    {
        Vec3 { x, y, z }
    }

    pub fn x(&self) -> (r: i64)
        ensures
            r == self.x,
    {
        self.x
    }

    pub fn y(&self) -> (r: i64)
        ensures
            r == self.y,
    {
        self.y
    }

    pub fn z(&self) -> (r: i64)
        ensures
            r == self.z,
    {
        self.z
    }

    /// Componentwise sum.
    pub fn add(self, v: Vec3) -> (r: Vec3)
        requires
            i64::MIN <= self.x + v.x <= i64::MAX,
            i64::MIN <= self.y + v.y <= i64::MAX,
            i64::MIN <= self.z + v.z <= i64::MAX,
        ensures
            r.x == self.x + v.x,
            r.y == self.y + v.y,
            r.z == self.z + v.z,
    {
        Vec3 { x: self.x + v.x, y: self.y + v.y, z: self.z + v.z }
    }

    /// Componentwise difference.
    pub fn sub(self, v: Vec3) -> (r: Vec3)
        requires
            i64::MIN <= self.x - v.x <= i64::MAX,
            i64::MIN <= self.y - v.y <= i64::MAX,
            i64::MIN <= self.z - v.z <= i64::MAX,
        ensures
            r.x == self.x - v.x,
            r.y == self.y - v.y,
            r.z == self.z - v.z,
    {
        Vec3 { x: self.x - v.x, y: self.y - v.y, z: self.z - v.z }
    }

    /// Componentwise (Hadamard) product.
    pub fn mul(self, v: Vec3) -> (r: Vec3)
        requires
            i64::MIN <= fx_mul(self.x as int, v.x as int) <= i64::MAX,
            i64::MIN <= fx_mul(self.y as int, v.y as int) <= i64::MAX,
            i64::MIN <= fx_mul(self.z as int, v.z as int) <= i64::MAX,
        ensures
            r.x == fx_mul(self.x as int, v.x as int),
            r.y == fx_mul(self.y as int, v.y as int),
            r.z == fx_mul(self.z as int, v.z as int),
    {
        Vec3 { x: mul_fx(self.x, v.x), y: mul_fx(self.y, v.y), z: mul_fx(self.z, v.z) }
    }

    /// Product with a scalar.
    pub fn scale(self, t: i64) -> (r: Vec3)
        requires
            i64::MIN <= fx_mul(self.x as int, t as int) <= i64::MAX,
            i64::MIN <= fx_mul(self.y as int, t as int) <= i64::MAX,
            i64::MIN <= fx_mul(self.z as int, t as int) <= i64::MAX,
        ensures
            r.x == fx_mul(self.x as int, t as int),
            r.y == fx_mul(self.y as int, t as int),
            r.z == fx_mul(self.z as int, t as int),
    {
        Vec3 { x: mul_fx(self.x, t), y: mul_fx(self.y, t), z: mul_fx(self.z, t) }
    }

    /// Quotient by a scalar.
    pub fn div(self, t: i64) -> (r: Vec3)
        requires
            t != 0,
            i64::MIN <= fx_div(self.x as int, t as int) <= i64::MAX,
            i64::MIN <= fx_div(self.y as int, t as int) <= i64::MAX,
            i64::MIN <= fx_div(self.z as int, t as int) <= i64::MAX,
        ensures
            r.x == fx_div(self.x as int, t as int),
            r.y == fx_div(self.y as int, t as int),
            r.z == fx_div(self.z as int, t as int),
    {
        Vec3 { x: div_fx(self.x, t), y: div_fx(self.y, t), z: div_fx(self.z, t) }
    }

    /// Componentwise negation.
    pub fn neg(self) -> (r: Vec3)
        requires
            self.x > i64::MIN,
            self.y > i64::MIN,
            self.z > i64::MIN,
        ensures
            r.x == -self.x,
            r.y == -self.y,
            r.z == -self.z,
    {
        Vec3 { x: -self.x, y: -self.y, z: -self.z }
    }

    /// In-place componentwise sum.
    pub fn add_assign(&mut self, v: Vec3)
        requires
            i64::MIN <= old(self).x + v.x <= i64::MAX,
            i64::MIN <= old(self).y + v.y <= i64::MAX,
            i64::MIN <= old(self).z + v.z <= i64::MAX,
        ensures
            final(self).x == old(self).x + v.x,
            final(self).y == old(self).y + v.y,
            final(self).z == old(self).z + v.z,
    {
        self.x = self.x + v.x;
        self.y = self.y + v.y;
        self.z = self.z + v.z;
    }

    /// In-place product with a scalar.
    pub fn mul_assign(&mut self, t: i64)
        requires
            i64::MIN <= fx_mul(old(self).x as int, t as int) <= i64::MAX,
            i64::MIN <= fx_mul(old(self).y as int, t as int) <= i64::MAX,
            i64::MIN <= fx_mul(old(self).z as int, t as int) <= i64::MAX,
        ensures
            final(self).x == fx_mul(old(self).x as int, t as int),
            final(self).y == fx_mul(old(self).y as int, t as int),
            final(self).z == fx_mul(old(self).z as int, t as int),
    {
        *self = self.scale(t);
    }

    /// In-place quotient by a scalar.
    pub fn div_assign(&mut self, t: i64)
        requires
            t != 0,
            i64::MIN <= fx_div(old(self).x as int, t as int) <= i64::MAX,
            i64::MIN <= fx_div(old(self).y as int, t as int) <= i64::MAX,
            i64::MIN <= fx_div(old(self).z as int, t as int) <= i64::MAX,
        ensures
            final(self).x == fx_div(old(self).x as int, t as int),
            final(self).y == fx_div(old(self).y as int, t as int),
            final(self).z == fx_div(old(self).z as int, t as int),
    {
        *self = self.div(t);
    }

    /// A vector whose coordinates are independent uniform draws from `[0, 1)`.
    pub fn random() -> (v: Vec3)
        ensures
            0 <= v.x < SCALE,
            0 <= v.y < SCALE,
            0 <= v.z < SCALE,
    {
        Vec3 { x: random(), y: random(), z: random() }
    }

    /// A vector whose coordinates are independent uniform draws from
    /// `[min, max]`.
    pub fn random_between(min: i64, max: i64) -> (v: Vec3)
        requires
            min <= max,
            max - min <= i64::MAX,
        ensures
            min <= v.x <= max,
            min <= v.y <= max,
            min <= v.z <= max,
    {
        Vec3 { x: random_between(min, max), y: random_between(min, max), z: random_between(min, max) }
    }

    /// Squared length, as a fixed-point scalar.
    pub fn length_squared(&self) -> (r: i64)
        requires
            wide_ok(self@),
            dot_fx(self@, self@) <= i64::MAX,
        ensures
            r == dot_fx(self@, self@),
            r >= 0,
    {
        proof {
            lemma_wide_prod(self@.x, self@.x);
            lemma_wide_prod(self@.y, self@.y);
            lemma_wide_prod(self@.z, self@.z);
            crate::fixed::lemma_tdiv_bounds(dot_full(self@, self@), SCALE as int);
        }
        dot(*self, *self)
    }

    /// Length, as a fixed-point scalar.
    pub fn length(&self) -> (r: i64)
        requires
            wide_ok(self@),
            norm(self@) <= i64::MAX,
        ensures
            r == norm(self@),
    {
        proof {
            lemma_wide_prod(self@.x, self@.x);
            lemma_wide_prod(self@.y, self@.y);
            lemma_wide_prod(self@.z, self@.z);
        }
        let sq = dot_full_e(self, self);
        let r = isqrt(sq as u128);
        r as i64
    }
}

/// A product of coordinates within the `wide_ok` bound stays within a
/// quarter of the 128-bit range.
pub proof fn lemma_wide_prod(a: int, b: int)
    requires
        -0x4000_0000_0000_0000 <= a <= 0x4000_0000_0000_0000,
        -0x4000_0000_0000_0000 <= b <= 0x4000_0000_0000_0000,
    ensures
        -0x1000_0000_0000_0000_0000_0000_0000_0000 <= a * b
            <= 0x1000_0000_0000_0000_0000_0000_0000_0000,
        a == b ==> a * b >= 0,
    decreases 0int,
{
    assert(-0x1000_0000_0000_0000_0000_0000_0000_0000 <= a * b
        <= 0x1000_0000_0000_0000_0000_0000_0000_0000) by (nonlinear_arith)
        requires
            -0x4000_0000_0000_0000 <= a <= 0x4000_0000_0000_0000,
            -0x4000_0000_0000_0000 <= b <= 0x4000_0000_0000_0000,
    ;
    assert(a * a >= 0) by (nonlinear_arith);
}

/// The exact sum of coordinate products, at full width.
pub(crate) fn dot_full_e(u: &Vec3, v: &Vec3) -> (r: i128)
    requires
        wide_ok(u@),
        wide_ok(v@),
    ensures
        r == dot_full(u@, v@),
        -0x3000_0000_0000_0000_0000_0000_0000_0000 <= r
            <= 0x3000_0000_0000_0000_0000_0000_0000_0000,
        u == v ==> r >= 0,
{
    proof {
        lemma_wide_prod(u@.x, v@.x);
        lemma_wide_prod(u@.y, v@.y);
        lemma_wide_prod(u@.z, v@.z);
    }
    (u.x as i128) * (v.x as i128) + (u.y as i128) * (v.y as i128) + (u.z as i128) * (v.z as i128)
}

/// Dot product of two vectors, as a fixed-point scalar.
pub fn dot(u: Vec3, v: Vec3) -> (r: i64)
    requires
        wide_ok(u@),
        wide_ok(v@),
        i64::MIN <= dot_fx(u@, v@) <= i64::MAX,
    ensures
        r == dot_fx(u@, v@),
{
    let sum = dot_full_e(&u, &v);
    let q = div_i128(sum, SCALE as i128);
    q as i64
}

/// Cross product of two vectors: each coordinate is an exact difference of
/// products, rescaled once.
pub fn cross(u: Vec3, v: Vec3) -> (r: Vec3)
    requires
        wide_ok(u@),
        wide_ok(v@),
        i64::MIN <= tdiv(u@.y * v@.z - u@.z * v@.y, SCALE as int) <= i64::MAX,
        i64::MIN <= tdiv(u@.z * v@.x - u@.x * v@.z, SCALE as int) <= i64::MAX,
        i64::MIN <= tdiv(u@.x * v@.y - u@.y * v@.x, SCALE as int) <= i64::MAX,
    ensures
        r.x == tdiv(u@.y * v@.z - u@.z * v@.y, SCALE as int),
        r.y == tdiv(u@.z * v@.x - u@.x * v@.z, SCALE as int),
        r.z == tdiv(u@.x * v@.y - u@.y * v@.x, SCALE as int),
{
    proof {
        lemma_wide_prod(u@.x, v@.x);
        lemma_wide_prod(u@.y, v@.y);
        lemma_wide_prod(u@.z, v@.z);
        lemma_wide_prod(u@.x, v@.y);
        lemma_wide_prod(u@.y, v@.x);
        lemma_wide_prod(u@.x, v@.z);
        lemma_wide_prod(u@.z, v@.x);
        lemma_wide_prod(u@.y, v@.z);
        lemma_wide_prod(u@.z, v@.y);
    }
    let x = div_i128((u.y as i128) * (v.z as i128) - (u.z as i128) * (v.y as i128), SCALE as i128);
    let y = div_i128((u.z as i128) * (v.x as i128) - (u.x as i128) * (v.z as i128), SCALE as i128);
    let z = div_i128((u.x as i128) * (v.y as i128) - (u.y as i128) * (v.x as i128), SCALE as i128);
    Vec3 { x: x as i64, y: y as i64, z: z as i64 }
}

/// A nonzero vector has a positive squared length and a positive length.
pub proof fn lemma_norm_positive(v: SpecVec3)
    requires
        !(v.x == 0 && v.y == 0 && v.z == 0),
    ensures
        dot_full(v, v) >= 1,
        norm(v) >= 1,
{
    assert(dot_full(v, v) >= 1) by (nonlinear_arith)
        requires
            !(v.x == 0 && v.y == 0 && v.z == 0),
            dot_full(v, v) == v.x * v.x + v.y * v.y + v.z * v.z,
    ;
    crate::fixed::lemma_sqrt_floor_bounds(dot_full(v, v));
    if norm(v) == 0 {
        assert((norm(v) + 1) * (norm(v) + 1) == 1) by (nonlinear_arith)
            requires
                norm(v) == 0,
        ;
    }
}

/// The zero vector has zero squared length and zero length.
pub proof fn lemma_norm_zero(v: SpecVec3)
    requires
        v.x == 0,
        v.y == 0,
        v.z == 0,
    ensures
        dot_full(v, v) == 0,
        norm(v) == 0,
{
    assert(dot_full(v, v) == 0) by (nonlinear_arith)
        requires
            v.x == 0,
            v.y == 0,
            v.z == 0,
            dot_full(v, v) == v.x * v.x + v.y * v.y + v.z * v.z,
    ;
}

/// No coordinate exceeds the vector's length.
pub proof fn lemma_norm_dominates(v: SpecVec3)
    requires
        wide_ok(v),
    ensures
        norm(v) >= 0,
        vstd::math::abs(v.x) <= norm(v),
        vstd::math::abs(v.y) <= norm(v),
        vstd::math::abs(v.z) <= norm(v),
{
    lemma_wide_prod(v.x, v.x);
    lemma_wide_prod(v.y, v.y);
    lemma_wide_prod(v.z, v.z);
    let s = dot_full(v, v);
    crate::fixed::lemma_sqrt_floor_bounds(s);
    lemma_abs_is_sqrt_of_square(v.x);
    lemma_abs_is_sqrt_of_square(v.y);
    lemma_abs_is_sqrt_of_square(v.z);
    crate::fixed::lemma_sqrt_floor_monotone(v.x * v.x, s);
    crate::fixed::lemma_sqrt_floor_monotone(v.y * v.y, s);
    crate::fixed::lemma_sqrt_floor_monotone(v.z * v.z, s);
}

/// Scaling by `m` and dividing by `m` with truncation keeps a coordinate's
/// square within one rounding step: with `x` the rescaled coordinate times
/// `m`, `x²` never exceeds the exact square and loses at most `2·m·(m·s)`.
proof fn lemma_unit_component_square(vc: int, m: int, s: int)
    requires
        m >= 1,
        s >= 1,
        vstd::math::abs(vc) <= m,
    ensures
        ({
            let a = vc * s;
            let x = m * tdiv(a, m);
            x * x <= a * a && x * x >= a * a - 2 * (m * (m * s))
        }),
{
    let a = vc * s;
    let t = tdiv(a, m);
    let x = m * t;
    assert(-(m * s) <= a <= m * s) by (nonlinear_arith)
        requires
            vstd::math::abs(vc) <= m,
            s >= 1,
            a == vc * s,
    ;
    if a >= 0 {
        crate::fixed::lemma_tdiv_lower(a, m);
        assert(x * x <= a * a && x * x >= a * a - 2 * (m * (m * s))) by (nonlinear_arith)
            requires
                m >= 1,
                s >= 1,
                0 <= a <= m * s,
                a - m < x <= a,
                x == m * t,
                t >= 0,
        ;
    } else {
        crate::fixed::lemma_tdiv_lower(-a, m);
        assert(m * tdiv(-a, m) == -x) by (nonlinear_arith)
            requires
                tdiv(-a, m) == -t,
                x == m * t,
        ;
        assert(x * x <= a * a && x * x >= a * a - 2 * (m * (m * s))) by (nonlinear_arith)
            requires
                m >= 1,
                s >= 1,
                -(m * s) <= a < 0,
                a <= x < a + m,
                x == m * t,
                t <= 0,
        ;
    }
}

/// The normalized vector is unit length up to the rounding of its three
/// truncating divisions: its squared length, scaled by the input's squared
/// length `m²`, sits within `[m² (SCALE² - 6 SCALE), SCALE² (m+1)²]`.
pub proof fn lemma_unit_vector_near_unit(v: SpecVec3)
    requires
        wide_ok(v),
        !(v.x == 0 && v.y == 0 && v.z == 0),
    ensures
        norm(v) * norm(v) * dot_full(unit_s(v), unit_s(v)) <= (SCALE as int) * (SCALE as int) * ((
        norm(v) + 1) * (norm(v) + 1)),
        norm(v) * norm(v) * dot_full(unit_s(v), unit_s(v)) >= norm(v) * norm(v) * ((SCALE as int)
            * (SCALE as int) - 6 * (SCALE as int)),
{
    lemma_norm_positive(v);
    lemma_norm_dominates(v);
    crate::fixed::lemma_sqrt_floor_bounds(dot_full(v, v));
    let s = SCALE as int;
    let m = norm(v);
    let n = unit_s(v);
    lemma_unit_component_square(v.x, m, s);
    lemma_unit_component_square(v.y, m, s);
    lemma_unit_component_square(v.z, m, s);
    let xx = m * tdiv(v.x * s, m);
    let xy = m * tdiv(v.y * s, m);
    let xz = m * tdiv(v.z * s, m);
    assert(xx * xx == m * m * (n.x * n.x)) by (nonlinear_arith)
        requires
            xx == m * tdiv(v.x * s, m),
            n.x == tdiv(v.x * s, m),
    ;
    assert(xy * xy == m * m * (n.y * n.y)) by (nonlinear_arith)
        requires
            xy == m * tdiv(v.y * s, m),
            n.y == tdiv(v.y * s, m),
    ;
    assert(xz * xz == m * m * (n.z * n.z)) by (nonlinear_arith)
        requires
            xz == m * tdiv(v.z * s, m),
            n.z == tdiv(v.z * s, m),
    ;
    assert((v.x * s) * (v.x * s) == s * s * (v.x * v.x)) by (nonlinear_arith);
    assert((v.y * s) * (v.y * s) == s * s * (v.y * v.y)) by (nonlinear_arith);
    assert((v.z * s) * (v.z * s) == s * s * (v.z * v.z)) by (nonlinear_arith);
    assert(m * m * dot_full(n, n) == m * m * (n.x * n.x) + m * m * (n.y * n.y) + m * m * (n.z
        * n.z)) by (nonlinear_arith)
        requires
            dot_full(n, n) == n.x * n.x + n.y * n.y + n.z * n.z,
    ;
    assert(s * s * dot_full(v, v) == s * s * (v.x * v.x) + s * s * (v.y * v.y) + s * s * (v.z
        * v.z)) by (nonlinear_arith)
        requires
            dot_full(v, v) == v.x * v.x + v.y * v.y + v.z * v.z,
    ;
    assert(s * s * dot_full(v, v) <= s * s * ((m + 1) * (m + 1))) by (nonlinear_arith)
        requires
            dot_full(v, v) < (m + 1) * (m + 1),
            s >= 1,
    ;
    assert(s * s * dot_full(v, v) >= s * s * (m * m)) by (nonlinear_arith)
        requires
            dot_full(v, v) >= m * m,
            s >= 1,
    ;
    assert(s * s * (m * m) - 6 * (m * (m * s)) == m * m * (s * s - 6 * s)) by (nonlinear_arith);
}

/// The floor square root of a perfect square is exact.
pub proof fn lemma_abs_is_sqrt_of_square(a: int)
    ensures
        crate::fixed::sqrt_floor(a * a) == vstd::math::abs(a),
{
    let m = vstd::math::abs(a) as int;
    assert(m * m == a * a && a * a < (m + 1) * (m + 1)) by (nonlinear_arith)
        requires
            m == vstd::math::abs(a),
    ;
    crate::fixed::lemma_sqrt_floor_unique(a * a, m);
}

/// The unit vector along `v`; `v` must not be the zero vector.
pub fn unit_vector(v: Vec3) -> (r: Vec3)
    requires
        wide_ok(v@),
        !(v.x == 0 && v.y == 0 && v.z == 0),
    ensures
        r@ == unit_s(v@),
        -SCALE <= r.x <= SCALE,
        -SCALE <= r.y <= SCALE,
        -SCALE <= r.z <= SCALE,
{
    proof {
        lemma_norm_dominates(v@);
        assert(dot_full(v@, v@) >= 1) by (nonlinear_arith)
            requires
                !(v@.x == 0 && v@.y == 0 && v@.z == 0),
                dot_full(v@, v@) == v@.x * v@.x + v@.y * v@.y + v@.z * v@.z,
        ;
    }
    let sq = dot_full_e(&v, &v);
    let m = isqrt(sq as u128);
    let ghost n = norm(v@);
    proof {
        assert(m == n);
        assert(n >= 1);
        assert(vstd::math::abs(v@.x * (SCALE as int)) <= n * (SCALE as int)) by (nonlinear_arith)
            requires
                vstd::math::abs(v@.x) <= n,
                vstd::math::abs(v@.x * (SCALE as int)) == vstd::math::abs(v@.x) * (SCALE as int),
        ;
        assert(vstd::math::abs(v@.y * (SCALE as int)) <= n * (SCALE as int)) by (nonlinear_arith)
            requires
                vstd::math::abs(v@.y) <= n,
                vstd::math::abs(v@.y * (SCALE as int)) == vstd::math::abs(v@.y) * (SCALE as int),
        ;
        assert(vstd::math::abs(v@.z * (SCALE as int)) <= n * (SCALE as int)) by (nonlinear_arith)
            requires
                vstd::math::abs(v@.z) <= n,
                vstd::math::abs(v@.z * (SCALE as int)) == vstd::math::abs(v@.z) * (SCALE as int),
        ;
        crate::fixed::lemma_tdiv_ratio_bound(v@.x * (SCALE as int), n, SCALE as int);
        crate::fixed::lemma_tdiv_ratio_bound(v@.y * (SCALE as int), n, SCALE as int);
        crate::fixed::lemma_tdiv_ratio_bound(v@.z * (SCALE as int), n, SCALE as int);
    }
    let x = div_i128((v.x as i128) * (SCALE as i128), m as i128);
    let y = div_i128((v.y as i128) * (SCALE as i128), m as i128);
    let z = div_i128((v.z as i128) * (SCALE as i128), m as i128);
    Vec3 { x: x as i64, y: y as i64, z: z as i64 }
}

/// Mathematical model of an interval: the same bounds, unbounded.
pub struct SpecInterval {
    pub min: int,
    pub max: int,
}

/// A closed range of fixed-point scalars; `i64::MIN` and `i64::MAX` serve as
/// the two infinities.
#[derive(Clone, Copy, Debug, PartialEq, Eq, Structural)]
pub struct Interval {
    pub min: i64,
    pub max: i64,
}

impl View for Interval {
    type V = SpecInterval;

    open spec fn view(&self) -> SpecInterval {
        SpecInterval { min: self.min as int, max: self.max as int }
    }
}

/// Membership, inclusive on both ends.
pub open spec fn contains_s(iv: SpecInterval, t: int) -> bool {
    iv.min <= t <= iv.max
}

/// Membership, strict on both ends.
pub open spec fn surrounds_s(iv: SpecInterval, t: int) -> bool {
    iv.min < t < iv.max
}

/// Saturation of a value into the interval.
pub open spec fn clamp_s(iv: SpecInterval, t: int) -> int {
    if t < iv.min {
        iv.min
    } else if t > iv.max {
        iv.max
    } else {
        t
    }
}

impl Interval {
    pub fn new(min: i64, max: i64) -> (iv: Interval)
        ensures
            iv.min == min,
            iv.max == max,
    {
        Interval { min, max }
    }

    /// The interval that contains nothing.
    pub fn empty() -> (iv: Interval)
        ensures
            iv.min == i64::MAX,
            iv.max == i64::MIN,
            forall|t: int| !contains_s(iv@, t),
    {
        Interval { min: i64::MAX, max: i64::MIN }
    }

    /// The interval that contains every scalar.
    pub fn universe() -> (iv: Interval)
        ensures
            iv.min == i64::MIN,
            iv.max == i64::MAX,
            forall|t: i64| contains_s(iv@, t as int),
    {
        Interval { min: i64::MIN, max: i64::MAX }
    }

    pub fn max(&self) -> (r: i64)
        ensures
            r == self.max,
    {
        self.max
    }

    /// Width of the interval.
    pub fn size(&self) -> (r: i64)
        requires
            i64::MIN <= self.max - self.min <= i64::MAX,
        ensures
            r == self.max - self.min,
    {
        self.max - self.min
    }

    pub fn contains(&self, element: i64) -> (r: bool)
        ensures
            r == contains_s(self@, element as int),
    {
        element >= self.min && element <= self.max
    }

    pub fn surrounds(&self, element: i64) -> (r: bool)
        ensures
            r == surrounds_s(self@, element as int),
    {
        element > self.min && element < self.max
    }

    pub fn clamp(&self, element: i64) -> (r: i64)
        ensures
            r == clamp_s(self@, element as int),
    {
        if element < self.min {
            return self.min;
        };
        if element > self.max {
            return self.max;
        };
        element
    }
}

/// Clamping lands inside the interval, for every input whatsoever.
pub proof fn lemma_clamp_within(iv: SpecInterval, t: int)
    requires
        iv.min <= iv.max,
    ensures
        iv.min <= clamp_s(iv, t) <= iv.max,
{
}

/// Clamping twice is the same as clamping once.
pub proof fn lemma_clamp_idempotent(iv: SpecInterval, t: int)
    requires
        iv.min <= iv.max,
    ensures
        clamp_s(iv, clamp_s(iv, t)) == clamp_s(iv, t),
{
}

/// Relies on rand::random: one independently drawn 32-bit value; nothing is
/// promised of it.
#[verifier::external_body]
fn random_u32() -> (r: u32) {
    rand::random::<u32>()
}

/// A uniformly random scalar in `[0, 1)`: one of the `SCALE` fractional
/// steps below one.
pub fn random() -> (r: i64)
    ensures
        0 <= r < SCALE,
{
    (random_u32() % 65536) as i64
}

/// A uniformly random scalar in `[min, max]`: `min` plus a random fraction
/// of the width.
pub fn random_between(min: i64, max: i64) -> (r: i64)
    requires
        min <= max,
        max - min <= i64::MAX,
    ensures
        min <= r <= max,
        exists|u: int| 0 <= u < SCALE && r == min + #[trigger] fx_mul((max - min) as int, u),
{
    let u = random();
    let span = max - min;
    proof {
        assert(vstd::math::abs(span * u) <= (SCALE as int) * span) by (nonlinear_arith)
            requires
                0 <= span,
                0 <= u < SCALE,
        ;
        crate::fixed::lemma_tdiv_ratio_bound(span * u, SCALE as int, span as int);
        crate::fixed::lemma_tdiv_bounds(span * u, SCALE as int);
        assert(span * u >= 0) by (nonlinear_arith)
            requires
                0 <= span,
                0 <= u,
        ;
    }
    let d = mul_fx(span, u);
    let r = min + d;
    proof {
        assert(0 <= u < SCALE && r == min + fx_mul((max - min) as int, u as int));
    }
    r
}

/// A uniformly random vector of length one: rejection sampling from the unit
/// cube, normalized; after too many rejected draws, straight up.
pub fn random_unit_vector() -> (r: Vec3)
    ensures
        -SCALE <= r.x <= SCALE,
        -SCALE <= r.y <= SCALE,
        -SCALE <= r.z <= SCALE,
        exists|p: SpecVec3| wide_ok(p) && dot_full(p, p) >= 1 && r@ == #[trigger] unit_s(p),
{
    let mut attempts: u32 = 0;
    while attempts < 64
        invariant
            attempts <= 64,
        decreases 64 - attempts,
    {
        let p = Vec3::random_between(-SCALE, SCALE);
        proof {
            lemma_cube_dot_bounds(p@);
            crate::fixed::lemma_tdiv_bounds(dot_full(p@, p@), SCALE as int);
        }
        let ls = p.length_squared();
        if 0 < ls && ls <= SCALE {
            proof {
                if p.x == 0 && p.y == 0 && p.z == 0 {
                    assert(dot_full(p@, p@) == 0) by (nonlinear_arith)
                        requires
                            p@.x == 0,
                            p@.y == 0,
                            p@.z == 0,
                            dot_full(p@, p@) == p@.x * p@.x + p@.y * p@.y + p@.z * p@.z,
                    ;
                    vstd::arithmetic::div_mod::lemma_div_of0(SCALE as int);
                }
                assert(dot_full(p@, p@) >= 1) by (nonlinear_arith)
                    requires
                        !(p@.x == 0 && p@.y == 0 && p@.z == 0),
                        dot_full(p@, p@) == p@.x * p@.x + p@.y * p@.y + p@.z * p@.z,
                ;
            }
            let r = unit_vector(p);
            proof {
                assert(wide_ok(p@) && dot_full(p@, p@) >= 1 && r@ == unit_s(p@));
            }
            return r;
        }
        attempts = attempts + 1;
    }
    let r = Vec3 { x: 0, y: 0, z: SCALE };
    proof {
        let p = SpecVec3 { x: 0, y: 0, z: SCALE as int };
        lemma_abs_is_sqrt_of_square(SCALE as int);
        vstd::arithmetic::div_mod::lemma_div_of0(SCALE as int);
        vstd::arithmetic::div_mod::lemma_div_multiples_vanish(SCALE as int, SCALE as int);
        assert(wide_ok(p) && dot_full(p, p) >= 1 && r@ == unit_s(p));
    }
    r
}

/// For coordinates within one unit, the exact sum of squares stays within
/// three squared units.
pub proof fn lemma_cube_dot_bounds(v: SpecVec3)
    requires
        -SCALE <= v.x <= SCALE,
        -SCALE <= v.y <= SCALE,
        -SCALE <= v.z <= SCALE,
    ensures
        0 <= dot_full(v, v) <= 3 * (SCALE as int) * (SCALE as int),
{
    assert(0 <= v.x * v.x <= (SCALE as int) * (SCALE as int)) by (nonlinear_arith)
        requires
            -SCALE <= v.x <= SCALE,
    ;
    assert(0 <= v.y * v.y <= (SCALE as int) * (SCALE as int)) by (nonlinear_arith)
        requires
            -SCALE <= v.y <= SCALE,
    ;
    assert(0 <= v.z * v.z <= (SCALE as int) * (SCALE as int)) by (nonlinear_arith)
        requires
            -SCALE <= v.z <= SCALE,
    ;
}

/// A uniformly random unit vector on the side of the surface that `normal`
/// points toward.
pub fn random_on_hemisphere(normal: Vec3) -> (r: Vec3)
    requires
        wide_ok(normal@),
    ensures
        -SCALE <= r.x <= SCALE,
        -SCALE <= r.y <= SCALE,
        -SCALE <= r.z <= SCALE,
        dot_full(r@, normal@) >= 0,
{
    let on_unit_sphere = random_unit_vector();
    let s = dot_full_e(&on_unit_sphere, &normal);
    if s > 0 {
        on_unit_sphere
    } else {
        let w = on_unit_sphere.neg();
        proof {
            assert(dot_full(w@, normal@) == -dot_full(on_unit_sphere@, normal@))
                by (nonlinear_arith)
                requires
                    w@.x == -on_unit_sphere@.x,
                    w@.y == -on_unit_sphere@.y,
                    w@.z == -on_unit_sphere@.z,
                    dot_full(w@, normal@) == w@.x * normal@.x + w@.y * normal@.y + w@.z
                        * normal@.z,
                    dot_full(on_unit_sphere@, normal@) == on_unit_sphere@.x * normal@.x
                        + on_unit_sphere@.y * normal@.y + on_unit_sphere@.z * normal@.z,
            ;
        }
        w
    }
}

} // verus!
