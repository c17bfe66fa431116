//! Points and vectors in three-dimensional space, held in fixed-point
//! coordinates (see `num::SCALE`).  `Vector3` and `Color` are aliases, as in
//! any ray tracer that treats positions, directions and colors uniformly.

use vstd::prelude::*;

use crate::num::{fdiv, isqrt, sat, spec_fdiv, spec_sat, SCALE};

verus! {

/// Componentwise magnitude bound under which the arithmetic methods accept
/// their arguments; far above any representable scene.
pub const POINT_LIMIT: i64 = 0x1000_0000_0000_0000;

/// A point in three-dimensional flat space with orthonormal cartesian
/// coordinates, in fixed-point units.
#[derive(Clone, Copy, PartialEq, Eq, Structural, Debug)]
pub struct Point3 {
    pub x: i64,
    pub y: i64,
    pub z: i64,
}

/// Alias for a three-dimensional vector.
pub type Vector3 = Point3;

/// Alias for a color with red, green and blue components.
pub type Color = Point3;

/// All three components lie strictly within `m` in magnitude.
pub open spec fn within(p: Point3, m: int) -> bool {
    -m < p.x < m && -m < p.y < m && -m < p.z < m
}

impl Point3 {
    /// The point with the three given fixed-point coordinates.
    pub fn new(x: i64, y: i64, z: i64) -> (r: Point3)
        ensures
            r == (Point3 { x, y, z }),
    {
        Point3 { x, y, z }
    }

    /// The origin.
    pub fn zero() -> (r: Point3)
        ensures
            r == (Point3 { x: 0, y: 0, z: 0 }),
    {
        Point3 { x: 0, y: 0, z: 0 }
    }

    /// The component selected by index 0, 1 or 2 (x, y or z).
    pub fn axis(&self, index: u8) -> (r: i64)
        requires
            index < 3,
        ensures
            r == spec_axis(*self, index as int),
    {
        if index == 0 {
            self.x
        } else if index == 1 {
            self.y
        } else {
            self.z
        }
    }

    /// Componentwise negation.
    pub fn neg(&self) -> (r: Point3)
        requires
            within(*self, POINT_LIMIT as int),
        ensures
            r.x == -self.x && r.y == -self.y && r.z == -self.z,
    {
        Point3 { x: -self.x, y: -self.y, z: -self.z }
    }

    /// Componentwise addition.
    pub fn add(&self, other: &Point3) -> (r: Point3)
        requires
            within(*self, POINT_LIMIT as int),
            within(*other, POINT_LIMIT as int),
        ensures
            r.x == self.x + other.x && r.y == self.y + other.y && r.z == self.z + other.z,
    {
        Point3 { x: self.x + other.x, y: self.y + other.y, z: self.z + other.z }
    }

    /// Componentwise subtraction.
    pub fn sub(&self, other: &Point3) -> (r: Point3)
        requires
            within(*self, POINT_LIMIT as int),
            within(*other, POINT_LIMIT as int),
        ensures
            r.x == self.x - other.x && r.y == self.y - other.y && r.z == self.z - other.z,
    {
        Point3 { x: self.x - other.x, y: self.y - other.y, z: self.z - other.z }
    }

    /// Multiplication by a fixed-point scalar, saturating far outside the
    /// representable range.
    pub fn scale(&self, c: i64) -> (r: Point3)
        requires
            within(*self, POINT_LIMIT as int),
            -POINT_LIMIT < c < POINT_LIMIT,
        ensures
            r.x == spec_sat(spec_fdiv(self.x * c, SCALE as int)),
            r.y == spec_sat(spec_fdiv(self.y * c, SCALE as int)),
            r.z == spec_sat(spec_fdiv(self.z * c, SCALE as int)),
    {
        proof {
            lemma_mul_limit_bound(self.x as int, c as int);
            lemma_mul_limit_bound(self.y as int, c as int);
            lemma_mul_limit_bound(self.z as int, c as int);
        }
        Point3 {
            x: sat(fdiv((self.x as i128) * (c as i128), SCALE)),
            y: sat(fdiv((self.y as i128) * (c as i128), SCALE)),
            z: sat(fdiv((self.z as i128) * (c as i128), SCALE)),
        }
    }

    /// Coordinate-wise multiplication of points.
    pub fn mul(&self, other: &Point3) -> (r: Point3)
        requires
            within(*self, POINT_LIMIT as int),
            within(*other, POINT_LIMIT as int),
        ensures
            r.x == spec_sat(spec_fdiv(self.x * other.x, SCALE as int)),
            r.y == spec_sat(spec_fdiv(self.y * other.y, SCALE as int)),
            r.z == spec_sat(spec_fdiv(self.z * other.z, SCALE as int)),
    {
        proof {
            lemma_mul_limit_bound(self.x as int, other.x as int);
            lemma_mul_limit_bound(self.y as int, other.y as int);
            lemma_mul_limit_bound(self.z as int, other.z as int);
        }
        Point3 {
            x: sat(fdiv((self.x as i128) * (other.x as i128), SCALE)),
            y: sat(fdiv((self.y as i128) * (other.y as i128), SCALE)),
            z: sat(fdiv((self.z as i128) * (other.z as i128), SCALE)),
        }
    }

    /// Dot product, as a fixed-point scalar.
    pub fn dot(&self, other: &Point3) -> (r: i64)
        requires
            within(*self, POINT_LIMIT as int),
            within(*other, POINT_LIMIT as int),
        ensures
            r == spec_sat(spec_fdiv(spec_dot_raw(*self, *other), SCALE as int)),
    {
        sat(fdiv(dot_raw(self, other), SCALE))
    }

    /// The squared length, as a fixed-point scalar.
    pub fn length_squared(&self) -> (r: i64)
        requires
            within(*self, POINT_LIMIT as int),
        ensures
            r == spec_sat(spec_fdiv(spec_dot_raw(*self, *self), SCALE as int)),
    {
        sat(fdiv(dot_raw(self, self), SCALE))
    }

    /// The length, as a fixed-point scalar.
    pub fn length(&self) -> (r: i64)
        requires
            within(*self, POINT_LIMIT as int),
        ensures
            r == spec_length(*self),
            r >= 0,
    {
        let sq: i128 = dot_raw(self, self);
        proof {
            lemma_dot_raw_self_nonneg(*self);
        }
        let r: u128 = isqrt(sq as u128);
        proof {
            lemma_isqrt_unique(sq as int, r as int);
        }
        r as i64
    }

    /// Whether the vector is zero in all dimensions.  The fixed-point grid
    /// holds no nonzero value below one unit, so a small-tolerance check
    /// collapses to an exact test.
    pub fn is_near_zero(&self) -> (r: bool)
        ensures
            r == (self.x == 0 && self.y == 0 && self.z == 0),
    {
        self.x == 0 && self.y == 0 && self.z == 0
    }
}

/// The component of `p` selected by index 0, 1 or 2.
pub open spec fn spec_axis(p: Point3, index: int) -> int {
    if index == 0 {
        p.x as int
    } else if index == 1 {
        p.y as int
    } else {
        p.z as int
    }
}

/// Dot product without rescaling (the result carries scale squared).
pub open spec fn spec_dot_raw(u: Point3, v: Point3) -> int {
    u.x * v.x + u.y * v.y + u.z * v.z
}

/// The length of `p` as a fixed-point scalar: the integer square root of the
/// raw self dot product.
pub open spec fn spec_length(p: Point3) -> int {
    isqrt_spec(spec_dot_raw(p, p))
}

/// The greatest `r >= 0` with `r * r <= n` (0 for negative `n`).
pub open spec fn isqrt_spec(n: int) -> int {
    choose|r: int| r >= 0 && #[trigger] (r * r) <= n && n < (r + 1) * (r + 1)
}

/// A square never has a negative raw self dot product, and the raw self dot
/// product of a bounded point stays well inside 128 bits.
pub proof fn lemma_dot_raw_self_nonneg(p: Point3)
    requires
        within(p, POINT_LIMIT as int),
    ensures
        0 <= spec_dot_raw(p, p) < 0x4000_0000_0000_0000_0000_0000_0000_0000,
{
    let l = POINT_LIMIT as int;
    assert(p.x * p.x >= 0 && p.x * p.x < l * l) by (nonlinear_arith)
        requires -l < p.x < l;
    assert(p.y * p.y >= 0 && p.y * p.y < l * l) by (nonlinear_arith)
        requires -l < p.y < l;
    assert(p.z * p.z >= 0 && p.z * p.z < l * l) by (nonlinear_arith)
        requires -l < p.z < l;
}

/// The integer square root is unique, so `isqrt_spec` picks exactly the
/// value with the defining property.
pub proof fn lemma_isqrt_unique(n: int, r: int)
    requires
        r >= 0,
        r * r <= n,
        n < (r + 1) * (r + 1),
    ensures
        isqrt_spec(n) == r,
{
    assert(r >= 0 && r * r <= n && n < (r + 1) * (r + 1));
    let c = choose|c: int| c >= 0 && #[trigger] (c * c) <= n && n < (c + 1) * (c + 1);
    assert(c >= 0 && c * c <= n && n < (c + 1) * (c + 1));
    assert(c == r) by (nonlinear_arith)
        requires
            r >= 0 && r * r <= n && n < (r + 1) * (r + 1),
            c >= 0 && c * c <= n && n < (c + 1) * (c + 1);
}

/// For a nonnegative argument the integer square root exists, so
/// `isqrt_spec` has its defining property.
pub proof fn lemma_isqrt_spec_props(n: int)
    requires
        n >= 0,
    ensures
        isqrt_spec(n) >= 0,
        isqrt_spec(n) * isqrt_spec(n) <= n,
        n < (isqrt_spec(n) + 1) * (isqrt_spec(n) + 1),
    decreases n,
{
    if n == 0 {
        lemma_isqrt_unique(0, 0);
    } else {
        lemma_isqrt_spec_props(n - 1);
        let r = isqrt_spec(n - 1);
        if (r + 1) * (r + 1) <= n {
            assert(n < (r + 2) * (r + 2)) by (nonlinear_arith)
                requires
                    r >= 0 && n - 1 < (r + 1) * (r + 1),
            ;
            lemma_isqrt_unique(n, r + 1);
        } else {
            lemma_isqrt_unique(n, r);
        }
    }
}

/// Dot product without rescaling, in wide arithmetic.
pub fn dot_raw(u: &Point3, v: &Point3) -> (r: i128)
    requires
        within(*u, POINT_LIMIT as int),
        within(*v, POINT_LIMIT as int),
    ensures
        r == spec_dot_raw(*u, *v),
        -0x0400_0000_0000_0000_0000_0000_0000_0000 < r < 0x0400_0000_0000_0000_0000_0000_0000_0000,
{
    proof {
        lemma_mul_limit_bound(u.x as int, v.x as int);
        lemma_mul_limit_bound(u.y as int, v.y as int);
        lemma_mul_limit_bound(u.z as int, v.z as int);
    }
    (u.x as i128) * (v.x as i128) + (u.y as i128) * (v.y as i128) + (u.z as i128) * (v.z as i128)
}

/// The product of two bounded components fits comfortably inside the range
/// that `fdiv` accepts.
pub proof fn lemma_mul_limit_bound(a: int, b: int)
    requires
        -0x1000_0000_0000_0000 < a < 0x1000_0000_0000_0000,
        -0x1000_0000_0000_0000 < b < 0x1000_0000_0000_0000,
    ensures
        -0x0100_0000_0000_0000_0000_0000_0000_0000 < a * b
            < 0x0100_0000_0000_0000_0000_0000_0000_0000,
{
    assert(-0x0100_0000_0000_0000_0000_0000_0000_0000 < a * b
        < 0x0100_0000_0000_0000_0000_0000_0000_0000) by (nonlinear_arith)
        requires
            -0x1000_0000_0000_0000 < a < 0x1000_0000_0000_0000,
            -0x1000_0000_0000_0000 < b < 0x1000_0000_0000_0000;
}

/// A new point from an array of three fixed-point coordinates.
pub fn point_from_array(array: [i64; 3]) -> (r: Point3)
    ensures
        r == (Point3 { x: array[0], y: array[1], z: array[2] }),
{
    Point3 { x: array[0], y: array[1], z: array[2] }
}

/// The dot product of two points, as a fixed-point scalar.
pub fn dot(u: &Point3, v: &Point3) -> (r: i64)
    requires
        within(*u, POINT_LIMIT as int),
        within(*v, POINT_LIMIT as int),
    ensures
        r == spec_sat(spec_fdiv(spec_dot_raw(*u, *v), SCALE as int)),
{
    sat(fdiv(dot_raw(u, v), SCALE))
}

/// The cross product of two points, as a fixed-point vector (saturating far
/// outside the representable range).
pub fn cross(u: &Point3, v: &Point3) -> (r: Point3)
    requires
        within(*u, POINT_LIMIT as int),
        within(*v, POINT_LIMIT as int),
    ensures
        r == spec_cross(*u, *v),
{
    proof {
        lemma_mul_limit_bound(u.y as int, v.z as int);
        lemma_mul_limit_bound(u.z as int, v.y as int);
        lemma_mul_limit_bound(u.z as int, v.x as int);
        lemma_mul_limit_bound(u.x as int, v.z as int);
        lemma_mul_limit_bound(u.x as int, v.y as int);
        lemma_mul_limit_bound(u.y as int, v.x as int);
    }
    Point3 {
        x: sat(fdiv(
            (u.y as i128) * (v.z as i128) - (u.z as i128) * (v.y as i128),
            SCALE,
        )),
        y: sat(fdiv(
            (u.z as i128) * (v.x as i128) - (u.x as i128) * (v.z as i128),
            SCALE,
        )),
        z: sat(fdiv(
            (u.x as i128) * (v.y as i128) - (u.y as i128) * (v.x as i128),
            SCALE,
        )),
    }
}

/// The cross product as a fixed-point vector.
pub open spec fn spec_cross(u: Point3, v: Point3) -> Point3 {
    Point3 {
        x: spec_sat(spec_fdiv(u.y * v.z - u.z * v.y, SCALE as int)) as i64,
        y: spec_sat(spec_fdiv(u.z * v.x - u.x * v.z, SCALE as int)) as i64,
        z: spec_sat(spec_fdiv(u.x * v.y - u.y * v.x, SCALE as int)) as i64,
    }
}

/// A rotation of `p` about the y axis, given the fixed-point sine and cosine
/// of the angle.
pub fn rotate_y(p: &Point3, cos_theta: i64, sin_theta: i64) -> (r: Point3)
    requires
        within(*p, POINT_LIMIT as int),
        -POINT_LIMIT < cos_theta < POINT_LIMIT,
        -POINT_LIMIT < sin_theta < POINT_LIMIT,
    ensures
        r == spec_rotate_y(*p, cos_theta as int, sin_theta as int),
{
    proof {
        lemma_mul_limit_bound(cos_theta as int, p.x as int);
        lemma_mul_limit_bound(sin_theta as int, p.z as int);
        lemma_mul_limit_bound(sin_theta as int, p.x as int);
        lemma_mul_limit_bound(cos_theta as int, p.z as int);
    }
    Point3 {
        x: sat(fdiv(
            (cos_theta as i128) * (p.x as i128) - (sin_theta as i128) * (p.z as i128),
            SCALE,
        )),
        y: p.y,
        z: sat(fdiv(
            (sin_theta as i128) * (p.x as i128) + (cos_theta as i128) * (p.z as i128),
            SCALE,
        )),
    }
}

/// The rotation of `p` about the y axis by the angle with the given
/// fixed-point sine and cosine.
pub open spec fn spec_rotate_y(p: Point3, cos_theta: int, sin_theta: int) -> Point3 {
    Point3 {
        x: spec_sat(spec_fdiv(cos_theta * p.x - sin_theta * p.z, SCALE as int)) as i64,
        y: p.y,
        z: spec_sat(spec_fdiv(sin_theta * p.x + cos_theta * p.z, SCALE as int)) as i64,
    }
}

/// The unit vector of `u` in fixed-point coordinates, or the zero vector
/// where `u` itself is zero.
pub fn unit_vector(u: Point3) -> (r: Point3)
    requires
        within(u, POINT_LIMIT as int),
    ensures
        r == spec_unit_vector(u),
{
    let len: i64 = u.length();
    if len == 0 {
        proof {
            lemma_dot_raw_self_nonneg(u);
        }
        Point3 { x: 0, y: 0, z: 0 }
    } else {
        Point3 {
            x: sat(fdiv((u.x as i128) * SCALE, len as i128)),
            y: sat(fdiv((u.y as i128) * SCALE, len as i128)),
            z: sat(fdiv((u.z as i128) * SCALE, len as i128)),
        }
    }
}

/// Normalization of `u`, with the zero vector mapped to itself.
pub open spec fn spec_unit_vector(u: Point3) -> Point3 {
    let len = spec_length(u);
    if len == 0 {
        Point3 { x: 0, y: 0, z: 0 }
    } else {
        Point3 {
            x: spec_sat(spec_fdiv(u.x * (SCALE as int), len)) as i64,
            y: spec_sat(spec_fdiv(u.y * (SCALE as int), len)) as i64,
            z: spec_sat(spec_fdiv(u.z * (SCALE as int), len)) as i64,
        }
    }
}

} // verus!
