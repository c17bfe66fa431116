//! Rays: a geometric line `origin + direction * t`, together with the
//! half-open parameter interval in which hits are searched.

use vstd::prelude::*;

use crate::num::{fdiv, sat, spec_fdiv, spec_sat, SCALE};
use crate::point3::{within, Point3, Vector3};

verus! {

/// Magnitude bound on direction components under which `at` accepts a ray.
pub const DIR_LIMIT: i64 = 1_000_000_000;

/// Magnitude bound on ray parameters accepted by `at`; far beyond any
/// parameter at which a representable box or shape can be crossed.
pub const T_LIMIT: i128 = 0x10_0000_0000_0000_0000_0000;

/// A ray: a geometric line `origin + direction * t`.  `free_path` is the
/// fixed-point exponential free-path sample `-ln(u)` that a participating
/// medium consumes; the integrator draws it afresh for every ray, so medium
/// scattering is a deterministic function of the ray it is given.
#[derive(Clone, Copy, PartialEq, Eq, Structural, Debug)]
pub struct Ray {
    pub origin: Point3,
    pub direction: Vector3,
    pub free_path: i64,
}

/// The half-open ray-parameter interval `[start, end)` within which hits
/// count.  Parameters are fixed-point scalars held in wide integers.
#[derive(Clone, Copy, PartialEq, Eq, Structural, Debug)]
pub struct RayInterval {
    pub start: i128,
    pub end: i128,
}

impl RayInterval {
    /// The interval `[start, end)`.
    pub fn new(start: i128, end: i128) -> (r: RayInterval)
        ensures
            r == (RayInterval { start, end }),
    {
        RayInterval { start, end }
    }

    /// Whether `t` lies in the half-open interval.
    pub fn contains(&self, t: i128) -> (r: bool)
        ensures
            r == (self.start <= t < self.end),
    {
        self.start <= t && t < self.end
    }
}

/// The point of `ray` at parameter `t`, componentwise
/// `origin + (t * direction) / SCALE`, saturated into the representable range.
pub open spec fn spec_ray_at(ray: Ray, t: int) -> Point3 {
    Point3 {
        x: spec_sat(ray.origin.x + spec_fdiv(t * ray.direction.x, SCALE as int)) as i64,
        y: spec_sat(ray.origin.y + spec_fdiv(t * ray.direction.y, SCALE as int)) as i64,
        z: spec_sat(ray.origin.z + spec_fdiv(t * ray.direction.z, SCALE as int)) as i64,
    }
}

impl Ray {
    /// A ray with the mean free-path sample (`-ln(u)` at `u = 1/e`).
    pub fn new(origin: Point3, direction: Vector3) -> (r: Ray)
        ensures
            r == (Ray { origin, direction, free_path: SCALE as i64 }),
    {
        Ray { origin, direction, free_path: SCALE as i64 }
    }

    /// A ray carrying an explicit free-path sample for media.
    pub fn with_free_path(origin: Point3, direction: Vector3, free_path: i64) -> (r: Ray)
        ensures
            r == (Ray { origin, direction, free_path }),
    {
        Ray { origin, direction, free_path }
    }

    /// The point of the ray at parameter `t`.
    pub fn at(&self, t: i128) -> (r: Point3)
        requires
            within(self.direction, DIR_LIMIT as int),
            -T_LIMIT < t < T_LIMIT,
        ensures
            r == spec_ray_at(*self, t as int),
    {
        proof {
            lemma_t_dir_bound(t as int, self.direction.x as int);
            lemma_t_dir_bound(t as int, self.direction.y as int);
            lemma_t_dir_bound(t as int, self.direction.z as int);
        }
        Point3 {
            x: sat((self.origin.x as i128) + fdiv(t * (self.direction.x as i128), SCALE)),
            y: sat((self.origin.y as i128) + fdiv(t * (self.direction.y as i128), SCALE)),
            z: sat((self.origin.z as i128) + fdiv(t * (self.direction.z as i128), SCALE)),
        }
    }
}

/// The product of a bounded parameter and a bounded direction component stays
/// well inside 128 bits.
proof fn lemma_t_dir_bound(t: int, d: int)
    requires
        -T_LIMIT < t < T_LIMIT,
        -DIR_LIMIT < d < DIR_LIMIT,
    ensures
        -0x1000_0000_0000_0000_0000_0000_0000_0000 < t * d
            < 0x1000_0000_0000_0000_0000_0000_0000_0000,
{
    assert(-0x1000_0000_0000_0000_0000_0000_0000_0000 < t * d
        < 0x1000_0000_0000_0000_0000_0000_0000_0000) by (nonlinear_arith)
        requires
            -T_LIMIT < t < T_LIMIT,
            -DIR_LIMIT < d < DIR_LIMIT;
}

} // verus!
