//! General quadric surfaces (cylinders, cones, spheres given implicitly):
//! the quadratic in the ray parameter is assembled from the stored
//! coefficients and solved as for the sphere.  The bounding box deliberately
//! clips the surface, so an infinite cylinder extends only through its box.

use vstd::prelude::*;

use crate::aabb::{aabb_wf, spec_aabb_from_points, spec_narrow, AABB};
use crate::hittable::{
    aabb_bounded, box_in_geom, point_in_geom, ray_bounded, spec_sub, spec_with_face_normal,
    HitRecord, SurfaceCoordinate, GEOM_LIMIT,
};
use crate::num::{fdiv, isqrt, sat, spec_fdiv, spec_sat, SCALE};
use crate::point3::{
    dot_raw, isqrt_spec, lemma_isqrt_unique, spec_dot_raw, within, Point3, Vector3,
};
use crate::ray::{Ray, RayInterval};

verus! {

/// Magnitude bound on the quadratic (`p1`) and mixed (`p2`) coefficients.
pub const Q_COEFF_LIMIT: i64 = 1_000_000_000;

/// Magnitude bound on the linear coefficients (`p3`), which carry one more
/// power of the fixed-point scale.
pub const Q_LINEAR_LIMIT: i64 = 100_000_000_000_000;

/// Magnitude bound on the constant term `j`, which carries yet one more
/// power of the scale.
pub const Q_CONST_LIMIT: i128 = 1_000_000_000_000_000_000_000_000;

/// Cap on the assembled quadratic coefficients beyond which the discriminant
/// would leave 128 bits; a ray that steep against a quadric reports no hit.
pub const Q_A_CAP: i128 = 3_000_000_000_000_000_000;

/// Cap on the assembled linear coefficient.
pub const Q_B_CAP: i128 = 6_000_000_000_000_000_000;

/// A general quadric surface `sum p1 x^2 + sum p2 xy + sum p3 x + j = 0`,
/// clipped by its bounding box.
#[derive(Clone, Copy, PartialEq, Eq, Structural, Debug)]
pub struct Quadric {
    pub p1: Point3,
    pub p2: Point3,
    pub p3: Point3,
    pub j: i128,
    pub material: u32,
    pub bounding_box: AABB,
}

/// Pairwise products `(x y, x z, y z)` of the two vectors' components.
pub open spec fn spec_prod1(u: Point3, v: Point3) -> (int, int, int) {
    (u.x * v.y, u.x * v.z, u.y * v.z)
}

/// The symmetrized pairwise products of the two vectors' components.
pub open spec fn spec_anticross(u: Point3, v: Point3) -> (int, int, int) {
    (u.x * v.y + u.y * v.x, u.x * v.z + u.z * v.x, u.y * v.z + u.z * v.y)
}

/// A dot product of a coefficient vector with a triple of wide components.
pub open spec fn spec_dot_triple(p: Point3, t: (int, int, int)) -> int {
    p.x * t.0 + p.y * t.1 + p.z * t.2
}

/// Whether the quadric and ray lie in the range the fixed-point arithmetic
/// supports; outside it no hit is reported.
pub open spec fn spec_quadric_fits(q: Quadric, ray: Ray) -> bool {
    ray_bounded(ray) && spec_quadric_fits_shape(q)
}

/// The shape part of the quadric range check.
pub open spec fn spec_quadric_fits_shape(q: Quadric) -> bool {
    &&& within(q.p1, Q_COEFF_LIMIT as int)
    &&& within(q.p2, Q_COEFF_LIMIT as int)
    &&& within(q.p3, Q_LINEAR_LIMIT as int)
    &&& -Q_CONST_LIMIT < q.j < Q_CONST_LIMIT
    &&& aabb_bounded(q.bounding_box)
}

/// The three coefficients of the quadratic `a t^2 + b t + c` that the ray
/// induces on the quadric.
pub open spec fn spec_quadric_coeffs(q: Quadric, ray: Ray) -> (int, int, int) {
    let o = ray.origin;
    let d = ray.direction;
    let a = spec_dot_triple(
        q.p1,
        (d.x * d.x, d.y * d.y, d.z * d.z),
    ) + spec_dot_triple(q.p2, spec_prod1(d, d));
    let b = 2 * spec_dot_triple(q.p1, (d.x * o.x, d.y * o.y, d.z * o.z)) + spec_dot_triple(
        q.p2,
        spec_anticross(d, o),
    ) + spec_dot_raw(q.p3, d);
    let c = spec_dot_triple(
        q.p1,
        (o.x * o.x, o.y * o.y, o.z * o.z),
    ) + spec_dot_triple(q.p2, spec_anticross(o, o)) + spec_dot_raw(q.p3, o) + q.j;
    (a, b, c)
}

/// The (unnormalized) gradient of the quadric at `p`, oriented outward
/// against the ray.
pub open spec fn spec_quadric_normal(q: Quadric, ray: Ray, p: Point3) -> Point3 {
    let n = Point3 {
        x: spec_sat(2 * q.p1.x * p.x + q.p2.x * p.y + q.p2.y * p.z + q.p3.x) as i64,
        y: spec_sat(2 * q.p1.y * p.y + q.p2.x * p.x + q.p2.z * p.z + q.p3.y) as i64,
        z: spec_sat(2 * q.p1.z * p.z + q.p2.y * p.x + q.p2.z * p.y + q.p3.z) as i64,
    };
    if spec_dot_raw(ray.direction, p) > 0 {
        Point3 { x: -n.x as i64, y: -n.y as i64, z: -n.z as i64 }
    } else {
        n
    }
}

/// The hit record of the quadric at parameter `t`.
pub open spec fn spec_quadric_rec(q: Quadric, ray: Ray, t: int) -> HitRecord {
    let p = crate::ray::spec_ray_at(ray, t);
    let outward = spec_quadric_normal(q, ray, p);
    spec_with_face_normal(
        HitRecord {
            p,
            normal: outward,
            material: q.material,
            t: t as i128,
            surface_coords: SurfaceCoordinate { u: 0, v: 0 },
            front_face: true,
        },
        ray,
        outward,
    )
}

/// The quadric's hit model: prune by the own bounding box, assemble the
/// quadratic, and return the nearer admissible root within the narrowed
/// window, else the farther one, else nothing.  Coefficients beyond the
/// discriminant caps report no hit.
pub open spec fn spec_quadric_hit(q: Quadric, ray: Ray, t0: int, t1: int) -> Option<HitRecord> {
    if !spec_quadric_fits(q, ray) {
        None
    } else {
        let nw = spec_narrow(q.bounding_box, ray, t0, t1);
        if !(nw.0 < nw.1) {
            None
        } else {
            let co = spec_quadric_coeffs(q, ray);
            let a = co.0;
            let b = co.1;
            let c = co.2;
            if a == 0 || !(-Q_A_CAP < a < Q_A_CAP) || !(-Q_B_CAP < b < Q_B_CAP) || !(-Q_A_CAP < c
                < Q_A_CAP) {
                None
            } else {
                let disc = b * b - 4 * a * c;
                if disc < 0 {
                    None
                } else {
                    let sq = isqrt_spec(disc);
                    let root1 = crate::aabb::imin(
                        spec_fdiv((-b - sq) * SCALE, 2 * a),
                        spec_fdiv((-b + sq) * SCALE, 2 * a),
                    );
                    let root2 = crate::aabb::imax(
                        spec_fdiv((-b - sq) * SCALE, 2 * a),
                        spec_fdiv((-b + sq) * SCALE, 2 * a),
                    );
                    if nw.0 <= root1 < nw.1 {
                        Some(spec_quadric_rec(q, ray, root1))
                    } else if nw.0 <= root2 < nw.1 {
                        Some(spec_quadric_rec(q, ray, root2))
                    } else {
                        None
                    }
                }
            }
        }
    }
}

impl Quadric {
    /// Ray-quadric intersection: the nearer admissible root of the induced
    /// quadratic within the interval, after pruning by the quadric's own
    /// bounding box.
    pub fn hit(&self, ray: &Ray, ray_t: &RayInterval) -> (res: Option<HitRecord>)
        ensures
            res == spec_quadric_hit(*self, *ray, ray_t.start as int, ray_t.end as int),
    {
        if !self.fits(ray) {
            return None;
        }
        let mut reduced = *ray_t;
        if !self.bounding_box.hit(ray, &mut reduced) {
            return None;
        }
        let (a, b, c) = self.coeffs(ray);
        if a == 0 || !(-Q_A_CAP < a && a < Q_A_CAP) || !(-Q_B_CAP < b && b < Q_B_CAP) || !(-Q_A_CAP
            < c && c < Q_A_CAP) {
            return None;
        }
        proof {
            crate::num::lemma_abs_mul(b as int, b as int, 6_000_000_000_000_000_000, 6_000_000_000_000_000_000);
            crate::num::lemma_abs_mul(
                4 * (a as int),
                c as int,
                12_000_000_000_000_000_000,
                3_000_000_000_000_000_000,
            );
        }
        let disc: i128 = b * b - 4 * a * c;
        if disc < 0 {
            return None;
        }
        let sq: u128 = isqrt(disc as u128);
        proof {
            lemma_isqrt_unique(disc as int, sq as int);
        }
        let root_a: i128 = fdiv((-b - sq as i128) * SCALE, 2 * a);
        let root_b: i128 = fdiv((-b + sq as i128) * SCALE, 2 * a);
        proof {
            if a > 0 {
                crate::num::lemma_fdiv_within((-b - sq as i128) * SCALE, 2 * a as int);
                crate::num::lemma_fdiv_within((-b + sq as i128) * SCALE, 2 * a as int);
            } else {
                crate::num::lemma_fdiv_within(-((-b - sq as i128) * SCALE), -(2 * a as int));
                crate::num::lemma_fdiv_within(-((-b + sq as i128) * SCALE), -(2 * a as int));
            }
        }
        let root1: i128 = crate::num::min_i128(root_a, root_b);
        let root2: i128 = crate::num::max_i128(root_a, root_b);
        if reduced.start <= root1 && root1 < reduced.end {
            Some(self.record_at(ray, root1))
        } else if reduced.start <= root2 && root2 < reduced.end {
            Some(self.record_at(ray, root2))
        } else {
            None
        }
    }

    /// The quadratic coefficients the ray induces on this quadric.
    fn coeffs(&self, ray: &Ray) -> (r: (i128, i128, i128))
        requires
            spec_quadric_fits(*self, *ray),
        ensures
            (r.0 as int, r.1 as int, r.2 as int) == spec_quadric_coeffs(*self, *ray),
    {
        proof {
            broadcast use vstd::arithmetic::mul::lemma_mul_is_associative;

            crate::num::lemma_abs_mul(self.p1.x as int, ray.direction.x as int, 1_000_000_000, 1_000_000_000);
            crate::num::lemma_abs_mul((self.p1.x as int) * (ray.direction.x as int), ray.direction.x as int, 1_000_000_000_000_000_000, 1_000_000_000);
            crate::num::lemma_abs_mul(self.p1.y as int, ray.direction.y as int, 1_000_000_000, 1_000_000_000);
            crate::num::lemma_abs_mul((self.p1.y as int) * (ray.direction.y as int), ray.direction.y as int, 1_000_000_000_000_000_000, 1_000_000_000);
            crate::num::lemma_abs_mul(self.p1.z as int, ray.direction.z as int, 1_000_000_000, 1_000_000_000);
            crate::num::lemma_abs_mul((self.p1.z as int) * (ray.direction.z as int), ray.direction.z as int, 1_000_000_000_000_000_000, 1_000_000_000);
            crate::num::lemma_abs_mul(self.p2.x as int, ray.direction.x as int, 1_000_000_000, 1_000_000_000);
            crate::num::lemma_abs_mul((self.p2.x as int) * (ray.direction.x as int), ray.direction.y as int, 1_000_000_000_000_000_000, 1_000_000_000);
            crate::num::lemma_abs_mul(self.p2.y as int, ray.direction.x as int, 1_000_000_000, 1_000_000_000);
            crate::num::lemma_abs_mul((self.p2.y as int) * (ray.direction.x as int), ray.direction.z as int, 1_000_000_000_000_000_000, 1_000_000_000);
            crate::num::lemma_abs_mul(self.p2.z as int, ray.direction.y as int, 1_000_000_000, 1_000_000_000);
            crate::num::lemma_abs_mul((self.p2.z as int) * (ray.direction.y as int), ray.direction.z as int, 1_000_000_000_000_000_000, 1_000_000_000);
            crate::num::lemma_abs_mul(self.p1.x as int, ray.direction.x as int, 1_000_000_000, 1_000_000_000);
            crate::num::lemma_abs_mul((self.p1.x as int) * (ray.direction.x as int), ray.origin.x as int, 1_000_000_000_000_000_000, 1_000_000_000);
            crate::num::lemma_abs_mul(self.p1.y as int, ray.direction.y as int, 1_000_000_000, 1_000_000_000);
            crate::num::lemma_abs_mul((self.p1.y as int) * (ray.direction.y as int), ray.origin.y as int, 1_000_000_000_000_000_000, 1_000_000_000);
            crate::num::lemma_abs_mul(self.p1.z as int, ray.direction.z as int, 1_000_000_000, 1_000_000_000);
            crate::num::lemma_abs_mul((self.p1.z as int) * (ray.direction.z as int), ray.origin.z as int, 1_000_000_000_000_000_000, 1_000_000_000);
            crate::num::lemma_abs_mul(self.p1.x as int, ray.origin.x as int, 1_000_000_000, 1_000_000_000);
            crate::num::lemma_abs_mul((self.p1.x as int) * (ray.origin.x as int), ray.origin.x as int, 1_000_000_000_000_000_000, 1_000_000_000);
            crate::num::lemma_abs_mul(self.p1.y as int, ray.origin.y as int, 1_000_000_000, 1_000_000_000);
            crate::num::lemma_abs_mul((self.p1.y as int) * (ray.origin.y as int), ray.origin.y as int, 1_000_000_000_000_000_000, 1_000_000_000);
            crate::num::lemma_abs_mul(self.p1.z as int, ray.origin.z as int, 1_000_000_000, 1_000_000_000);
            crate::num::lemma_abs_mul((self.p1.z as int) * (ray.origin.z as int), ray.origin.z as int, 1_000_000_000_000_000_000, 1_000_000_000);
            crate::num::lemma_abs_mul(ray.direction.x as int, ray.origin.y as int, 1_000_000_000, 1_000_000_000);
            crate::num::lemma_abs_mul(ray.direction.y as int, ray.origin.x as int, 1_000_000_000, 1_000_000_000);
            crate::num::lemma_abs_mul(ray.direction.x as int, ray.origin.z as int, 1_000_000_000, 1_000_000_000);
            crate::num::lemma_abs_mul(ray.direction.z as int, ray.origin.x as int, 1_000_000_000, 1_000_000_000);
            crate::num::lemma_abs_mul(ray.direction.y as int, ray.origin.z as int, 1_000_000_000, 1_000_000_000);
            crate::num::lemma_abs_mul(ray.direction.z as int, ray.origin.y as int, 1_000_000_000, 1_000_000_000);
            crate::num::lemma_abs_mul(ray.origin.x as int, ray.origin.y as int, 1_000_000_000, 1_000_000_000);
            crate::num::lemma_abs_mul(ray.origin.x as int, ray.origin.z as int, 1_000_000_000, 1_000_000_000);
            crate::num::lemma_abs_mul(ray.origin.y as int, ray.origin.z as int, 1_000_000_000, 1_000_000_000);
            crate::num::lemma_abs_mul(self.p2.x as int, (ray.direction.x as int) * (ray.origin.y as int) + (ray.direction.y as int) * (ray.origin.x as int), 1_000_000_000, 2_000_000_000_000_000_000);
            crate::num::lemma_abs_mul(self.p2.y as int, (ray.direction.x as int) * (ray.origin.z as int) + (ray.direction.z as int) * (ray.origin.x as int), 1_000_000_000, 2_000_000_000_000_000_000);
            crate::num::lemma_abs_mul(self.p2.z as int, (ray.direction.y as int) * (ray.origin.z as int) + (ray.direction.z as int) * (ray.origin.y as int), 1_000_000_000, 2_000_000_000_000_000_000);
            crate::num::lemma_abs_mul(self.p2.x as int, (ray.origin.x as int) * (ray.origin.y as int) + (ray.origin.y as int) * (ray.origin.x as int), 1_000_000_000, 2_000_000_000_000_000_000);
            crate::num::lemma_abs_mul(self.p2.y as int, (ray.origin.x as int) * (ray.origin.z as int) + (ray.origin.z as int) * (ray.origin.x as int), 1_000_000_000, 2_000_000_000_000_000_000);
            crate::num::lemma_abs_mul(self.p2.z as int, (ray.origin.y as int) * (ray.origin.z as int) + (ray.origin.z as int) * (ray.origin.y as int), 1_000_000_000, 2_000_000_000_000_000_000);
            crate::num::lemma_abs_mul(self.p3.x as int, ray.direction.x as int, 100_000_000_000_000, 1_000_000_000);
            crate::num::lemma_abs_mul(self.p3.y as int, ray.direction.y as int, 100_000_000_000_000, 1_000_000_000);
            crate::num::lemma_abs_mul(self.p3.z as int, ray.direction.z as int, 100_000_000_000_000, 1_000_000_000);
            crate::num::lemma_abs_mul(self.p3.x as int, ray.origin.x as int, 100_000_000_000_000, 1_000_000_000);
            crate::num::lemma_abs_mul(self.p3.y as int, ray.origin.y as int, 100_000_000_000_000, 1_000_000_000);
            crate::num::lemma_abs_mul(self.p3.z as int, ray.origin.z as int, 100_000_000_000_000, 1_000_000_000);
        }
        let o = ray.origin;
        let d = ray.direction;
        let p1 = self.p1;
        let p2 = self.p2;
        let p3 = self.p3;
        let a: i128 = (p1.x as i128) * (d.x as i128) * (d.x as i128) + (p1.y as i128) * (d.y
            as i128) * (d.y as i128) + (p1.z as i128) * (d.z as i128) * (d.z as i128) + (p2.x
            as i128) * (d.x as i128) * (d.y as i128) + (p2.y as i128) * (d.x as i128) * (d.z
            as i128) + (p2.z as i128) * (d.y as i128) * (d.z as i128);
        let b: i128 = 2 * ((p1.x as i128) * (d.x as i128) * (o.x as i128) + (p1.y as i128) * (d.y
            as i128) * (o.y as i128) + (p1.z as i128) * (d.z as i128) * (o.z as i128)) + (p2.x
            as i128) * ((d.x as i128) * (o.y as i128) + (d.y as i128) * (o.x as i128)) + (p2.y
            as i128) * ((d.x as i128) * (o.z as i128) + (d.z as i128) * (o.x as i128)) + (p2.z
            as i128) * ((d.y as i128) * (o.z as i128) + (d.z as i128) * (o.y as i128)) + (p3.x
            as i128) * (d.x as i128) + (p3.y as i128) * (d.y as i128) + (p3.z as i128) * (d.z
            as i128);
        let c: i128 = (p1.x as i128) * (o.x as i128) * (o.x as i128) + (p1.y as i128) * (o.y
            as i128) * (o.y as i128) + (p1.z as i128) * (o.z as i128) * (o.z as i128) + (p2.x
            as i128) * ((o.x as i128) * (o.y as i128) + (o.y as i128) * (o.x as i128)) + (p2.y
            as i128) * ((o.x as i128) * (o.z as i128) + (o.z as i128) * (o.x as i128)) + (p2.z
            as i128) * ((o.y as i128) * (o.z as i128) + (o.z as i128) * (o.y as i128)) + (p3.x
            as i128) * (o.x as i128) + (p3.y as i128) * (o.y as i128) + (p3.z as i128) * (o.z
            as i128) + self.j;
        (a, b, c)
    }

    /// The hit record of this quadric at parameter `t`.
    fn record_at(&self, ray: &Ray, t: i128) -> (rec: HitRecord)
        requires
            spec_quadric_fits(*self, *ray),
            -crate::ray::T_LIMIT < t < crate::ray::T_LIMIT,
        ensures
            rec == spec_quadric_rec(*self, *ray, t as int),
    {
        let p = ray.at(t);
        proof {
            assert(within(p, crate::num::COORD_SAT as int + 1));
            crate::num::lemma_abs_mul(2 * (self.p1.x as int), p.x as int, 2_000_000_000, 2_000_000_001);
            crate::num::lemma_abs_mul(2 * (self.p1.y as int), p.y as int, 2_000_000_000, 2_000_000_001);
            crate::num::lemma_abs_mul(2 * (self.p1.z as int), p.z as int, 2_000_000_000, 2_000_000_001);
            crate::num::lemma_abs_mul(self.p2.x as int, p.x as int, 1_000_000_000, 2_000_000_001);
            crate::num::lemma_abs_mul(self.p2.x as int, p.y as int, 1_000_000_000, 2_000_000_001);
            crate::num::lemma_abs_mul(self.p2.y as int, p.x as int, 1_000_000_000, 2_000_000_001);
            crate::num::lemma_abs_mul(self.p2.y as int, p.z as int, 1_000_000_000, 2_000_000_001);
            crate::num::lemma_abs_mul(self.p2.z as int, p.y as int, 1_000_000_000, 2_000_000_001);
            crate::num::lemma_abs_mul(self.p2.z as int, p.z as int, 1_000_000_000, 2_000_000_001);
        }
        let n = Point3 {
            x: sat(
                2 * (self.p1.x as i128) * (p.x as i128) + (self.p2.x as i128) * (p.y as i128) + (
                self.p2.y as i128) * (p.z as i128) + (self.p3.x as i128),
            ),
            y: sat(
                2 * (self.p1.y as i128) * (p.y as i128) + (self.p2.x as i128) * (p.x as i128) + (
                self.p2.z as i128) * (p.z as i128) + (self.p3.y as i128),
            ),
            z: sat(
                2 * (self.p1.z as i128) * (p.z as i128) + (self.p2.y as i128) * (p.x as i128) + (
                self.p2.z as i128) * (p.y as i128) + (self.p3.z as i128),
            ),
        };
        let outward = if dot_raw(&ray.direction, &p) > 0 {
            n.neg()
        } else {
            n
        };
        let mut rec = HitRecord {
            p,
            normal: outward,
            material: self.material,
            t,
            surface_coords: SurfaceCoordinate { u: 0, v: 0 },
            front_face: true,
        };
        rec.set_face_normal(ray, outward);
        rec
    }

    /// The numeric-range check for this quadric and ray.
    fn fits(&self, ray: &Ray) -> (r: bool)
        ensures
            r == spec_quadric_fits(*self, *ray),
    {
        point_in_geom(&ray.origin) && point_in_geom(&ray.direction) && point_in_geom(&self.p1)
            && point_in_geom(&self.p2) && -Q_LINEAR_LIMIT < self.p3.x && self.p3.x < Q_LINEAR_LIMIT
            && -Q_LINEAR_LIMIT < self.p3.y && self.p3.y < Q_LINEAR_LIMIT && -Q_LINEAR_LIMIT
            < self.p3.z && self.p3.z < Q_LINEAR_LIMIT && -Q_CONST_LIMIT < self.j && self.j
            < Q_CONST_LIMIT && box_in_geom(&self.bounding_box)
    }
}

/// An infinite cylinder around a vertical line, represented as a general
/// quadric; its bounding box is a cube of side twice the radius, which
/// shortens the cylinder to that extent.
pub fn y_cylinder(center: Point3, radius: i64, material: u32) -> (r: Quadric)
    requires
        within(center, 100_000_000),
        0 < radius < 100_000_000 - 1,
    ensures
        r.p1 == (Point3 { x: SCALE as i64, y: 0, z: SCALE as i64 }),
        r.p2 == (Point3 { x: 0, y: 0, z: 0 }),
        r.p3 == (Point3 {
            x: (-2 * SCALE * center.x) as i64,
            y: 0,
            z: (-2 * SCALE * center.z) as i64,
        }),
        r.j == (center.x * center.x + center.z * center.z - radius * radius) * SCALE,
        r.material == material,
        r.bounding_box == spec_aabb_from_points(
            spec_sub(center, Point3 { x: (radius + 1) as i64, y: (radius + 1) as i64, z: (radius + 1) as i64 }),
            Point3 {
                x: (center.x + radius + 1) as i64,
                y: (center.y + radius + 1) as i64,
                z: (center.z + radius + 1) as i64,
            },
        ),
        aabb_wf(r.bounding_box),
        spec_quadric_fits_shape(r),
{
    let radius_vector = Point3 { x: radius + 1, y: radius + 1, z: radius + 1 };
    let bounding_box = crate::aabb::aabb_from_points(
        center.sub(&radius_vector),
        center.add(&radius_vector),
    );
    proof {
        lemma_centered_const_bounds(center, radius);
    }
    let j: i128 = ((center.x as i128) * (center.x as i128) + (center.z as i128) * (center.z
        as i128) - (radius as i128) * (radius as i128)) * SCALE;
    Quadric {
        p1: Point3 { x: SCALE as i64, y: 0, z: SCALE as i64 },
        p2: Point3 { x: 0, y: 0, z: 0 },
        p3: Point3 {
            x: (-2 * (SCALE as i64) * center.x) as i64,
            y: 0,
            z: (-2 * (SCALE as i64) * center.z) as i64,
        },
        j,
        material,
        bounding_box,
    }
}

/// A sphere represented as a general quadric.
pub fn quadric_sphere(center: Point3, radius: i64, material: u32) -> (r: Quadric)
    requires
        within(center, 100_000_000),
        0 < radius < 100_000_000 - 1,
    ensures
        r.p1 == (Point3 { x: SCALE as i64, y: SCALE as i64, z: SCALE as i64 }),
        r.p2 == (Point3 { x: 0, y: 0, z: 0 }),
        r.p3 == (Point3 {
            x: (-2 * SCALE * center.x) as i64,
            y: (-2 * SCALE * center.y) as i64,
            z: (-2 * SCALE * center.z) as i64,
        }),
        r.j == (spec_dot_raw(center, center) - radius * radius) * SCALE,
        r.material == material,
        r.bounding_box == spec_aabb_from_points(
            spec_sub(center, Point3 { x: (radius + 1) as i64, y: (radius + 1) as i64, z: (radius + 1) as i64 }),
            Point3 {
                x: (center.x + radius + 1) as i64,
                y: (center.y + radius + 1) as i64,
                z: (center.z + radius + 1) as i64,
            },
        ),
        aabb_wf(r.bounding_box),
        spec_quadric_fits_shape(r),
{
    let radius_vector = Point3 { x: radius + 1, y: radius + 1, z: radius + 1 };
    let bounding_box = crate::aabb::aabb_from_points(
        center.sub(&radius_vector),
        center.add(&radius_vector),
    );
    proof {
        lemma_centered_const_bounds(center, radius);
        crate::num::lemma_abs_mul(center.y as int, center.y as int, 100_000_000, 100_000_000);
    }
    let j: i128 = ((center.x as i128) * (center.x as i128) + (center.y as i128) * (center.y
        as i128) + (center.z as i128) * (center.z as i128) - (radius as i128) * (radius as i128))
        * SCALE;
    Quadric {
        p1: Point3 { x: SCALE as i64, y: SCALE as i64, z: SCALE as i64 },
        p2: Point3 { x: 0, y: 0, z: 0 },
        p3: Point3 {
            x: (-2 * (SCALE as i64) * center.x) as i64,
            y: (-2 * (SCALE as i64) * center.y) as i64,
            z: (-2 * (SCALE as i64) * center.z) as i64,
        },
        j,
        material,
        bounding_box,
    }
}

/// A double cone around a vertical line through the center, represented as
/// a general quadric and clipped by the box the offset spans.
pub fn y_cone(center: Point3, offset: Point3, material: u32) -> (r: Quadric)
    requires
        within(center, 100_000_000),
        within(offset, 100_000_000),
    ensures
        r.p1 == (Point3 { x: SCALE as i64, y: (-SCALE) as i64, z: SCALE as i64 }),
        r.p2 == (Point3 { x: 0, y: 0, z: 0 }),
        r.p3 == (Point3 {
            x: (-2 * SCALE * center.x) as i64,
            y: (2 * SCALE * center.y) as i64,
            z: (-2 * SCALE * center.z) as i64,
        }),
        r.j == (center.x * center.x - center.y * center.y + center.z * center.z) * SCALE,
        r.material == material,
        aabb_wf(r.bounding_box),
        spec_quadric_fits_shape(r),
{
    let bounding_box = crate::aabb::aabb_from_points(center.sub(&offset), center.add(&offset));
    proof {
        crate::num::lemma_abs_mul(center.x as int, center.x as int, 100_000_000, 100_000_000);
        crate::num::lemma_abs_mul(center.y as int, center.y as int, 100_000_000, 100_000_000);
        crate::num::lemma_abs_mul(center.z as int, center.z as int, 100_000_000, 100_000_000);
    }
    let j: i128 = ((center.x as i128) * (center.x as i128) - (center.y as i128) * (center.y
        as i128) + (center.z as i128) * (center.z as i128)) * SCALE;
    Quadric {
        p1: Point3 { x: SCALE as i64, y: -(SCALE as i64), z: SCALE as i64 },
        p2: Point3 { x: 0, y: 0, z: 0 },
        p3: Point3 {
            x: (-2 * (SCALE as i64) * center.x) as i64,
            y: (2 * (SCALE as i64) * center.y) as i64,
            z: (-2 * (SCALE as i64) * center.z) as i64,
        },
        j,
        material,
        bounding_box,
    }
}

/// The constant term assembled from a bounded center and radius stays in
/// range.
proof fn lemma_centered_const_bounds(center: Point3, radius: i64)
    requires
        within(center, 100_000_000),
        0 < radius < 100_000_000 - 1,
    ensures
        0 <= radius * radius < 10_000_000_000_000_000,
        -10_000_000_000_000_000 < center.x * center.x < 10_000_000_000_000_000,
        -10_000_000_000_000_000 < center.z * center.z < 10_000_000_000_000_000,
{
    crate::num::lemma_abs_mul(center.x as int, center.x as int, 100_000_000, 100_000_000);
    crate::num::lemma_abs_mul(center.z as int, center.z as int, 100_000_000, 100_000_000);
    assert(0 <= radius * radius < 10_000_000_000_000_000) by (nonlinear_arith)
        requires 0 < radius < 100_000_000;
}

/// Any record the quadric model returns carries a saturated point and a
/// saturated gradient normal.
pub proof fn lemma_quadric_rec_bounds(q: Quadric, ray: Ray, t0: int, t1: int)
    ensures
        spec_quadric_hit(q, ray, t0, t1) is Some ==> {
            let rec = spec_quadric_hit(q, ray, t0, t1)->Some_0;
            &&& within(rec.p, crate::num::COORD_SAT as int + 1)
            &&& within(rec.normal, 300_000_000_000_000_000)
        },
{
}

} // verus!
