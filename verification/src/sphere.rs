//! The sphere primitive: closed-form quadratic root finding against the
//! ray, with the nearer admissible root preferred.

use vstd::prelude::*;

use crate::aabb::{aabb_wf, spec_aabb_from_points, spec_narrow, AABB};
use crate::hittable::{
    aabb_bounded, box_in_geom, point_in_geom, ray_bounded, spec_sub, spec_with_face_normal,
    HitRecord, SurfaceCoordinate, GEOM_LIMIT,
};
use crate::num::{fdiv, isqrt, spec_fdiv, SCALE};
use crate::point3::{
    dot_raw, lemma_isqrt_unique, spec_dot_raw, within, isqrt_spec, Point3,
};
use crate::ray::{Ray, RayInterval};

verus! {

/// A sphere: a center, a radius, a material handle and the precomputed
/// bounding box.
#[derive(Clone, Copy, PartialEq, Eq, Structural, Debug)]
pub struct Sphere {
    pub center: Point3,
    pub radius: i64,
    pub material: u32,
    pub bounding_box: AABB,
}

/// Whether the sphere and ray lie in the range the fixed-point arithmetic
/// supports; outside it no hit is reported.
pub open spec fn spec_sphere_fits(s: Sphere, ray: Ray) -> bool {
    &&& ray_bounded(ray)
    &&& within(s.center, GEOM_LIMIT as int)
    &&& 0 <= s.radius < GEOM_LIMIT
    &&& aabb_bounded(s.bounding_box)
}

/// The hit record of the sphere at parameter `t`: the point on the ray, the
/// (unnormalized) outward normal oriented against the ray, and the sphere's
/// material.  Spherical surface coordinates take inverse trigonometry, which
/// the rendering layer derives from the returned normal.
pub open spec fn spec_sphere_rec(s: Sphere, ray: Ray, t: int) -> HitRecord {
    let p = crate::ray::spec_ray_at(ray, t);
    let outward = spec_sub(p, s.center);
    spec_with_face_normal(
        HitRecord {
            p,
            normal: outward,
            material: s.material,
            t: t as i128,
            surface_coords: SurfaceCoordinate { u: 0, v: 0 },
            front_face: true,
        },
        ray,
        outward,
    )
}

/// The sphere's hit model: prune by the sphere's own bounding box, solve the
/// quadratic `a t^2 - 2 h t + c = 0`, and return the nearer root that lies in
/// the narrowed window, else the farther one, else nothing.
pub open spec fn spec_sphere_hit(s: Sphere, ray: Ray, t0: int, t1: int) -> Option<HitRecord> {
    if !spec_sphere_fits(s, ray) {
        None
    } else {
        let nw = spec_narrow(s.bounding_box, ray, t0, t1);
        if !(nw.0 < nw.1) {
            None
        } else {
            let oc = spec_sub(s.center, ray.origin);
            let a = spec_dot_raw(ray.direction, ray.direction);
            let h = spec_dot_raw(oc, ray.direction);
            let c = spec_dot_raw(oc, oc) - s.radius * s.radius;
            if a == 0 {
                None
            } else {
                let disc = h * h - a * c;
                if disc < 0 {
                    None
                } else {
                    let sq = isqrt_spec(disc);
                    let root1 = crate::aabb::imin(
                        spec_fdiv((h - sq) * SCALE, a),
                        spec_fdiv((h + sq) * SCALE, a),
                    );
                    let root2 = crate::aabb::imax(
                        spec_fdiv((h - sq) * SCALE, a),
                        spec_fdiv((h + sq) * SCALE, a),
                    );
                    if nw.0 <= root1 < nw.1 {
                        Some(spec_sphere_rec(s, ray, root1))
                    } else if nw.0 <= root2 < nw.1 {
                        Some(spec_sphere_rec(s, ray, root2))
                    } else {
                        None
                    }
                }
            }
        }
    }
}

/// Intermediate products of the sphere quadratic stay within bounds that
/// keep every later step inside 128 bits.
pub proof fn lemma_sphere_bounds(s: Sphere, ray: Ray)
    requires
        spec_sphere_fits(s, ray),
    ensures
        ({
            let oc = spec_sub(s.center, ray.origin);
            let a = spec_dot_raw(ray.direction, ray.direction);
            let h = spec_dot_raw(oc, ray.direction);
            let c = spec_dot_raw(oc, oc) - s.radius * s.radius;
            &&& 0 <= a < 3_000_000_000_000_000_000
            &&& -6_000_000_000_000_000_000 < h < 6_000_000_000_000_000_000
            &&& -14_000_000_000_000_000_000 < c < 14_000_000_000_000_000_000
            &&& -80_000_000_000_000_000_000_000_000_000_000_000_000 < h * h - a * c
                < 80_000_000_000_000_000_000_000_000_000_000_000_000
        }),
{
    let oc = spec_sub(s.center, ray.origin);
    let a = spec_dot_raw(ray.direction, ray.direction);
    let h = spec_dot_raw(oc, ray.direction);
    let c = spec_dot_raw(oc, oc) - s.radius * s.radius;
    assert(within(oc, 2_000_000_000));
    crate::num::lemma_abs_mul(ray.direction.x as int, ray.direction.x as int, 1_000_000_000, 1_000_000_000);
    crate::num::lemma_abs_mul(ray.direction.y as int, ray.direction.y as int, 1_000_000_000, 1_000_000_000);
    crate::num::lemma_abs_mul(ray.direction.z as int, ray.direction.z as int, 1_000_000_000, 1_000_000_000);
    assert(0 <= ray.direction.x * ray.direction.x) by (nonlinear_arith);
    assert(0 <= ray.direction.y * ray.direction.y) by (nonlinear_arith);
    assert(0 <= ray.direction.z * ray.direction.z) by (nonlinear_arith);
    crate::num::lemma_abs_mul(oc.x as int, ray.direction.x as int, 2_000_000_000, 1_000_000_000);
    crate::num::lemma_abs_mul(oc.y as int, ray.direction.y as int, 2_000_000_000, 1_000_000_000);
    crate::num::lemma_abs_mul(oc.z as int, ray.direction.z as int, 2_000_000_000, 1_000_000_000);
    crate::num::lemma_abs_mul(oc.x as int, oc.x as int, 2_000_000_000, 2_000_000_000);
    crate::num::lemma_abs_mul(oc.y as int, oc.y as int, 2_000_000_000, 2_000_000_000);
    crate::num::lemma_abs_mul(oc.z as int, oc.z as int, 2_000_000_000, 2_000_000_000);
    assert(0 <= s.radius * s.radius < 1_000_000_000_000_000_000) by (nonlinear_arith)
        requires 0 <= s.radius < 1_000_000_000;
    assert(-80_000_000_000_000_000_000_000_000_000_000_000_000 < h * h - a * c
        < 80_000_000_000_000_000_000_000_000_000_000_000_000) by (nonlinear_arith)
        requires
            0 <= a < 3_000_000_000_000_000_000,
            -6_000_000_000_000_000_000 < h < 6_000_000_000_000_000_000,
            -14_000_000_000_000_000_000 < c < 14_000_000_000_000_000_000,
    ;
}

impl Sphere {
    /// A sphere from its center, radius and material handle; a negative
    /// radius is clamped to zero.  The bounding box spans one fixed-point
    /// unit beyond `center - radius .. center + radius` on each axis, so a
    /// surface point on a box face stays inside the half-open slab span.
    pub fn new(center: Point3, radius: i64, material: u32) -> (r: Sphere)
        requires
            within(center, (GEOM_LIMIT / 2) as int),
            -GEOM_LIMIT / 2 < radius < GEOM_LIMIT / 2 - 1,
        ensures
            r.center == center,
            r.radius == if radius >= 0 { radius as int } else { 0 },
            r.material == material,
            r.bounding_box == spec_aabb_from_points(
                spec_sub(center, Point3 { x: (radius + 1) as i64, y: (radius + 1) as i64, z: (radius + 1) as i64 }),
                Point3 {
                    x: (center.x + radius + 1) as i64,
                    y: (center.y + radius + 1) as i64,
                    z: (center.z + radius + 1) as i64,
                },
            ),
            aabb_wf(r.bounding_box),
            spec_sphere_fits_shape(r),
    {
        let radius_vector = Point3 { x: radius + 1, y: radius + 1, z: radius + 1 };
        let lo = center.sub(&radius_vector);
        let hi = center.add(&radius_vector);
        let bounding_box = crate::aabb::aabb_from_points(lo, hi);
        Sphere {
            center,
            radius: if radius >= 0 {
                radius
            } else {
                0
            },
            material,
            bounding_box,
        }
    }

    /// Ray-sphere intersection: the nearer admissible quadratic root within
    /// the interval, after pruning by the sphere's own bounding box.
    pub fn hit(&self, ray: &Ray, ray_t: &RayInterval) -> (res: Option<HitRecord>)
        ensures
            res == spec_sphere_hit(*self, *ray, ray_t.start as int, ray_t.end as int),
    {
        if !(self.fits(ray)) {
            return None;
        }
        let mut reduced = *ray_t;
        if !self.bounding_box.hit(ray, &mut reduced) {
            return None;
        }
        proof {
            lemma_sphere_bounds(*self, *ray);
        }
        let oc = self.center.sub(&ray.origin);
        let a: i128 = dot_raw(&ray.direction, &ray.direction);
        let h: i128 = dot_raw(&oc, &ray.direction);
        proof {
            crate::num::lemma_abs_mul(self.radius as int, self.radius as int, 1_000_000_000, 1_000_000_000);
        }
        let c: i128 = dot_raw(&oc, &oc) - (self.radius as i128) * (self.radius as i128);
        if a == 0 {
            return None;
        }
        proof {
            crate::num::lemma_abs_mul(
                h as int,
                h as int,
                6_000_000_000_000_000_000,
                6_000_000_000_000_000_000,
            );
            crate::num::lemma_abs_mul(
                a as int,
                c as int,
                3_000_000_000_000_000_000,
                14_000_000_000_000_000_000,
            );
        }
        let disc: i128 = h * h - a * c;
        if disc < 0 {
            return None;
        }
        let sq: u128 = isqrt(disc as u128);
        proof {
            lemma_isqrt_unique(disc as int, sq as int);
        }
        let root_a: i128 = fdiv((h - sq as i128) * SCALE, a);
        let root_b: i128 = fdiv((h + sq as i128) * SCALE, a);
        proof {
            crate::num::lemma_fdiv_within((h - sq as i128) * SCALE, a as int);
            crate::num::lemma_fdiv_within((h + sq as i128) * SCALE, a as int);
        }
        let root1: i128 = crate::num::min_i128(root_a, root_b);
        let root2: i128 = crate::num::max_i128(root_a, root_b);
        if reduced.start <= root1 && root1 < reduced.end {
            Some(self.record_at(ray, root1))
        } else if reduced.start <= root2 && root2 < reduced.end {
            Some(self.record_at(ray, root2))
        } else {
            None
        }
    }

    /// The hit record of this sphere at parameter `t`.
    fn record_at(&self, ray: &Ray, t: i128) -> (rec: HitRecord)
        requires
            spec_sphere_fits(*self, *ray),
            -crate::ray::T_LIMIT < t < crate::ray::T_LIMIT,
        ensures
            rec == spec_sphere_rec(*self, *ray, t as int),
    {
        let p = ray.at(t);
        let outward = p.sub(&self.center);
        let mut rec = HitRecord {
            p,
            normal: outward,
            material: self.material,
            t,
            surface_coords: SurfaceCoordinate { u: 0, v: 0 },
            front_face: true,
        };
        rec.set_face_normal(ray, outward);
        rec
    }

    /// The numeric-range check for this sphere and ray.
    fn fits(&self, ray: &Ray) -> (r: bool)
        ensures
            r == spec_sphere_fits(*self, *ray),
    {
        point_in_geom(&ray.origin) && point_in_geom(&ray.direction) && point_in_geom(&self.center)
            && 0 <= self.radius && self.radius < GEOM_LIMIT && box_in_geom(&self.bounding_box)
    }
}

/// The shape part of the sphere range check (everything but the ray).
pub open spec fn spec_sphere_fits_shape(s: Sphere) -> bool {
    &&& within(s.center, GEOM_LIMIT as int)
    &&& 0 <= s.radius < GEOM_LIMIT
    &&& aabb_bounded(s.bounding_box)
}

/// Any record the sphere model returns carries a saturated point and a
/// bounded (difference-of-bounded-points) normal.
pub proof fn lemma_sphere_rec_bounds(s: Sphere, ray: Ray, t0: int, t1: int)
    ensures
        spec_sphere_hit(s, ray, t0, t1) is Some ==> {
            let rec = spec_sphere_hit(s, ray, t0, t1)->Some_0;
            &&& within(rec.p, crate::num::COORD_SAT as int + 1)
            &&& within(rec.normal, 300_000_000_000_000_000)
        },
{
}

} // verus!
