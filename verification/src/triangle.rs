//! The triangle primitive: the same plane intersection as the
//! parallelogram, with the interior decided by the triangle inequality on
//! the exact plane coordinates.

use vstd::prelude::*;

use crate::aabb::{aabb_wf, spec_join, spec_narrow, AABB};
use crate::hittable::{
    aabb_bounded, box_in_geom, point_in_geom, ray_bounded, spec_sub, spec_with_face_normal,
    HitRecord, SurfaceCoordinate,
};
use crate::num::{fdiv, spec_fdiv, SCALE};
use crate::parallelogram::{
    create_aabb_para, cross_raw, spec_cross_raw, spec_surface_of, surface_of, EDGE_LIMIT,
    NORMAL_LIMIT, PARALLEL_EPS, PLANE_D_LIMIT,
};
use crate::point3::{dot_raw, spec_dot_raw, within, Point3, Vector3};
use crate::ray::{Ray, RayInterval};

verus! {

/// A triangle: a corner `q`, two edge vectors `u` and `v`, the raw plane
/// normal with its plane constant `d`, a material handle, and the
/// precomputed bounding box.
#[derive(Clone, Copy, PartialEq, Eq, Structural, Debug)]
pub struct Triangle {
    /// Starting corner.
    pub q: Point3,
    /// Vector representing the first side.
    pub u: Vector3,
    /// Vector representing the second side.
    pub v: Vector3,
    /// The unnormalized plane normal, without rescaling.
    pub normal: Vector3,
    /// The constant of the plane defined by the vectors, without rescaling.
    pub d: i128,
    /// Material of the triangle.
    pub material: u32,
    /// Bounding box of the triangle.
    pub bounding_box: AABB,
}

/// The shape part of the triangle range check.
pub open spec fn spec_triangle_fits_shape(t: Triangle) -> bool {
    &&& within(t.q, EDGE_LIMIT as int)
    &&& within(t.u, EDGE_LIMIT as int)
    &&& within(t.v, EDGE_LIMIT as int)
    &&& within(t.normal, NORMAL_LIMIT as int)
    &&& -PLANE_D_LIMIT < t.d < PLANE_D_LIMIT
    &&& aabb_bounded(t.bounding_box)
}

/// Whether the triangle and ray lie in the range the fixed-point arithmetic
/// supports; outside it no hit is reported.
pub open spec fn spec_triangle_fits(t: Triangle, ray: Ray) -> bool {
    ray_bounded(ray) && spec_triangle_fits_shape(t)
}

/// The plane coordinates of the hit point, as for the parallelogram.
pub open spec fn spec_tri_coords(t: Triangle, pt: Point3) -> (int, int, int) {
    let w = spec_sub(pt, t.q);
    let alpha = spec_dot_raw(t.normal, spec_cross_raw(w, t.v));
    let beta = spec_dot_raw(t.normal, spec_cross_raw(t.u, w));
    let nn = spec_dot_raw(t.normal, t.normal);
    (alpha, beta, nn)
}

/// The hit record of the triangle at parameter `tp`.
pub open spec fn spec_triangle_rec(t: Triangle, ray: Ray, tp: int) -> HitRecord {
    let pt = crate::ray::spec_ray_at(ray, tp);
    let coords = spec_tri_coords(t, pt);
    spec_with_face_normal(
        HitRecord {
            p: pt,
            normal: t.normal,
            material: t.material,
            t: tp as i128,
            surface_coords: SurfaceCoordinate {
                u: spec_surface_of(coords.0, coords.2),
                v: spec_surface_of(coords.1, coords.2),
            },
            front_face: true,
        },
        ray,
        t.normal,
    )
}

/// The triangle's hit model: prune by the own bounding box, solve for the
/// plane crossing, and accept it when it falls in the narrowed window with
/// plane coordinates strictly inside the triangle.
pub open spec fn spec_triangle_hit(t: Triangle, ray: Ray, t0: int, t1: int) -> Option<HitRecord> {
    if !spec_triangle_fits(t, ray) {
        None
    } else {
        let nw = spec_narrow(t.bounding_box, ray, t0, t1);
        if !(nw.0 < nw.1) {
            None
        } else {
            let denominator = spec_dot_raw(t.normal, ray.direction);
            if -PARALLEL_EPS < denominator < PARALLEL_EPS {
                None
            } else {
                let tp = spec_fdiv((t.d - spec_dot_raw(t.normal, ray.origin)) * SCALE, denominator);
                if !(nw.0 <= tp < nw.1) {
                    None
                } else {
                    let pt = crate::ray::spec_ray_at(ray, tp);
                    let coords = spec_tri_coords(t, pt);
                    if coords.0 > 0 && coords.1 > 0 && coords.0 + coords.1 < coords.2 {
                        Some(spec_triangle_rec(t, ray, tp))
                    } else {
                        None
                    }
                }
            }
        }
    }
}

impl Triangle {
    /// A triangle from a corner, two edge vectors and a material handle.
    pub fn new(q: Point3, u: Vector3, v: Vector3, material: u32) -> (r: Triangle)
        requires
            within(q, EDGE_LIMIT as int),
            within(u, EDGE_LIMIT as int),
            within(v, EDGE_LIMIT as int),
        ensures
            r.q == q && r.u == u && r.v == v && r.material == material,
            r.normal == spec_cross_raw(u, v),
            r.d == spec_dot_raw(r.normal, q),
            aabb_wf(r.bounding_box),
            spec_triangle_fits_shape(r),
    {
        let bounding_box = create_aabb_para(q, u, v);
        let normal = cross_raw(&u, &v);
        proof {
            crate::parallelogram::lemma_planar_bounds(q, u, v, normal);
        }
        let d: i128 = dot_raw(&normal, &q);
        Triangle { q, u, v, normal, d, material, bounding_box }
    }

    /// A triangle from its three vertex locations: the first vertex is the
    /// corner, and the edges run from the corner toward the other two.
    pub fn from_vertex_locations(v1: Point3, v2: Point3, v3: Point3, material: u32) -> (r: Triangle)
        requires
            within(v1, (EDGE_LIMIT / 2) as int),
            within(v2, (EDGE_LIMIT / 2) as int),
            within(v3, (EDGE_LIMIT / 2) as int),
        ensures
            r.q == v1,
            r.u == spec_sub(v1, v2),
            r.v == spec_sub(v1, v3),
            r.material == material,
            r.normal == spec_cross_raw(r.u, r.v),
            r.d == spec_dot_raw(r.normal, r.q),
            aabb_wf(r.bounding_box),
            spec_triangle_fits_shape(r),
    {
        let u = v1.sub(&v2);
        let v = v1.sub(&v3);
        Triangle::new(v1, u, v, material)
    }

    /// A triangle from its three vertex locations and a caller-supplied
    /// (non-unit) normal.
    pub fn from_vertex_locations_with_normal(
        v1: Point3,
        v2: Point3,
        v3: Point3,
        non_unit_normal: Vector3,
        material: u32,
    ) -> (r: Triangle)
        requires
            within(v1, (EDGE_LIMIT / 2) as int),
            within(v2, (EDGE_LIMIT / 2) as int),
            within(v3, (EDGE_LIMIT / 2) as int),
            within(non_unit_normal, NORMAL_LIMIT as int),
        ensures
            r.q == v1,
            r.u == spec_sub(v1, v2),
            r.v == spec_sub(v1, v3),
            r.material == material,
            r.normal == non_unit_normal,
            r.d == spec_dot_raw(non_unit_normal, v1),
            aabb_wf(r.bounding_box),
            spec_triangle_fits_shape(r),
    {
        let u = v1.sub(&v2);
        let v = v1.sub(&v3);
        let bounding_box = create_aabb_para(v1, u, v);
        proof {
            lemma_given_normal_bounds(non_unit_normal, v1);
        }
        let d: i128 = dot_raw(&non_unit_normal, &v1);
        Triangle { q: v1, u, v, normal: non_unit_normal, d, material, bounding_box }
    }

    /// Ray-triangle intersection, in three steps: find the plane that
    /// contains the triangle, solve for the ray's crossing of that plane,
    /// and decide from exact plane coordinates whether the crossing lies
    /// inside the triangle.
    pub fn hit(&self, ray: &Ray, ray_t: &RayInterval) -> (res: Option<HitRecord>)
        ensures
            res == spec_triangle_hit(*self, *ray, ray_t.start as int, ray_t.end as int),
    {
        if !self.fits(ray) {
            return None;
        }
        let mut reduced = *ray_t;
        if !self.bounding_box.hit(ray, &mut reduced) {
            return None;
        }
        proof {
            lemma_tri_hit_bounds(*self, *ray);
        }
        let denominator: i128 = dot_raw(&self.normal, &ray.direction);
        if -PARALLEL_EPS < denominator && denominator < PARALLEL_EPS {
            return None;
        }
        let tp: i128 = fdiv((self.d - dot_raw(&self.normal, &ray.origin)) * SCALE, denominator);
        if !(reduced.start <= tp && tp < reduced.end) {
            return None;
        }
        proof {
            if ray.direction.x == 0 && ray.direction.y == 0 && ray.direction.z == 0 {
                assert(spec_dot_raw(self.normal, ray.direction) == 0) by (nonlinear_arith)
                    requires
                        ray.direction.x == 0 && ray.direction.y == 0 && ray.direction.z == 0,
                ;
            }
            crate::aabb::lemma_narrow_t_bound(
                self.bounding_box,
                *ray,
                ray_t.start as int,
                ray_t.end as int,
                tp as int,
            );
        }
        let intersection = ray.at(tp);
        let (alpha, beta, nn) = self.plane_coords(&intersection);
        if !(alpha > 0 && beta > 0 && alpha + beta < nn) {
            return None;
        }
        let mut rec = HitRecord {
            p: intersection,
            normal: self.normal,
            material: self.material,
            t: tp,
            surface_coords: SurfaceCoordinate {
                u: surface_of(alpha, nn),
                v: surface_of(beta, nn),
            },
            front_face: true,
        };
        rec.set_face_normal(ray, self.normal);
        Some(rec)
    }

    /// The exact plane coordinates of a point, as two numerators over the
    /// common denominator `|normal|^2`.
    fn plane_coords(&self, pt: &Point3) -> (r: (i128, i128, i128))
        requires
            spec_triangle_fits_shape(*self),
            within(*pt, crate::num::COORD_SAT as int + 1),
        ensures
            (r.0 as int, r.1 as int, r.2 as int) == spec_tri_coords(*self, *pt),
            -0x0400_0000_0000_0000_0000_0000_0000_0000 < r.0 < 0x0400_0000_0000_0000_0000_0000_0000_0000,
            -0x0400_0000_0000_0000_0000_0000_0000_0000 < r.1 < 0x0400_0000_0000_0000_0000_0000_0000_0000,
            -0x0400_0000_0000_0000_0000_0000_0000_0000 < r.2 < 0x0400_0000_0000_0000_0000_0000_0000_0000,
    {
        let w = pt.sub(&self.q);
        let cross_wv = cross_raw(&w, &self.v);
        let cross_uw = cross_raw(&self.u, &w);
        proof {
            crate::parallelogram::lemma_cross_of_sat_bounded(w, self.v);
            crate::parallelogram::lemma_cross_of_sat_bounded(self.u, w);
            crate::parallelogram::lemma_plane_dot_bounds(self.normal, cross_wv);
            crate::parallelogram::lemma_plane_dot_bounds(self.normal, cross_uw);
            crate::parallelogram::lemma_plane_dot_bounds(self.normal, self.normal);
        }
        let alpha: i128 = dot_raw(&self.normal, &cross_wv);
        let beta: i128 = dot_raw(&self.normal, &cross_uw);
        let nn: i128 = dot_raw(&self.normal, &self.normal);
        (alpha, beta, nn)
    }

    /// The numeric-range check for this triangle and ray.
    fn fits(&self, ray: &Ray) -> (r: bool)
        ensures
            r == spec_triangle_fits(*self, *ray),
    {
        point_in_geom(&ray.origin) && point_in_geom(&ray.direction)
            && crate::parallelogram::point_in_edge(&self.q)
            && crate::parallelogram::point_in_edge(&self.u)
            && crate::parallelogram::point_in_edge(&self.v)
            && crate::parallelogram::point_in_normal(&self.normal) && -PLANE_D_LIMIT < self.d
            && self.d < PLANE_D_LIMIT && box_in_geom(&self.bounding_box)
    }
}

/// A caller-supplied normal and a vertex stay within the plane-constant
/// range.
proof fn lemma_given_normal_bounds(n: Point3, q: Point3)
    requires
        within(n, NORMAL_LIMIT as int),
        within(q, EDGE_LIMIT as int),
    ensures
        -PLANE_D_LIMIT < spec_dot_raw(n, q) < PLANE_D_LIMIT,
        within(n, crate::point3::POINT_LIMIT as int),
        within(q, crate::point3::POINT_LIMIT as int),
{
    crate::num::lemma_abs_mul(n.x as int, q.x as int, NORMAL_LIMIT as int, EDGE_LIMIT as int);
    crate::num::lemma_abs_mul(n.y as int, q.y as int, NORMAL_LIMIT as int, EDGE_LIMIT as int);
    crate::num::lemma_abs_mul(n.z as int, q.z as int, NORMAL_LIMIT as int, EDGE_LIMIT as int);
}

/// The numeric bounds the plane-crossing computation needs, from the range
/// range check.
pub proof fn lemma_tri_hit_bounds(t: Triangle, ray: Ray)
    requires
        spec_triangle_fits(t, ray),
    ensures
        -0x1000_0000_0000_0000_0000_0000_0000 < spec_dot_raw(t.normal, ray.direction)
            < 0x1000_0000_0000_0000_0000_0000_0000,
        -0x1000_0000_0000_0000_0000_0000_0000 < spec_dot_raw(t.normal, ray.origin)
            < 0x1000_0000_0000_0000_0000_0000_0000,
{
    crate::num::lemma_abs_mul(t.normal.x as int, ray.direction.x as int, NORMAL_LIMIT as int, crate::hittable::GEOM_LIMIT as int);
    crate::num::lemma_abs_mul(t.normal.y as int, ray.direction.y as int, NORMAL_LIMIT as int, crate::hittable::GEOM_LIMIT as int);
    crate::num::lemma_abs_mul(t.normal.z as int, ray.direction.z as int, NORMAL_LIMIT as int, crate::hittable::GEOM_LIMIT as int);
    crate::num::lemma_abs_mul(t.normal.x as int, ray.origin.x as int, NORMAL_LIMIT as int, crate::hittable::GEOM_LIMIT as int);
    crate::num::lemma_abs_mul(t.normal.y as int, ray.origin.y as int, NORMAL_LIMIT as int, crate::hittable::GEOM_LIMIT as int);
    crate::num::lemma_abs_mul(t.normal.z as int, ray.origin.z as int, NORMAL_LIMIT as int, crate::hittable::GEOM_LIMIT as int);
}

/// Any record the triangle model returns carries a saturated point and the
/// stored bounded normal.
pub proof fn lemma_triangle_rec_bounds(t: Triangle, ray: Ray, t0: int, t1: int)
    ensures
        spec_triangle_hit(t, ray, t0, t1) is Some ==> {
            let rec = spec_triangle_hit(t, ray, t0, t1)->Some_0;
            &&& within(rec.p, crate::num::COORD_SAT as int + 1)
            &&& within(rec.normal, 300_000_000_000_000_000)
        },
{
}

} // verus!
