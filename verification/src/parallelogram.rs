//! The parallelogram primitive: intersect the ray with the plane carrying
//! the shape, then decide membership from exact plane coordinates.

use vstd::prelude::*;

use crate::aabb::{aabb_wf, spec_join, spec_narrow, AABB};
use crate::hittable::{
    aabb_bounded, box_in_geom, point_in_geom, ray_bounded, spec_sub, spec_with_face_normal,
    HitRecord, SurfaceCoordinate, GEOM_LIMIT,
};
use crate::num::{fdiv, sat, spec_fdiv, spec_sat, SCALE};
use crate::point3::{dot_raw, spec_dot_raw, within, Point3, Vector3};
use crate::hittable::Hittable;
use crate::hittable_list::HittableList;
use crate::ray::{Ray, RayInterval};

verus! {

/// Magnitude bound on the corner and edge vectors of planar shapes.
pub const EDGE_LIMIT: i64 = 250_000_000;

/// Magnitude bound on the stored (unnormalized) plane normal.
pub const NORMAL_LIMIT: i64 = 200_000_000_000_000_000;

/// Magnitude bound on the stored plane constant.
pub const PLANE_D_LIMIT: i128 = 0x4000_0000_0000_0000_0000_0000;

/// Raw denominators smaller than this count as parallel to the plane (the
/// fixed-point image of the customary `1e-8` tolerance).
pub const PARALLEL_EPS: i128 = 10_000;

/// A parallelogram: a corner `q`, two edge vectors `u` and `v`, the raw
/// plane normal `cross(u, v)` with its plane constant `d`, a material
/// handle, and the precomputed bounding box.
#[derive(Clone, Copy, PartialEq, Eq, Structural, Debug)]
pub struct Parallelogram {
    /// Starting corner.
    pub q: Point3,
    /// Vector representing the first side.
    pub u: Vector3,
    /// Vector representing the second side.
    pub v: Vector3,
    /// The unnormalized normal `cross(u, v)`, without rescaling.
    pub normal: Vector3,
    /// The constant of the plane defined by the vectors, without rescaling.
    pub d: i128,
    /// Material of the parallelogram.
    pub material: u32,
    /// Bounding box of the parallelogram.
    pub bounding_box: AABB,
}

/// The cross product without rescaling (the result carries scale squared).
pub open spec fn spec_cross_raw(u: Point3, v: Point3) -> Point3 {
    Point3 {
        x: (u.y * v.z - u.z * v.y) as i64,
        y: (u.z * v.x - u.x * v.z) as i64,
        z: (u.x * v.y - u.y * v.x) as i64,
    }
}

/// The cross product without rescaling, for bounded inputs.
pub fn cross_raw(u: &Point3, v: &Point3) -> (r: Point3)
    requires
        within(*u, 11_000_000_000),
        within(*v, 11_000_000_000),
    ensures
        r == spec_cross_raw(*u, *v),
{
    proof {
        crate::num::lemma_abs_mul(u.x as int, v.x as int, 11_000_000_000, 11_000_000_000);
        crate::num::lemma_abs_mul(u.x as int, v.y as int, 11_000_000_000, 11_000_000_000);
        crate::num::lemma_abs_mul(u.x as int, v.z as int, 11_000_000_000, 11_000_000_000);
        crate::num::lemma_abs_mul(u.y as int, v.x as int, 11_000_000_000, 11_000_000_000);
        crate::num::lemma_abs_mul(u.y as int, v.y as int, 11_000_000_000, 11_000_000_000);
        crate::num::lemma_abs_mul(u.y as int, v.z as int, 11_000_000_000, 11_000_000_000);
        crate::num::lemma_abs_mul(u.z as int, v.x as int, 11_000_000_000, 11_000_000_000);
        crate::num::lemma_abs_mul(u.z as int, v.y as int, 11_000_000_000, 11_000_000_000);
        crate::num::lemma_abs_mul(u.z as int, v.z as int, 11_000_000_000, 11_000_000_000);
    }
    let x: i128 = (u.y as i128) * (v.z as i128) - (u.z as i128) * (v.y as i128);
    let y: i128 = (u.z as i128) * (v.x as i128) - (u.x as i128) * (v.z as i128);
    let z: i128 = (u.x as i128) * (v.y as i128) - (u.y as i128) * (v.x as i128);
    Point3 { x: x as i64, y: y as i64, z: z as i64 }
}

/// Whether the parallelogram and ray lie in the range the fixed-point
/// arithmetic supports; outside it no hit is reported.
pub open spec fn spec_parallelogram_fits(p: Parallelogram, ray: Ray) -> bool {
    &&& ray_bounded(ray)
    &&& spec_parallelogram_fits_shape(p)
}

/// The shape part of the parallelogram range check.
pub open spec fn spec_parallelogram_fits_shape(p: Parallelogram) -> bool {
    &&& within(p.q, EDGE_LIMIT as int)
    &&& within(p.u, EDGE_LIMIT as int)
    &&& within(p.v, EDGE_LIMIT as int)
    &&& within(p.normal, NORMAL_LIMIT as int)
    &&& -PLANE_D_LIMIT < p.d < PLANE_D_LIMIT
    &&& aabb_bounded(p.bounding_box)
}

/// The plane coordinates of the hit point `pt`: the numerators of the two
/// barycentric-style coordinates and their common denominator `|n|^2`.
pub open spec fn spec_plane_coords(p: Parallelogram, pt: Point3) -> (int, int, int) {
    let w = spec_sub(pt, p.q);
    let alpha = spec_dot_raw(p.normal, spec_cross_raw(w, p.v));
    let beta = spec_dot_raw(p.normal, spec_cross_raw(p.u, w));
    let nn = spec_dot_raw(p.normal, p.normal);
    (alpha, beta, nn)
}

/// A surface coordinate from a plane-coordinate numerator and denominator,
/// coarsened onto the fixed-point grid.
pub open spec fn spec_surface_of(num: int, nn: int) -> i64 {
    spec_sat(spec_fdiv(num, spec_fdiv(nn, SCALE as int) + 1)) as i64
}

/// The hit record of the parallelogram at parameter `t` with plane
/// coordinates `alpha / nn` and `beta / nn`.
pub open spec fn spec_parallelogram_rec(p: Parallelogram, ray: Ray, t: int) -> HitRecord {
    let pt = crate::ray::spec_ray_at(ray, t);
    let coords = spec_plane_coords(p, pt);
    spec_with_face_normal(
        HitRecord {
            p: pt,
            normal: p.normal,
            material: p.material,
            t: t as i128,
            surface_coords: SurfaceCoordinate {
                u: spec_surface_of(coords.0, coords.2),
                v: spec_surface_of(coords.1, coords.2),
            },
            front_face: true,
        },
        ray,
        p.normal,
    )
}

/// The parallelogram's hit model: prune by the own bounding box, solve for
/// the plane crossing, and accept it when it falls in the narrowed window
/// with plane coordinates inside the unit square.
pub open spec fn spec_parallelogram_hit(p: Parallelogram, ray: Ray, t0: int, t1: int) -> Option<
    HitRecord,
> {
    if !spec_parallelogram_fits(p, ray) {
        None
    } else {
        let nw = spec_narrow(p.bounding_box, ray, t0, t1);
        if !(nw.0 < nw.1) {
            None
        } else {
            let denominator = spec_dot_raw(p.normal, ray.direction);
            if -PARALLEL_EPS < denominator < PARALLEL_EPS {
                None
            } else {
                let t = spec_fdiv((p.d - spec_dot_raw(p.normal, ray.origin)) * SCALE, denominator);
                if !(nw.0 <= t < nw.1) {
                    None
                } else {
                    let pt = crate::ray::spec_ray_at(ray, t);
                    let coords = spec_plane_coords(p, pt);
                    if 0 <= coords.0 < coords.2 && 0 <= coords.1 < coords.2 {
                        Some(spec_parallelogram_rec(p, ray, t))
                    } else {
                        None
                    }
                }
            }
        }
    }
}

/// Create the bounding box of a parallelogram from the boxes of its two
/// diagonals.
#[verifier::rlimit(100)]
pub fn create_aabb_para(q: Point3, u: Point3, v: Point3) -> (r: AABB)
    requires
        within(q, EDGE_LIMIT as int),
        within(u, EDGE_LIMIT as int),
        within(v, EDGE_LIMIT as int),
    ensures
        r == spec_join(
            crate::aabb::spec_aabb_from_points(
                q,
                Point3 {
                    x: (q.x + u.x + v.x) as i64,
                    y: (q.y + u.y + v.y) as i64,
                    z: (q.z + u.z + v.z) as i64,
                },
            ),
            crate::aabb::spec_aabb_from_points(
                Point3 { x: (q.x + u.x) as i64, y: (q.y + u.y) as i64, z: (q.z + u.z) as i64 },
                Point3 { x: (q.x + v.x) as i64, y: (q.y + v.y) as i64, z: (q.z + v.z) as i64 },
            ),
        ),
        aabb_wf(r),
        aabb_bounded(r),
{
    let far = q.add(&u.add(&v));
    let bounding_box0 = crate::aabb::aabb_from_points(q, far);
    let bounding_box1 = crate::aabb::aabb_from_points(q.add(&u), q.add(&v));
    crate::aabb::join_aabbs(&bounding_box0, &bounding_box1)
}

impl Parallelogram {
    /// A parallelogram from a corner, two edge vectors and a material
    /// handle.
    pub fn new(q: Point3, u: Vector3, v: Vector3, material: u32) -> (r: Parallelogram)
        requires
            within(q, EDGE_LIMIT as int),
            within(u, EDGE_LIMIT as int),
            within(v, EDGE_LIMIT as int),
        ensures
            r.q == q && r.u == u && r.v == v && r.material == material,
            r.normal == spec_cross_raw(u, v),
            r.d == spec_dot_raw(r.normal, q),
            r.bounding_box == spec_join(
                crate::aabb::spec_aabb_from_points(
                    q,
                    Point3 {
                        x: (q.x + u.x + v.x) as i64,
                        y: (q.y + u.y + v.y) as i64,
                        z: (q.z + u.z + v.z) as i64,
                    },
                ),
                crate::aabb::spec_aabb_from_points(
                    Point3 { x: (q.x + u.x) as i64, y: (q.y + u.y) as i64, z: (q.z + u.z) as i64 },
                    Point3 { x: (q.x + v.x) as i64, y: (q.y + v.y) as i64, z: (q.z + v.z) as i64 },
                ),
            ),
            aabb_wf(r.bounding_box),
            spec_parallelogram_fits_shape(r),
    {
        let bounding_box = create_aabb_para(q, u, v);
        let normal = cross_raw(&u, &v);
        proof {
            lemma_planar_bounds(q, u, v, normal);
        }
        let d: i128 = dot_raw(&normal, &q);
        Parallelogram { q, u, v, normal, d, material, bounding_box }
    }

    /// Ray-parallelogram intersection, in three steps: find the plane that
    /// contains the shape, solve for the ray's crossing of that plane, and
    /// decide from exact plane coordinates whether the crossing lies inside
    /// the shape.
    pub fn hit(&self, ray: &Ray, ray_t: &RayInterval) -> (res: Option<HitRecord>)
        ensures
            res == spec_parallelogram_hit(*self, *ray, ray_t.start as int, ray_t.end as int),
    {
        if !self.fits(ray) {
            return None;
        }
        let mut reduced = *ray_t;
        if !self.bounding_box.hit(ray, &mut reduced) {
            return None;
        }
        proof {
            lemma_plane_hit_bounds(*self, *ray);
        }
        let denominator: i128 = dot_raw(&self.normal, &ray.direction);
        if -PARALLEL_EPS < denominator && denominator < PARALLEL_EPS {
            return None;
        }
        let t: i128 = fdiv((self.d - dot_raw(&self.normal, &ray.origin)) * SCALE, denominator);
        if !(reduced.start <= t && t < reduced.end) {
            return None;
        }
        proof {
            if ray.direction.x == 0 && ray.direction.y == 0 && ray.direction.z == 0 {
                assert(spec_dot_raw(self.normal, ray.direction) == 0) by (nonlinear_arith)
                    requires
                        ray.direction.x == 0 && ray.direction.y == 0 && ray.direction.z == 0,
                ;
            }
            crate::aabb::lemma_narrow_t_bound(
                self.bounding_box,
                *ray,
                ray_t.start as int,
                ray_t.end as int,
                t as int,
            );
        }
        let intersection = ray.at(t);
        let (alpha, beta, nn) = self.plane_coords(&intersection);
        if !(0 <= alpha && alpha < nn && 0 <= beta && beta < nn) {
            return None;
        }
        let mut rec = HitRecord {
            p: intersection,
            normal: self.normal,
            material: self.material,
            t,
            surface_coords: SurfaceCoordinate {
                u: surface_of(alpha, nn),
                v: surface_of(beta, nn),
            },
            front_face: true,
        };
        rec.set_face_normal(ray, self.normal);
        Some(rec)
    }

    /// The exact plane coordinates of a point, as two numerators over the
    /// common denominator `|normal|^2`.
    fn plane_coords(&self, pt: &Point3) -> (r: (i128, i128, i128))
        requires
            spec_parallelogram_fits_shape(*self),
            within(*pt, crate::num::COORD_SAT as int + 1),
        ensures
            (r.0 as int, r.1 as int, r.2 as int) == spec_plane_coords(*self, *pt),
            -0x0400_0000_0000_0000_0000_0000_0000_0000 < r.0 < 0x0400_0000_0000_0000_0000_0000_0000_0000,
            -0x0400_0000_0000_0000_0000_0000_0000_0000 < r.1 < 0x0400_0000_0000_0000_0000_0000_0000_0000,
            -0x0400_0000_0000_0000_0000_0000_0000_0000 < r.2 < 0x0400_0000_0000_0000_0000_0000_0000_0000,
    {
        let w = pt.sub(&self.q);
        let cross_wv = cross_raw(&w, &self.v);
        let cross_uw = cross_raw(&self.u, &w);
        proof {
            lemma_cross_of_sat_bounded(w, self.v);
            lemma_cross_of_sat_bounded(self.u, w);
            lemma_plane_dot_bounds(self.normal, cross_wv);
            lemma_plane_dot_bounds(self.normal, cross_uw);
            lemma_plane_dot_bounds(self.normal, self.normal);
        }
        let alpha: i128 = dot_raw(&self.normal, &cross_wv);
        let beta: i128 = dot_raw(&self.normal, &cross_uw);
        let nn: i128 = dot_raw(&self.normal, &self.normal);
        (alpha, beta, nn)
    }

    /// The numeric-range check for this parallelogram and ray.
    fn fits(&self, ray: &Ray) -> (r: bool)
        ensures
            r == spec_parallelogram_fits(*self, *ray),
    {
        point_in_geom(&ray.origin) && point_in_geom(&ray.direction) && point_in_edge(&self.q)
            && point_in_edge(&self.u) && point_in_edge(&self.v) && point_in_normal(&self.normal)
            && -PLANE_D_LIMIT < self.d && self.d < PLANE_D_LIMIT && box_in_geom(&self.bounding_box)
    }
}

/// A surface coordinate from a plane-coordinate numerator and denominator,
/// coarsened onto the fixed-point grid.
pub fn surface_of(num: i128, nn: i128) -> (r: i64)
    requires
        -0x1000_0000_0000_0000_0000_0000_0000_0000 < num < 0x1000_0000_0000_0000_0000_0000_0000_0000,
        0 <= nn < 0x1000_0000_0000_0000_0000_0000_0000_0000,
    ensures
        r == spec_surface_of(num as int, nn as int),
{
    proof {
        crate::num::lemma_fdiv_within(nn as int, SCALE as int);
    }
    sat(fdiv(num, fdiv(nn, SCALE) + 1))
}

/// Whether all components lie within the edge-vector range.
pub fn point_in_edge(p: &Point3) -> (r: bool)
    ensures
        r == within(*p, EDGE_LIMIT as int),
{
    -EDGE_LIMIT < p.x && p.x < EDGE_LIMIT && -EDGE_LIMIT < p.y && p.y < EDGE_LIMIT && -EDGE_LIMIT
        < p.z && p.z < EDGE_LIMIT
}

/// Whether all components lie within the stored-normal range.
pub fn point_in_normal(p: &Point3) -> (r: bool)
    ensures
        r == within(*p, NORMAL_LIMIT as int),
{
    -NORMAL_LIMIT < p.x && p.x < NORMAL_LIMIT && -NORMAL_LIMIT < p.y && p.y < NORMAL_LIMIT
        && -NORMAL_LIMIT < p.z && p.z < NORMAL_LIMIT
}

/// The cross of two edge vectors and the plane constant stay within the
/// stored-field ranges.
pub proof fn lemma_planar_bounds(q: Point3, u: Point3, v: Point3, normal: Point3)
    requires
        within(q, EDGE_LIMIT as int),
        within(u, EDGE_LIMIT as int),
        within(v, EDGE_LIMIT as int),
        normal == spec_cross_raw(u, v),
    ensures
        within(normal, NORMAL_LIMIT as int),
        -PLANE_D_LIMIT < spec_dot_raw(normal, q) < PLANE_D_LIMIT,
        within(normal, crate::point3::POINT_LIMIT as int),
        within(q, crate::point3::POINT_LIMIT as int),
{
    lemma_cross_small_bounded(u, v);
    crate::num::lemma_abs_mul(normal.x as int, q.x as int, 130_000_000_000_000_000, EDGE_LIMIT as int);
    crate::num::lemma_abs_mul(normal.y as int, q.y as int, 130_000_000_000_000_000, EDGE_LIMIT as int);
    crate::num::lemma_abs_mul(normal.z as int, q.z as int, 130_000_000_000_000_000, EDGE_LIMIT as int);
}

/// The raw cross product of two edge vectors is bounded well inside the
/// stored-normal range.
proof fn lemma_cross_small_bounded(u: Point3, v: Point3)
    requires
        within(u, EDGE_LIMIT as int),
        within(v, EDGE_LIMIT as int),
    ensures
        within(spec_cross_raw(u, v), 130_000_000_000_000_000),
{
    crate::num::lemma_abs_mul(u.x as int, v.x as int, EDGE_LIMIT as int, EDGE_LIMIT as int);
    crate::num::lemma_abs_mul(u.x as int, v.y as int, EDGE_LIMIT as int, EDGE_LIMIT as int);
    crate::num::lemma_abs_mul(u.x as int, v.z as int, EDGE_LIMIT as int, EDGE_LIMIT as int);
    crate::num::lemma_abs_mul(u.y as int, v.x as int, EDGE_LIMIT as int, EDGE_LIMIT as int);
    crate::num::lemma_abs_mul(u.y as int, v.y as int, EDGE_LIMIT as int, EDGE_LIMIT as int);
    crate::num::lemma_abs_mul(u.y as int, v.z as int, EDGE_LIMIT as int, EDGE_LIMIT as int);
    crate::num::lemma_abs_mul(u.z as int, v.x as int, EDGE_LIMIT as int, EDGE_LIMIT as int);
    crate::num::lemma_abs_mul(u.z as int, v.y as int, EDGE_LIMIT as int, EDGE_LIMIT as int);
    crate::num::lemma_abs_mul(u.z as int, v.z as int, EDGE_LIMIT as int, EDGE_LIMIT as int);
}

/// The raw cross product of a saturated point difference and an edge vector
/// (in either order) stays within the range that the plane dot products
/// need.
pub proof fn lemma_cross_of_sat_bounded(w: Point3, v: Point3)
    requires
        within(w, 2_250_000_001),
        within(v, 2_250_000_001),
        within(w, EDGE_LIMIT as int) || within(v, EDGE_LIMIT as int),
    ensures
        within(spec_cross_raw(w, v), 1_130_000_000_000_000_000),
        within(spec_cross_raw(w, v), crate::point3::POINT_LIMIT as int),
{
    if within(w, EDGE_LIMIT as int) {
        crate::num::lemma_abs_mul(w.x as int, v.x as int, EDGE_LIMIT as int, 2_250_000_001);
        crate::num::lemma_abs_mul(w.x as int, v.y as int, EDGE_LIMIT as int, 2_250_000_001);
        crate::num::lemma_abs_mul(w.x as int, v.z as int, EDGE_LIMIT as int, 2_250_000_001);
        crate::num::lemma_abs_mul(w.y as int, v.x as int, EDGE_LIMIT as int, 2_250_000_001);
        crate::num::lemma_abs_mul(w.y as int, v.y as int, EDGE_LIMIT as int, 2_250_000_001);
        crate::num::lemma_abs_mul(w.y as int, v.z as int, EDGE_LIMIT as int, 2_250_000_001);
        crate::num::lemma_abs_mul(w.z as int, v.x as int, EDGE_LIMIT as int, 2_250_000_001);
        crate::num::lemma_abs_mul(w.z as int, v.y as int, EDGE_LIMIT as int, 2_250_000_001);
        crate::num::lemma_abs_mul(w.z as int, v.z as int, EDGE_LIMIT as int, 2_250_000_001);
    } else {
        crate::num::lemma_abs_mul(w.x as int, v.x as int, 2_250_000_001, EDGE_LIMIT as int);
        crate::num::lemma_abs_mul(w.x as int, v.y as int, 2_250_000_001, EDGE_LIMIT as int);
        crate::num::lemma_abs_mul(w.x as int, v.z as int, 2_250_000_001, EDGE_LIMIT as int);
        crate::num::lemma_abs_mul(w.y as int, v.x as int, 2_250_000_001, EDGE_LIMIT as int);
        crate::num::lemma_abs_mul(w.y as int, v.y as int, 2_250_000_001, EDGE_LIMIT as int);
        crate::num::lemma_abs_mul(w.y as int, v.z as int, 2_250_000_001, EDGE_LIMIT as int);
        crate::num::lemma_abs_mul(w.z as int, v.x as int, 2_250_000_001, EDGE_LIMIT as int);
        crate::num::lemma_abs_mul(w.z as int, v.y as int, 2_250_000_001, EDGE_LIMIT as int);
        crate::num::lemma_abs_mul(w.z as int, v.z as int, 2_250_000_001, EDGE_LIMIT as int);
    }
}

/// Dot products of a stored normal with a bounded vector stay well inside
/// 128 bits.
pub proof fn lemma_plane_dot_bounds(n: Point3, w: Point3)
    requires
        within(n, NORMAL_LIMIT as int),
        within(w, 1_130_000_000_000_000_000),
    ensures
        -0x1000_0000_0000_0000_0000_0000_0000_0000 < spec_dot_raw(n, w)
            < 0x1000_0000_0000_0000_0000_0000_0000_0000,
{
    crate::num::lemma_abs_mul(n.x as int, w.x as int, NORMAL_LIMIT as int, 1_130_000_000_000_000_000);
    crate::num::lemma_abs_mul(n.y as int, w.y as int, NORMAL_LIMIT as int, 1_130_000_000_000_000_000);
    crate::num::lemma_abs_mul(n.z as int, w.z as int, NORMAL_LIMIT as int, 1_130_000_000_000_000_000);
}

/// The numeric bounds the plane-crossing computation needs, from the range
/// range check.
pub proof fn lemma_plane_hit_bounds(p: Parallelogram, ray: Ray)
    requires
        spec_parallelogram_fits(p, ray),
    ensures
        -0x1000_0000_0000_0000_0000_0000_0000 < spec_dot_raw(p.normal, ray.direction)
            < 0x1000_0000_0000_0000_0000_0000_0000,
        -0x1000_0000_0000_0000_0000_0000_0000 < spec_dot_raw(p.normal, ray.origin)
            < 0x1000_0000_0000_0000_0000_0000_0000,
{
    crate::num::lemma_abs_mul(p.normal.x as int, ray.direction.x as int, NORMAL_LIMIT as int, GEOM_LIMIT as int);
    crate::num::lemma_abs_mul(p.normal.y as int, ray.direction.y as int, NORMAL_LIMIT as int, GEOM_LIMIT as int);
    crate::num::lemma_abs_mul(p.normal.z as int, ray.direction.z as int, NORMAL_LIMIT as int, GEOM_LIMIT as int);
    crate::num::lemma_abs_mul(p.normal.x as int, ray.origin.x as int, NORMAL_LIMIT as int, GEOM_LIMIT as int);
    crate::num::lemma_abs_mul(p.normal.y as int, ray.origin.y as int, NORMAL_LIMIT as int, GEOM_LIMIT as int);
    crate::num::lemma_abs_mul(p.normal.z as int, ray.origin.z as int, NORMAL_LIMIT as int, GEOM_LIMIT as int);
}

/// Any record the parallelogram model returns carries a saturated point and
/// the stored bounded normal.
pub proof fn lemma_parallelogram_rec_bounds(p: Parallelogram, ray: Ray, t0: int, t1: int)
    ensures
        spec_parallelogram_hit(p, ray, t0, t1) is Some ==> {
            let rec = spec_parallelogram_hit(p, ray, t0, t1)->Some_0;
            &&& within(rec.p, crate::num::COORD_SAT as int + 1)
            &&& within(rec.normal, 300_000_000_000_000_000)
        },
{
}

/// Create a box of six parallelogram sides spanning the two opposite
/// corner points.
pub fn create_box(a: Point3, b: Point3, material: u32) -> (r: HittableList)
    requires
        within(a, (EDGE_LIMIT / 2) as int),
        within(b, (EDGE_LIMIT / 2) as int),
    ensures
        r.objects@.len() == 6,
        crate::aabb::aabb_wf(r.bounding_box),
        crate::bvh::all_boxes_wf(r.objects@),
        forall|i: int| 0 <= i < 6 ==> (#[trigger] r.objects@[i]) is Parallelogram,
{
    let mut sides = HittableList::new();
    let vertex_min = Point3 {
        x: if a.x < b.x { a.x } else { b.x },
        y: if a.y < b.y { a.y } else { b.y },
        z: if a.z < b.z { a.z } else { b.z },
    };
    let vertex_max = Point3 {
        x: if a.x < b.x { b.x } else { a.x },
        y: if a.y < b.y { b.y } else { a.y },
        z: if a.z < b.z { b.z } else { a.z },
    };
    let dx = Point3 { x: vertex_max.x - vertex_min.x, y: 0, z: 0 };
    let dy = Point3 { x: 0, y: vertex_max.y - vertex_min.y, z: 0 };
    let dz = Point3 { x: 0, y: 0, z: vertex_max.z - vertex_min.z };
    let ndx = Point3 { x: -dx.x, y: 0, z: 0 };
    let ndz = Point3 { x: 0, y: 0, z: -dz.z };
    sides.add(box_side(Point3 { x: vertex_min.x, y: vertex_min.y, z: vertex_max.z }, dx, dy, material));
    sides.add(box_side(Point3 { x: vertex_max.x, y: vertex_min.y, z: vertex_max.z }, ndz, dy, material));
    sides.add(box_side(Point3 { x: vertex_max.x, y: vertex_min.y, z: vertex_min.z }, ndx, dy, material));
    sides.add(box_side(Point3 { x: vertex_min.x, y: vertex_min.y, z: vertex_min.z }, dz, dy, material));
    sides.add(box_side(Point3 { x: vertex_min.x, y: vertex_max.y, z: vertex_max.z }, dx, ndz, material));
    sides.add(box_side(Point3 { x: vertex_min.x, y: vertex_min.y, z: vertex_min.z }, dx, dz, material));
    sides
}

/// One side of a box: a parallelogram wrapped as a scene object, with its
/// box well formed and in range.
fn box_side(q: Point3, u: Vector3, v: Vector3, material: u32) -> (h: Hittable)
    requires
        within(q, EDGE_LIMIT as int),
        within(u, EDGE_LIMIT as int),
        within(v, EDGE_LIMIT as int),
    ensures
        h is Parallelogram,
        crate::aabb::aabb_wf(crate::hittable::spec_bounding_box(h)),
        crate::hittable::aabb_bounded(crate::hittable::spec_bounding_box(h)),
{
    Hittable::Parallelogram(Parallelogram::new(q, u, v, material))
}

} // verus!
