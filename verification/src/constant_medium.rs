//! A participating medium of constant density inside a boundary object: a
//! ray scatters after an exponentially distributed free path through the
//! interior.  The free-path sample rides on the ray (`Ray::free_path`), so
//! the result is a deterministic function of the ray the integrator built.

use vstd::prelude::*;

use crate::aabb::{imax, imin};
use crate::num::{max_i128, min_i128};
use crate::hittable::{ray_bounded, spec_hit, HitRecord, Hittable, SurfaceCoordinate, GEOM_LIMIT};
use crate::num::{fdiv, isqrt, spec_fdiv, SCALE};
use crate::point3::{dot_raw, isqrt_spec, lemma_isqrt_unique, spec_dot_raw, Point3};
use crate::ray::{Ray, RayInterval};

verus! {

/// The unbounded window within which the boundary is probed for its entry
/// and exit crossings, standing in for an infinite interval.
pub const T_FULL: i128 = 1_000_000_000_000_000_000_000_000_000_000;

/// Interval endpoints are clamped to this magnitude before the interior
/// length is computed; far beyond any parameter a representable boundary
/// can produce.
pub const T_MEDIUM_CAP: i128 = 1_000_000_000_000_000;

/// Magnitude bound on the stored inverse density.
pub const INV_DENSITY_LIMIT: i64 = 1_000_000_000_000;

/// A constant-density participating medium bounded by another object.  The
/// phase function is the material handle consulted on a scatter event.
pub struct ConstantMedium {
    pub boundary: Box<Hittable>,
    pub inv_density: i64,
    pub phase_function: u32,
}

/// The range check for the medium: a bounded ray with a nonnegative free-path
/// sample, and a positive bounded inverse density.
pub open spec fn spec_medium_fits(m: ConstantMedium, ray: Ray) -> bool {
    &&& ray_bounded(ray)
    &&& 0 < m.inv_density < INV_DENSITY_LIMIT
    &&& 0 <= ray.free_path < GEOM_LIMIT
}

/// The medium's hit model: find where the ray enters and leaves the
/// boundary, convert the ray's free-path sample into a scatter distance,
/// and report a hit where that distance fits inside the boundary span and
/// the resulting parameter lies in the requested window.
pub open spec fn spec_medium_hit(m: ConstantMedium, ray: Ray, t0: int, t1: int) -> Option<
    HitRecord,
>
    decreases m,
{
    if !spec_medium_fits(m, ray) {
        None
    } else {
        let nw = crate::aabb::spec_narrow(
            crate::hittable::spec_bounding_box(*m.boundary),
            ray,
            t0,
            t1,
        );
        if !(nw.0 < nw.1) {
            None
        } else {
        match spec_hit(*m.boundary, ray, -T_FULL as int, T_FULL as int) {
            None => None,
            Some(rec1) => {
                if rec1.t > T_MEDIUM_CAP {
                    None
                } else {
                    match spec_hit(*m.boundary, ray, rec1.t + 1, T_FULL as int) {
                        None => None,
                        Some(rec2) => {
                            let enter = imin(
                                imax(rec1.t as int, imax(t0, 0)),
                                T_MEDIUM_CAP as int,
                            );
                            let leave = imax(
                                imin(rec2.t as int, imin(t1, T_MEDIUM_CAP as int)),
                                -T_MEDIUM_CAP as int,
                            );
                            let len = isqrt_spec(spec_dot_raw(ray.direction, ray.direction));
                            if len == 0 {
                                None
                            } else {
                                let inside = spec_fdiv((leave - enter) * len, SCALE as int);
                                let scatter = spec_fdiv(
                                    ray.free_path * m.inv_density,
                                    SCALE as int,
                                );
                                if scatter > inside {
                                    None
                                } else {
                                    let t = enter + spec_fdiv(scatter * SCALE, len);
                                    if !(nw.0 <= t < nw.1) {
                                        None
                                    } else {
                                        Some(
                                            HitRecord {
                                                p: crate::ray::spec_ray_at(ray, t),
                                                normal: Point3 { x: SCALE as i64, y: 0, z: 0 },
                                                material: m.phase_function,
                                                t: t as i128,
                                                surface_coords: SurfaceCoordinate { u: 0, v: 0 },
                                                front_face: true,
                                            },
                                        )
                                    }
                                }
                            }
                        },
                    }
                }
            },
        }
        }
    }
}

impl ConstantMedium {
    /// A medium inside the given boundary with the given fixed-point
    /// density and phase-function material handle.  The stored value is the
    /// inverse density.
    pub fn new(boundary: Hittable, density: i64, phase_function: u32) -> (r: ConstantMedium)
        requires
            0 < density < 1_000_000_000,
        ensures
            r.boundary == boundary,
            r.inv_density == spec_fdiv(SCALE as int * SCALE as int, density as int),
            r.phase_function == phase_function,
    {
        proof {
            crate::num::lemma_fdiv_within(SCALE as int * SCALE as int, density as int);
        }
        let inv_density: i64 = fdiv(SCALE * SCALE, density as i128) as i64;
        ConstantMedium { boundary: Box::new(boundary), inv_density, phase_function }
    }

    /// Creation from a plain color for an isotropic phase function; the
    /// color lives in the material table behind the handle.
    pub fn from_color(boundary: Hittable, density: i64, phase_function: u32) -> (r: ConstantMedium)
        requires
            0 < density < 1_000_000_000,
        ensures
            r.boundary == boundary,
            r.inv_density == spec_fdiv(SCALE as int * SCALE as int, density as int),
            r.phase_function == phase_function,
    {
        ConstantMedium::new(boundary, density, phase_function)
    }

    /// Ray-medium intersection, as the model states it.
    pub fn hit(&self, ray: &Ray, ray_t: &RayInterval) -> (res: Option<HitRecord>)
        ensures
            res == spec_medium_hit(*self, *ray, ray_t.start as int, ray_t.end as int),
        decreases *self,
    {
        if !(crate::hittable::point_in_geom(&ray.origin) && crate::hittable::point_in_geom(
            &ray.direction,
        ) && 0 < self.inv_density && self.inv_density < INV_DENSITY_LIMIT && 0 <= ray.free_path
            && ray.free_path < GEOM_LIMIT) {
            return None;
        }
        let mut reduced = *ray_t;
        let boundary_box = self.boundary.bounding_box();
        if !boundary_box.hit(ray, &mut reduced) {
            return None;
        }
        let full = RayInterval { start: -T_FULL, end: T_FULL };
        let rec1 = match self.boundary.hit(ray, &full) {
            None => {
                return None;
            },
            Some(rec1) => rec1,
        };
        if rec1.t > T_MEDIUM_CAP {
            return None;
        }
        let past = RayInterval { start: rec1.t + 1, end: T_FULL };
        let rec2 = match self.boundary.hit(ray, &past) {
            None => {
                return None;
            },
            Some(rec2) => rec2,
        };
        let enter: i128 = min_i128(max_i128(rec1.t, max_i128(ray_t.start, 0)), T_MEDIUM_CAP);
        let leave: i128 = max_i128(
            min_i128(rec2.t, min_i128(ray_t.end, T_MEDIUM_CAP)),
            -T_MEDIUM_CAP,
        );
        proof {
            crate::point3::lemma_dot_raw_self_nonneg(ray.direction);
            crate::num::lemma_abs_mul(
                ray.direction.x as int,
                ray.direction.x as int,
                GEOM_LIMIT as int,
                GEOM_LIMIT as int,
            );
            crate::num::lemma_abs_mul(
                ray.direction.y as int,
                ray.direction.y as int,
                GEOM_LIMIT as int,
                GEOM_LIMIT as int,
            );
            crate::num::lemma_abs_mul(
                ray.direction.z as int,
                ray.direction.z as int,
                GEOM_LIMIT as int,
                GEOM_LIMIT as int,
            );
        }
        let len: i128 = isqrt(dot_raw(&ray.direction, &ray.direction) as u128) as i128;
        proof {
            lemma_isqrt_unique(spec_dot_raw(ray.direction, ray.direction), len as int);
            assert(len < 2_000_000_000) by (nonlinear_arith)
                requires
                    0 <= len,
                    len * len <= 3_000_000_000_000_000_000,
            ;
        }
        if len == 0 {
            return None;
        }
        proof {
            crate::num::lemma_abs_mul(
                (leave - enter) as int,
                len as int,
                4_000_000_000_000_000,
                4_000_000_000,
            );
            crate::num::lemma_abs_mul(
                ray.free_path as int,
                self.inv_density as int,
                GEOM_LIMIT as int,
                INV_DENSITY_LIMIT as int,
            );
            assert(ray.free_path * self.inv_density >= 0) by (nonlinear_arith)
                requires
                    ray.free_path >= 0 && self.inv_density > 0,
            ;
        }
        let inside: i128 = fdiv((leave - enter) * len, SCALE);
        proof {
            crate::num::lemma_fdiv_bounds(
                ray.free_path as int * self.inv_density as int,
                SCALE as int,
            );
        }
        let scatter: i128 = fdiv((ray.free_path as i128) * (self.inv_density as i128), SCALE);
        if scatter > inside {
            return None;
        }
        proof {
            crate::num::lemma_fdiv_within(scatter as int * SCALE as int, len as int);
        }
        let t: i128 = enter + fdiv(scatter * SCALE, len);
        if !(reduced.start <= t && t < reduced.end) {
            return None;
        }
        proof {
            lemma_scatter_t_in_range(enter as int, scatter as int, len as int);
        }
        Some(
            HitRecord {
                p: ray.at(t),
                normal: Point3 { x: SCALE as i64, y: 0, z: 0 },
                material: self.phase_function,
                t,
                surface_coords: SurfaceCoordinate { u: 0, v: 0 },
                front_face: true,
            },
        )
    }
}

/// The scatter parameter assembled from clamped interval endpoints stays
/// within the range the ray evaluator accepts.
proof fn lemma_scatter_t_in_range(enter: int, scatter: int, len: int)
    requires
        -T_MEDIUM_CAP <= enter <= T_MEDIUM_CAP,
        0 <= scatter < 1_000_000_000_000_000_000,
        1 <= len,
    ensures
        -crate::ray::T_LIMIT < enter + spec_fdiv(scatter * SCALE, len) < crate::ray::T_LIMIT,
{
    crate::num::lemma_fdiv_within(scatter * SCALE, len);
    assert(0 <= scatter * SCALE <= 100_000_000_000_000_000_000_000) by (nonlinear_arith)
        requires 0 <= scatter < 1_000_000_000_000_000_000 && SCALE == 10_000;
}

/// Any record the medium model returns carries a saturated point and the
/// fixed unit normal.
pub proof fn lemma_medium_rec_bounds(m: ConstantMedium, ray: Ray, t0: int, t1: int)
    ensures
        spec_medium_hit(m, ray, t0, t1) is Some ==> {
            let rec = spec_medium_hit(m, ray, t0, t1)->Some_0;
            &&& crate::point3::within(rec.p, crate::num::COORD_SAT as int + 1)
            &&& crate::point3::within(rec.normal, 300_000_000_000_000_000)
        },
{
}

} // verus!
