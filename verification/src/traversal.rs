//! The traversal theorem: tracing a ray through a bounding-volume
//! hierarchy returns exactly what a flat closest-hit scan over its objects
//! returns.  The box tests are pure pruning; with the containment invariant
//! the builder establishes, they can never lose the nearest hit.

use vstd::prelude::*;

use crate::aabb::{
    aabb_contains, aabb_wf, in_slab, lemma_in_slab_mono, lemma_narrow_characterizes, spec_narrow,
    AABB,
};
use crate::bvh::{spec_build_matches, BVHNode};
use crate::hittable::{
    spec_bounding_box, spec_bvh_box, spec_bvh_hit, spec_hit, spec_list_hit, spec_scan, HitRecord,
    Hittable,
};
use crate::ray::Ray;

verus! {

/// Floor division of any value by a nonzero divisor stays within the
/// magnitude of the dividend (plus one), so these quotients fit the wide
/// integer type the hit records carry.
proof fn lemma_fdiv_in_i128(a: int, b: int)
    requires
        b != 0,
    ensures
        -crate::aabb::imax(a, -a) - 1 <= crate::num::spec_fdiv(a, b) <= crate::aabb::imax(a, -a),
{
    assert(crate::num::spec_fdiv(a, b) == crate::num::spec_fdiv(-a, -b));
    if b > 0 {
        crate::num::lemma_fdiv_within(a, b);
    } else {
        crate::num::lemma_fdiv_within(-a, -b);
    }
}


/// The sphere case of the window-and-slab lemma.
proof fn lemma_sphere_in_slab(s0: crate::sphere::Sphere, ray: Ray, t0: int, t1: int)
    ensures
        crate::sphere::spec_sphere_hit(s0, ray, t0, t1) is Some ==> {
            let rec = crate::sphere::spec_sphere_hit(s0, ray, t0, t1)->Some_0;
            &&& t0 <= rec.t < t1
            &&& in_slab(s0.bounding_box, ray, rec.t as int)
        },
{
    if crate::sphere::spec_sphere_fits(s0, ray) {
        crate::sphere::lemma_sphere_bounds(s0, ray);
        let oc = crate::hittable::spec_sub(s0.center, ray.origin);
        let a = crate::point3::spec_dot_raw(ray.direction, ray.direction);
        let hh = crate::point3::spec_dot_raw(oc, ray.direction);
        let c = crate::point3::spec_dot_raw(oc, oc) - s0.radius * s0.radius;
        let disc = hh * hh - a * c;
        if a != 0 && disc >= 0 {
            crate::point3::lemma_isqrt_spec_props(disc);
            let sq = crate::point3::isqrt_spec(disc);
            assert(sq < 10_000_000_000_000_000_000) by (nonlinear_arith)
                requires
                    sq >= 0 && sq * sq <= disc
                        && disc < 80_000_000_000_000_000_000_000_000_000_000_000_000,
            ;
            lemma_fdiv_in_i128((hh - sq) * crate::num::SCALE, a);
            lemma_fdiv_in_i128((hh + sq) * crate::num::SCALE, a);
        }
    }
    if crate::sphere::spec_sphere_hit(s0, ray, t0, t1) is Some {
        let rec = crate::sphere::spec_sphere_hit(s0, ray, t0, t1)->Some_0;
        lemma_narrow_characterizes(s0.bounding_box, ray, t0, t1, rec.t as int);
    }
}

/// The parallelogram case of the window-and-slab lemma.
proof fn lemma_parallelogram_in_slab(
    p0: crate::parallelogram::Parallelogram,
    ray: Ray,
    t0: int,
    t1: int,
)
    ensures
        crate::parallelogram::spec_parallelogram_hit(p0, ray, t0, t1) is Some ==> {
            let rec = crate::parallelogram::spec_parallelogram_hit(p0, ray, t0, t1)->Some_0;
            &&& t0 <= rec.t < t1
            &&& in_slab(p0.bounding_box, ray, rec.t as int)
        },
{
    if crate::parallelogram::spec_parallelogram_fits(p0, ray) {
        crate::parallelogram::lemma_plane_hit_bounds(p0, ray);
        let denominator = crate::point3::spec_dot_raw(p0.normal, ray.direction);
        if denominator != 0 {
            lemma_fdiv_in_i128(
                (p0.d - crate::point3::spec_dot_raw(p0.normal, ray.origin)) * crate::num::SCALE,
                denominator,
            );
        }
    }
    if crate::parallelogram::spec_parallelogram_hit(p0, ray, t0, t1) is Some {
        let rec = crate::parallelogram::spec_parallelogram_hit(p0, ray, t0, t1)->Some_0;
        lemma_narrow_characterizes(p0.bounding_box, ray, t0, t1, rec.t as int);
    }
}

/// The triangle case of the window-and-slab lemma.
proof fn lemma_triangle_in_slab(tr0: crate::triangle::Triangle, ray: Ray, t0: int, t1: int)
    ensures
        crate::triangle::spec_triangle_hit(tr0, ray, t0, t1) is Some ==> {
            let rec = crate::triangle::spec_triangle_hit(tr0, ray, t0, t1)->Some_0;
            &&& t0 <= rec.t < t1
            &&& in_slab(tr0.bounding_box, ray, rec.t as int)
        },
{
    if crate::triangle::spec_triangle_fits(tr0, ray) {
        crate::triangle::lemma_tri_hit_bounds(tr0, ray);
        let denominator = crate::point3::spec_dot_raw(tr0.normal, ray.direction);
        if denominator != 0 {
            lemma_fdiv_in_i128(
                (tr0.d - crate::point3::spec_dot_raw(tr0.normal, ray.origin)) * crate::num::SCALE,
                denominator,
            );
        }
    }
    if crate::triangle::spec_triangle_hit(tr0, ray, t0, t1) is Some {
        let rec = crate::triangle::spec_triangle_hit(tr0, ray, t0, t1)->Some_0;
        lemma_narrow_characterizes(tr0.bounding_box, ray, t0, t1, rec.t as int);
    }
}

/// The quadric case of the window-and-slab lemma.
proof fn lemma_quadric_in_slab(q0: crate::quadric::Quadric, ray: Ray, t0: int, t1: int)
    ensures
        crate::quadric::spec_quadric_hit(q0, ray, t0, t1) is Some ==> {
            let rec = crate::quadric::spec_quadric_hit(q0, ray, t0, t1)->Some_0;
            &&& t0 <= rec.t < t1
            &&& in_slab(q0.bounding_box, ray, rec.t as int)
        },
{
    let co = crate::quadric::spec_quadric_coeffs(q0, ray);
    let a = co.0;
    let b = co.1;
    let c = co.2;
    if a != 0 && -crate::quadric::Q_A_CAP < a < crate::quadric::Q_A_CAP
        && -crate::quadric::Q_B_CAP < b < crate::quadric::Q_B_CAP && -crate::quadric::Q_A_CAP < c
        < crate::quadric::Q_A_CAP {
        crate::num::lemma_abs_mul(b, b, 6_000_000_000_000_000_000, 6_000_000_000_000_000_000);
        crate::num::lemma_abs_mul(
            4 * a,
            c,
            12_000_000_000_000_000_000,
            3_000_000_000_000_000_000,
        );
        let disc = b * b - 4 * a * c;
        if disc >= 0 {
            crate::point3::lemma_isqrt_spec_props(disc);
            let sq = crate::point3::isqrt_spec(disc);
            assert(sq < 10_000_000_000_000_000_000) by (nonlinear_arith)
                requires
                    sq >= 0 && sq * sq <= disc
                        && disc < 80_000_000_000_000_000_000_000_000_000_000_000_000,
            ;
            lemma_fdiv_in_i128((-b - sq) * crate::num::SCALE, 2 * a);
            lemma_fdiv_in_i128((-b + sq) * crate::num::SCALE, 2 * a);
        }
    }
    if crate::quadric::spec_quadric_hit(q0, ray, t0, t1) is Some {
        let rec = crate::quadric::spec_quadric_hit(q0, ray, t0, t1)->Some_0;
        lemma_narrow_characterizes(q0.bounding_box, ray, t0, t1, rec.t as int);
    }
}

/// The window-and-slab lemma for the flat collection.
pub proof fn lemma_list_in_slab(
    l: crate::hittable_list::HittableList,
    ray: Ray,
    t0: int,
    t1: int,
)
    ensures
        spec_list_hit(l, ray, t0, t1) is Some ==> {
            let rec = spec_list_hit(l, ray, t0, t1)->Some_0;
            &&& t0 <= rec.t < t1
            &&& in_slab(l.bounding_box, ray, rec.t as int)
        },
    decreases l, 2int,
{
    let nw = spec_narrow(l.bounding_box, ray, t0, t1);
    if nw.0 < nw.1 {
        lemma_scan_in_window(l.objects@, ray, nw.0, nw.1);
        if spec_list_hit(l, ray, t0, t1) is Some {
            let rec = spec_list_hit(l, ray, t0, t1)->Some_0;
            lemma_narrow_characterizes(l.bounding_box, ray, t0, t1, rec.t as int);
        }
    }
}

/// Every hit an object reports lies in the requested window and is
/// admitted by the slabs of the object's own bounding box.
pub proof fn lemma_hit_in_slab(h: Hittable, ray: Ray, t0: int, t1: int)
    ensures
        spec_hit(h, ray, t0, t1) is Some ==> {
            let rec = spec_hit(h, ray, t0, t1)->Some_0;
            &&& t0 <= rec.t < t1
            &&& in_slab(spec_bounding_box(h), ray, rec.t as int)
        },
    decreases h, 3int,
{
    match h {
        Hittable::Sphere(s0) => {
            lemma_sphere_in_slab(s0, ray, t0, t1);
        },
        Hittable::Parallelogram(p0) => {
            lemma_parallelogram_in_slab(p0, ray, t0, t1);
        },
        Hittable::Triangle(tr0) => {
            lemma_triangle_in_slab(tr0, ray, t0, t1);
        },
        Hittable::Quadric(q0) => {
            lemma_quadric_in_slab(q0, ray, t0, t1);
        },
        Hittable::Translate(t) => {
            if crate::hittable::spec_translate_fits(t, ray) {
                let nw = spec_narrow(t.bounding_box, ray, t0, t1);
                let offset_ray = Ray {
                    origin: crate::hittable::spec_sub(ray.origin, t.offset),
                    direction: ray.direction,
                    free_path: ray.free_path,
                };
                lemma_hit_in_slab(*t.object, offset_ray, nw.0, nw.1);
                if spec_hit(h, ray, t0, t1) is Some {
                    let rec = spec_hit(h, ray, t0, t1)->Some_0;
                    lemma_narrow_characterizes(t.bounding_box, ray, t0, t1, rec.t as int);
                }
            }
        },
        Hittable::RotateY(r) => {
            if crate::hittable::spec_rotate_fits(r, ray) {
                let nw = spec_narrow(r.bounding_box, ray, t0, t1);
                let rotated_ray = Ray {
                    origin: crate::point3::spec_rotate_y(
                        ray.origin,
                        r.cos_theta as int,
                        r.sin_theta as int,
                    ),
                    direction: crate::point3::spec_rotate_y(
                        ray.direction,
                        r.cos_theta as int,
                        r.sin_theta as int,
                    ),
                    free_path: ray.free_path,
                };
                lemma_hit_in_slab(*r.object, rotated_ray, nw.0, nw.1);
                if spec_hit(h, ray, t0, t1) is Some {
                    let rec = spec_hit(h, ray, t0, t1)->Some_0;
                    lemma_narrow_characterizes(r.bounding_box, ray, t0, t1, rec.t as int);
                }
            }
        },
        Hittable::ConstantMedium(m) => {
            lemma_medium_hit_in_slab(m, ray, t0, t1);
        },
        Hittable::List(l) => {
            lemma_list_in_slab(l, ray, t0, t1);
        },
        Hittable::Bvh(b) => {
            lemma_bvh_hit_in_slab(*b, ray, t0, t1);
        },
    }
}

/// The medium case of `lemma_hit_in_slab`: the medium narrows through its
/// boundary's box and confines the scatter parameter to that window.
proof fn lemma_medium_hit_in_slab(
    m: crate::constant_medium::ConstantMedium,
    ray: Ray,
    t0: int,
    t1: int,
)
    ensures
        crate::constant_medium::spec_medium_hit(m, ray, t0, t1) is Some ==> {
            let rec = crate::constant_medium::spec_medium_hit(m, ray, t0, t1)->Some_0;
            &&& t0 <= rec.t < t1
            &&& in_slab(spec_bounding_box(*m.boundary), ray, rec.t as int)
        },
{
    if crate::constant_medium::spec_medium_fits(m, ray) {
        crate::point3::lemma_dot_raw_self_nonneg(ray.direction);
        let dd = crate::point3::spec_dot_raw(ray.direction, ray.direction);
        crate::point3::lemma_isqrt_spec_props(dd);
        let len = crate::point3::isqrt_spec(dd);
        if len >= 1 {
            let scatter = crate::num::spec_fdiv(
                ray.free_path * m.inv_density,
                crate::num::SCALE as int,
            );
            assert(0 <= ray.free_path * m.inv_density
                < 1_000_000_000_000_000_000_000) by (nonlinear_arith)
                requires
                    0 <= ray.free_path < 1_000_000_000 && 0 < m.inv_density
                        < 1_000_000_000_000,
            ;
            crate::num::lemma_fdiv_within(
                ray.free_path * m.inv_density,
                crate::num::SCALE as int,
            );
            assert(0 <= scatter * crate::num::SCALE
                <= 10_000_000_000_000_000_000_000_000) by (nonlinear_arith)
                requires
                    0 <= scatter < 1_000_000_000_000_000_000_000
                        && crate::num::SCALE == 10_000,
            ;
            crate::num::lemma_fdiv_within(scatter * crate::num::SCALE, len);
        }
    }
    if crate::constant_medium::spec_medium_hit(m, ray, t0, t1) is Some {
        let rec = crate::constant_medium::spec_medium_hit(m, ray, t0, t1)->Some_0;
        lemma_narrow_characterizes(
            spec_bounding_box(*m.boundary),
            ray,
            t0,
            t1,
            rec.t as int,
        );
    }
}

/// Window and slab membership for the scan: any scan hit lies in the
/// requested window and in its own object's slabs.
pub proof fn lemma_scan_in_window(objs: Seq<Hittable>, ray: Ray, t0: int, t1: int)
    ensures
        spec_scan(objs, ray, t0, t1) is Some ==> {
            let rec = spec_scan(objs, ray, t0, t1)->Some_0;
            t0 <= rec.t < t1
        },
    decreases objs, 4int,
{
    if objs.len() > 0 {
        lemma_hit_in_slab(objs[0], ray, t0, t1);
        match spec_hit(objs[0], ray, t0, t1) {
            Some(rec) => {
                lemma_scan_in_window(objs.subrange(1, objs.len() as int), ray, t0, rec.t as int);
            },
            None => {
                lemma_scan_in_window(objs.subrange(1, objs.len() as int), ray, t0, t1);
            },
        }
    }
}

/// Window membership for the traversal.
pub proof fn lemma_bvh_hit_in_slab(n: BVHNode, ray: Ray, t0: int, t1: int)
    ensures
        spec_bvh_hit(n, ray, t0, t1) is Some ==> {
            let rec = spec_bvh_hit(n, ray, t0, t1)->Some_0;
            &&& t0 <= rec.t < t1
            &&& in_slab(spec_bvh_box(n), ray, rec.t as int)
        },
    decreases n, 2int,
{
    let nw = spec_narrow(spec_bvh_box(n), ray, t0, t1);
    if nw.0 < nw.1 {
        match n {
            BVHNode::Leaf { objects, bounding_box: _ } => {
                lemma_list_in_slab(objects, ray, nw.0, nw.1);
                if spec_bvh_hit(n, ray, t0, t1) is Some {
                    let rec = spec_bvh_hit(n, ray, t0, t1)->Some_0;
                    lemma_narrow_characterizes(spec_bvh_box(n), ray, t0, t1, rec.t as int);
                }
            },
            BVHNode::Internal { left, right, bounding_box: _ } => {
                lemma_bvh_hit_in_slab(*left, ray, nw.0, nw.1);
                let left_hit = spec_bvh_hit(*left, ray, nw.0, nw.1);
                let bound = if left_hit is Some {
                    left_hit->Some_0.t as int
                } else {
                    nw.1
                };
                lemma_bvh_hit_in_slab(*right, ray, nw.0, bound);
                if spec_bvh_hit(n, ray, t0, t1) is Some {
                    let rec = spec_bvh_hit(n, ray, t0, t1)->Some_0;
                    lemma_narrow_characterizes(spec_bvh_box(n), ray, t0, t1, rec.t as int);
                }
            },
        }
    }
}

/// Whether an object tree contains no participating medium.  A medium's
/// scatter point depends on where the search window begins, so only
/// media-free objects answer every sub-window consistently.
pub open spec fn media_free(h: Hittable) -> bool
    decreases h,
{
    match h {
        Hittable::Sphere(_) => true,
        Hittable::Parallelogram(_) => true,
        Hittable::Triangle(_) => true,
        Hittable::Quadric(_) => true,
        Hittable::Translate(t) => media_free(*t.object),
        Hittable::RotateY(r) => media_free(*r.object),
        Hittable::ConstantMedium(_) => false,
        Hittable::List(l) => seq_media_free(l.objects@),
        Hittable::Bvh(b) => bvh_media_free(*b),
    }
}

/// Whether every object of a sequence is media free.
pub open spec fn seq_media_free(objs: Seq<Hittable>) -> bool
    decreases objs,
{
    forall|i: int| 0 <= i < objs.len() ==> media_free(#[trigger] objs[i])
}

/// Whether every object under a BVH node is media free.
pub open spec fn bvh_media_free(n: BVHNode) -> bool
    decreases n,
{
    match n {
        BVHNode::Leaf { objects, bounding_box: _ } => seq_media_free(objects.objects@),
        BVHNode::Internal { left, right, bounding_box: _ } => bvh_media_free(*left)
            && bvh_media_free(*right),
    }
}


/// When the narrowed sub-window is nonempty, its endpoints lie inside the
/// narrowed window.
proof fn lemma_subwindow_bounds(bx: AABB, ray: Ray, t0: int, t1: int, s2: int, e2: int)
    requires
        t0 <= s2,
        e2 <= t1,
        spec_narrow(bx, ray, s2, e2).0 < spec_narrow(bx, ray, s2, e2).1,
    ensures
        spec_narrow(bx, ray, t0, t1).0 <= spec_narrow(bx, ray, s2, e2).0,
        spec_narrow(bx, ray, s2, e2).1 <= spec_narrow(bx, ray, t0, t1).1,
        spec_narrow(bx, ray, t0, t1).0 < spec_narrow(bx, ray, t0, t1).1,
{
    let nw = spec_narrow(bx, ray, t0, t1);
    let nw2 = spec_narrow(bx, ray, s2, e2);
    lemma_narrow_characterizes(bx, ray, s2, e2, nw2.0);
    lemma_narrow_characterizes(bx, ray, t0, t1, nw2.0);
    lemma_narrow_characterizes(bx, ray, s2, e2, nw2.1 - 1);
    lemma_narrow_characterizes(bx, ray, t0, t1, nw2.1 - 1);
}


/// The sphere case of the window lemma.
#[verifier::rlimit(100)]
proof fn lemma_sphere_window(s0: crate::sphere::Sphere, ray: Ray, t0: int, t1: int, s2: int, e2: int)
    requires
        t0 <= s2,
        e2 <= t1,
    ensures
        crate::sphere::spec_sphere_hit(s0, ray, t0, t1) is None
            ==> crate::sphere::spec_sphere_hit(s0, ray, s2, e2) is None,
        (crate::sphere::spec_sphere_hit(s0, ray, t0, t1) is Some && s2 <= crate::sphere::spec_sphere_hit(
            s0,
            ray,
            t0,
            t1,
        )->Some_0.t && crate::sphere::spec_sphere_hit(s0, ray, t0, t1)->Some_0.t < e2)
            ==> crate::sphere::spec_sphere_hit(s0, ray, s2, e2) == crate::sphere::spec_sphere_hit(
            s0,
            ray,
            t0,
            t1,
        ),
        (crate::sphere::spec_sphere_hit(s0, ray, t0, t1) is Some && crate::sphere::spec_sphere_hit(
            s0,
            ray,
            t0,
            t1,
        )->Some_0.t >= e2)
            ==> crate::sphere::spec_sphere_hit(s0, ray, s2, e2) is None,
{
    lemma_sphere_in_slab(s0, ray, t0, t1);
    lemma_sphere_in_slab(s0, ray, s2, e2);
    if crate::sphere::spec_sphere_fits(s0, ray) {
        lemma_window_points(s0.bounding_box, ray, t0, t1, s2, e2);
    }
}

/// The parallelogram case of the window lemma.
#[verifier::rlimit(100)]
proof fn lemma_parallelogram_window(
    p0: crate::parallelogram::Parallelogram,
    ray: Ray,
    t0: int,
    t1: int,
    s2: int,
    e2: int,
)
    requires
        t0 <= s2,
        e2 <= t1,
    ensures
        crate::parallelogram::spec_parallelogram_hit(p0, ray, t0, t1) is None
            ==> crate::parallelogram::spec_parallelogram_hit(p0, ray, s2, e2) is None,
        (crate::parallelogram::spec_parallelogram_hit(p0, ray, t0, t1) is Some && s2
            <= crate::parallelogram::spec_parallelogram_hit(p0, ray, t0, t1)->Some_0.t
            && crate::parallelogram::spec_parallelogram_hit(p0, ray, t0, t1)->Some_0.t < e2)
            ==> crate::parallelogram::spec_parallelogram_hit(p0, ray, s2, e2)
            == crate::parallelogram::spec_parallelogram_hit(p0, ray, t0, t1),
        (crate::parallelogram::spec_parallelogram_hit(p0, ray, t0, t1) is Some && crate::parallelogram::spec_parallelogram_hit(
            p0,
            ray,
            t0,
            t1,
        )->Some_0.t >= e2)
            ==> crate::parallelogram::spec_parallelogram_hit(p0, ray, s2, e2) is None,
{
    lemma_parallelogram_in_slab(p0, ray, t0, t1);
    lemma_parallelogram_in_slab(p0, ray, s2, e2);
    if crate::parallelogram::spec_parallelogram_fits(p0, ray) {
        lemma_window_points(p0.bounding_box, ray, t0, t1, s2, e2);
    }
}

/// The triangle case of the window lemma.
#[verifier::rlimit(100)]
proof fn lemma_triangle_window(
    tr0: crate::triangle::Triangle,
    ray: Ray,
    t0: int,
    t1: int,
    s2: int,
    e2: int,
)
    requires
        t0 <= s2,
        e2 <= t1,
    ensures
        crate::triangle::spec_triangle_hit(tr0, ray, t0, t1) is None
            ==> crate::triangle::spec_triangle_hit(tr0, ray, s2, e2) is None,
        (crate::triangle::spec_triangle_hit(tr0, ray, t0, t1) is Some && s2
            <= crate::triangle::spec_triangle_hit(tr0, ray, t0, t1)->Some_0.t
            && crate::triangle::spec_triangle_hit(tr0, ray, t0, t1)->Some_0.t < e2)
            ==> crate::triangle::spec_triangle_hit(tr0, ray, s2, e2)
            == crate::triangle::spec_triangle_hit(tr0, ray, t0, t1),
        (crate::triangle::spec_triangle_hit(tr0, ray, t0, t1) is Some && crate::triangle::spec_triangle_hit(
            tr0,
            ray,
            t0,
            t1,
        )->Some_0.t >= e2)
            ==> crate::triangle::spec_triangle_hit(tr0, ray, s2, e2) is None,
{
    lemma_triangle_in_slab(tr0, ray, t0, t1);
    lemma_triangle_in_slab(tr0, ray, s2, e2);
    if crate::triangle::spec_triangle_fits(tr0, ray) {
        lemma_window_points(tr0.bounding_box, ray, t0, t1, s2, e2);
    }
}

/// The quadric case of the window lemma.
#[verifier::rlimit(100)]
proof fn lemma_quadric_window(
    q0: crate::quadric::Quadric,
    ray: Ray,
    t0: int,
    t1: int,
    s2: int,
    e2: int,
)
    requires
        t0 <= s2,
        e2 <= t1,
    ensures
        crate::quadric::spec_quadric_hit(q0, ray, t0, t1) is None
            ==> crate::quadric::spec_quadric_hit(q0, ray, s2, e2) is None,
        (crate::quadric::spec_quadric_hit(q0, ray, t0, t1) is Some && s2
            <= crate::quadric::spec_quadric_hit(q0, ray, t0, t1)->Some_0.t
            && crate::quadric::spec_quadric_hit(q0, ray, t0, t1)->Some_0.t < e2)
            ==> crate::quadric::spec_quadric_hit(q0, ray, s2, e2)
            == crate::quadric::spec_quadric_hit(q0, ray, t0, t1),
        (crate::quadric::spec_quadric_hit(q0, ray, t0, t1) is Some && crate::quadric::spec_quadric_hit(
            q0,
            ray,
            t0,
            t1,
        )->Some_0.t >= e2)
            ==> crate::quadric::spec_quadric_hit(q0, ray, s2, e2) is None,
{
    lemma_quadric_in_slab(q0, ray, t0, t1);
    lemma_quadric_in_slab(q0, ray, s2, e2);
    if crate::quadric::spec_quadric_fits(q0, ray) {
        lemma_window_points(q0.bounding_box, ray, t0, t1, s2, e2);
        let co = crate::quadric::spec_quadric_coeffs(q0, ray);
        let a = co.0;
        let b = co.1;
        let c = co.2;
        if a != 0 && -crate::quadric::Q_A_CAP < a < crate::quadric::Q_A_CAP
            && -crate::quadric::Q_B_CAP < b < crate::quadric::Q_B_CAP && -crate::quadric::Q_A_CAP
            < c < crate::quadric::Q_A_CAP {
            crate::num::lemma_abs_mul(b, b, 6_000_000_000_000_000_000, 6_000_000_000_000_000_000);
            crate::num::lemma_abs_mul(
                4 * a,
                c,
                12_000_000_000_000_000_000,
                3_000_000_000_000_000_000,
            );
            let disc = b * b - 4 * a * c;
            if disc >= 0 {
                crate::point3::lemma_isqrt_spec_props(disc);
                let sq = crate::point3::isqrt_spec(disc);
                assert(sq < 10_000_000_000_000_000_000) by (nonlinear_arith)
                    requires
                        sq >= 0 && sq * sq <= disc
                            && disc < 80_000_000_000_000_000_000_000_000_000_000_000_000,
                ;
                lemma_fdiv_in_i128((-b - sq) * crate::num::SCALE, 2 * a);
                lemma_fdiv_in_i128((-b + sq) * crate::num::SCALE, 2 * a);
            }
        }
    }
}

/// The window lemma: how a media-free object's hit on a sub-window relates
/// to its hit on the enclosing window.  A miss stays a miss; a hit inside
/// the sub-window is returned unchanged; and shrinking only the upper bound
/// below the hit turns it into a miss.
#[verifier::rlimit(100)]
pub proof fn lemma_hit_window(h: Hittable, ray: Ray, t0: int, t1: int, s2: int, e2: int)
    requires
        media_free(h),
        t0 <= s2,
        e2 <= t1,
    ensures
        spec_hit(h, ray, t0, t1) is None ==> spec_hit(h, ray, s2, e2) is None,
        (spec_hit(h, ray, t0, t1) is Some && s2 <= spec_hit(h, ray, t0, t1)->Some_0.t
            && spec_hit(h, ray, t0, t1)->Some_0.t < e2) ==> spec_hit(h, ray, s2, e2) == spec_hit(
            h,
            ray,
            t0,
            t1,
        ),
        (spec_hit(h, ray, t0, t1) is Some && spec_hit(h, ray, t0, t1)->Some_0.t >= e2)
            ==> spec_hit(h, ray, s2, e2) is None,
    decreases h, 3int,
{
    match h {
        Hittable::Sphere(s0) => {
            lemma_sphere_window(s0, ray, t0, t1, s2, e2);
        },
        Hittable::Parallelogram(p0) => {
            lemma_parallelogram_window(p0, ray, t0, t1, s2, e2);
        },
        Hittable::Triangle(tr0) => {
            lemma_triangle_window(tr0, ray, t0, t1, s2, e2);
        },
        Hittable::Quadric(q0) => {
            lemma_quadric_window(q0, ray, t0, t1, s2, e2);
        },
        Hittable::Translate(t) => {
            lemma_hit_in_slab(h, ray, t0, t1);
            lemma_hit_in_slab(h, ray, s2, e2);
            if crate::hittable::spec_translate_fits(t, ray) {
                let nw = spec_narrow(t.bounding_box, ray, t0, t1);
                let nw2 = spec_narrow(t.bounding_box, ray, s2, e2);
                lemma_window_points(t.bounding_box, ray, t0, t1, s2, e2);
                let offset_ray = Ray {
                    origin: crate::hittable::spec_sub(ray.origin, t.offset),
                    direction: ray.direction,
                    free_path: ray.free_path,
                };
                lemma_hit_in_slab(*t.object, offset_ray, nw.0, nw.1);
                lemma_hit_in_slab(*t.object, offset_ray, nw2.0, nw2.1);
                if nw2.0 < nw2.1 {
                    lemma_subwindow_bounds(t.bounding_box, ray, t0, t1, s2, e2);
                    lemma_hit_window(*t.object, offset_ray, nw.0, nw.1, nw2.0, nw2.1);
                }
            }
        },
        Hittable::RotateY(r) => {
            lemma_hit_in_slab(h, ray, t0, t1);
            lemma_hit_in_slab(h, ray, s2, e2);
            if crate::hittable::spec_rotate_fits(r, ray) {
                let nw = spec_narrow(r.bounding_box, ray, t0, t1);
                let nw2 = spec_narrow(r.bounding_box, ray, s2, e2);
                lemma_window_points(r.bounding_box, ray, t0, t1, s2, e2);
                let rotated_ray = Ray {
                    origin: crate::point3::spec_rotate_y(
                        ray.origin,
                        r.cos_theta as int,
                        r.sin_theta as int,
                    ),
                    direction: crate::point3::spec_rotate_y(
                        ray.direction,
                        r.cos_theta as int,
                        r.sin_theta as int,
                    ),
                    free_path: ray.free_path,
                };
                lemma_hit_in_slab(*r.object, rotated_ray, nw.0, nw.1);
                lemma_hit_in_slab(*r.object, rotated_ray, nw2.0, nw2.1);
                if nw2.0 < nw2.1 {
                    lemma_subwindow_bounds(r.bounding_box, ray, t0, t1, s2, e2);
                    lemma_hit_window(*r.object, rotated_ray, nw.0, nw.1, nw2.0, nw2.1);
                }
            }
        },
        Hittable::ConstantMedium(_) => {},
        Hittable::List(l) => {
            lemma_list_window(l, ray, t0, t1, s2, e2);
        },
        Hittable::Bvh(b) => {
            lemma_bvh_window(*b, ray, t0, t1, s2, e2);
        },
    }
}

/// The narrowed sub-window is contained in the narrowed window, and their
/// member parameters agree with the slab set pointwise.
proof fn lemma_window_points(bx: AABB, ray: Ray, t0: int, t1: int, s2: int, e2: int)
    requires
        t0 <= s2,
        e2 <= t1,
    ensures
        ({
            let nw = spec_narrow(bx, ray, t0, t1);
            let nw2 = spec_narrow(bx, ray, s2, e2);
            &&& forall|t: int|
                nw2.0 <= t < nw2.1 <==> (s2 <= t < e2 && #[trigger] in_slab(bx, ray, t))
            &&& forall|t: int|
                nw.0 <= t < nw.1 <==> (t0 <= t < t1 && #[trigger] in_slab(bx, ray, t))
        }),
{
    let nw = spec_narrow(bx, ray, t0, t1);
    let nw2 = spec_narrow(bx, ray, s2, e2);
    assert forall|t: int| nw2.0 <= t < nw2.1 <==> (s2 <= t < e2 && #[trigger] in_slab(
        bx,
        ray,
        t,
    )) by {
        lemma_narrow_characterizes(bx, ray, s2, e2, t);
    }
    assert forall|t: int| nw.0 <= t < nw.1 <==> (t0 <= t < t1 && #[trigger] in_slab(
        bx,
        ray,
        t,
    )) by {
        lemma_narrow_characterizes(bx, ray, t0, t1, t);
    }
}

/// The window lemma lifted to the closest-hit scan.
pub proof fn lemma_scan_window(objs: Seq<Hittable>, ray: Ray, t0: int, t1: int, s2: int, e2: int)
    requires
        seq_media_free(objs),
        t0 <= s2,
        e2 <= t1,
    ensures
        spec_scan(objs, ray, t0, t1) is None ==> spec_scan(objs, ray, s2, e2) is None,
        (spec_scan(objs, ray, t0, t1) is Some && s2 <= spec_scan(objs, ray, t0, t1)->Some_0.t
            && spec_scan(objs, ray, t0, t1)->Some_0.t < e2) ==> spec_scan(objs, ray, s2, e2)
            == spec_scan(objs, ray, t0, t1),
        (spec_scan(objs, ray, t0, t1) is Some && spec_scan(objs, ray, t0, t1)->Some_0.t >= e2)
            ==> spec_scan(objs, ray, s2, e2) is None,
    decreases objs, 4int,
{
    if objs.len() > 0 {
        let rest = objs.subrange(1, objs.len() as int);
        assert(seq_media_free(rest)) by {
            assert forall|i: int| 0 <= i < rest.len() implies media_free(#[trigger] rest[i]) by {
                assert(rest[i] == objs[i + 1]);
            }
        }
        assert(media_free(objs[0]));
        lemma_hit_in_slab(objs[0], ray, t0, t1);
        lemma_hit_window(objs[0], ray, t0, t1, s2, e2);
        match spec_hit(objs[0], ray, t0, t1) {
            Some(rec) => {
                lemma_scan_in_window(rest, ray, t0, rec.t as int);
                if s2 <= rec.t < e2 {
                    // the head hits inside the sub-window, and both scans
                    // continue with the same shrunk upper bound
                    lemma_scan_window(rest, ray, t0, rec.t as int, s2, rec.t as int);
                } else if rec.t >= e2 {
                    // the head hit lies beyond the sub-window, so the head
                    // reports nothing there and only the tail remains
                    lemma_scan_window(rest, ray, t0, rec.t as int, s2, e2);
                } else {
                    // rec.t < s2: the old result lies below the sub-window,
                    // so no conclusion is owed
                }
            },
            None => {
                lemma_scan_window(rest, ray, t0, t1, s2, e2);
            },
        }
    }
}

/// The window lemma lifted to BVH traversal.
pub proof fn lemma_bvh_window(n: BVHNode, ray: Ray, t0: int, t1: int, s2: int, e2: int)
    requires
        bvh_media_free(n),
        t0 <= s2,
        e2 <= t1,
    ensures
        spec_bvh_hit(n, ray, t0, t1) is None ==> spec_bvh_hit(n, ray, s2, e2) is None,
        (spec_bvh_hit(n, ray, t0, t1) is Some && s2 <= spec_bvh_hit(n, ray, t0, t1)->Some_0.t
            && spec_bvh_hit(n, ray, t0, t1)->Some_0.t < e2) ==> spec_bvh_hit(n, ray, s2, e2)
            == spec_bvh_hit(n, ray, t0, t1),
        (spec_bvh_hit(n, ray, t0, t1) is Some && spec_bvh_hit(n, ray, t0, t1)->Some_0.t >= e2)
            ==> spec_bvh_hit(n, ray, s2, e2) is None,
    decreases n, 5int,
{
    let nw = spec_narrow(spec_bvh_box(n), ray, t0, t1);
    let nw2 = spec_narrow(spec_bvh_box(n), ray, s2, e2);
    lemma_window_points(spec_bvh_box(n), ray, t0, t1, s2, e2);
    lemma_bvh_hit_in_slab(n, ray, t0, t1);
    lemma_bvh_hit_in_slab(n, ray, s2, e2);
    if nw2.0 < nw2.1 {
        lemma_subwindow_bounds(spec_bvh_box(n), ray, t0, t1, s2, e2);
        match n {
            BVHNode::Leaf { objects, bounding_box: _ } => {
                lemma_list_in_slab(objects, ray, nw.0, nw.1);
                lemma_list_window(objects, ray, nw.0, nw.1, nw2.0, nw2.1);
            },
            BVHNode::Internal { left, right, bounding_box: _ } => {
                lemma_bvh_hit_in_slab(*left, ray, nw.0, nw.1);
                let left_hit = spec_bvh_hit(*left, ray, nw.0, nw.1);
                let bound = if left_hit is Some {
                    left_hit->Some_0.t as int
                } else {
                    nw.1
                };
                lemma_bvh_hit_in_slab(*right, ray, nw.0, bound);
                let right_hit = spec_bvh_hit(*right, ray, nw.0, bound);
                lemma_bvh_window(*left, ray, nw.0, nw.1, nw2.0, nw2.1);
                let left_hit2 = spec_bvh_hit(*left, ray, nw2.0, nw2.1);
                let bound2 = if left_hit2 is Some {
                    left_hit2->Some_0.t as int
                } else {
                    nw2.1
                };
                lemma_bvh_hit_in_slab(*left, ray, nw2.0, nw2.1);
                if bound2 <= bound {
                    lemma_bvh_window(*right, ray, nw.0, bound, nw2.0, bound2);
                } else {
                    lemma_bvh_window(*right, ray, nw.0, bound, nw2.0, bound);
                    lemma_bvh_window(*right, ray, nw2.0, bound2, nw2.0, bound);
                }
            },
        }
    }
}

/// The window lemma for the flat collection, at its own narrowed windows.
pub proof fn lemma_list_window(
    l: crate::hittable_list::HittableList,
    ray: Ray,
    t0: int,
    t1: int,
    s2: int,
    e2: int,
)
    requires
        seq_media_free(l.objects@),
        t0 <= s2,
        e2 <= t1,
    ensures
        spec_list_hit(l, ray, t0, t1) is None ==> spec_list_hit(l, ray, s2, e2) is None,
        (spec_list_hit(l, ray, t0, t1) is Some && s2 <= spec_list_hit(l, ray, t0, t1)->Some_0.t
            && spec_list_hit(l, ray, t0, t1)->Some_0.t < e2) ==> spec_list_hit(l, ray, s2, e2)
            == spec_list_hit(l, ray, t0, t1),
        (spec_list_hit(l, ray, t0, t1) is Some && spec_list_hit(l, ray, t0, t1)->Some_0.t >= e2)
            ==> spec_list_hit(l, ray, s2, e2) is None,
    decreases l, 3int,
{
    let nw = spec_narrow(l.bounding_box, ray, t0, t1);
    let nw2 = spec_narrow(l.bounding_box, ray, s2, e2);
    lemma_window_points(l.bounding_box, ray, t0, t1, s2, e2);
    lemma_scan_in_window(l.objects@, ray, nw.0, nw.1);
    lemma_scan_in_window(l.objects@, ray, nw2.0, nw2.1);
    if nw2.0 < nw2.1 {
        lemma_subwindow_bounds(l.bounding_box, ray, t0, t1, s2, e2);
        lemma_scan_window(l.objects@, ray, nw.0, nw.1, nw2.0, nw2.1);
    }
}

/// The objects of a tree, in traversal order: the left subtree's objects
/// first, then the right subtree's.
pub open spec fn spec_tree_objects(n: BVHNode) -> Seq<Hittable>
    decreases n,
{
    match n {
        BVHNode::Leaf { objects, bounding_box: _ } => objects.objects@,
        BVHNode::Internal { left, right, bounding_box: _ } => spec_tree_objects(*left).add(
            spec_tree_objects(*right),
        ),
    }
}

/// The containment invariant traversal relies on: every node's box is well
/// formed and contains the box of every object filed beneath it, and a
/// leaf's stored box is its collection's box.
pub open spec fn tree_ok(n: BVHNode) -> bool
    decreases n,
{
    &&& aabb_wf(spec_bvh_box(n))
    &&& (forall|i: int|
        0 <= i < spec_tree_objects(n).len() ==> aabb_wf(
            #[trigger] spec_bounding_box(spec_tree_objects(n)[i]),
        ) && aabb_contains(spec_bvh_box(n), spec_bounding_box(spec_tree_objects(n)[i])))
    &&& match n {
        BVHNode::Leaf { objects, bounding_box } => bounding_box == objects.bounding_box,
        BVHNode::Internal { left, right, bounding_box: _ } => tree_ok(*left) && tree_ok(*right),
    }
}

/// A parameter at or above the window start that all slabs admit is at or
/// above the narrowed start; one below the window end is below the
/// narrowed end.
proof fn lemma_narrow_start_bound(bx: AABB, ray: Ray, t0: int, t1: int, t: int)
    requires
        in_slab(bx, ray, t),
    ensures
        t0 <= t < t1 ==> spec_narrow(bx, ray, t0, t1).0 <= t < spec_narrow(bx, ray, t0, t1).1,
{
    lemma_narrow_characterizes(bx, ray, t0, t1, t);
}

/// Raising the window start past no admissible member parameter leaves the
/// scan unchanged.
proof fn lemma_scan_start_lift(objs: Seq<Hittable>, ray: Ray, t0: int, e2: int, s2: int)
    requires
        seq_media_free(objs),
        t0 <= s2,
        forall|i: int, t: int|
            0 <= i < objs.len() && #[trigger] in_slab(
                spec_bounding_box(objs[i]),
                ray,
                t,
            ) && t0 <= t ==> s2 <= t,
    ensures
        spec_scan(objs, ray, s2, e2) == spec_scan(objs, ray, t0, e2),
    decreases objs,
{
    if objs.len() > 0 {
        let rest = objs.subrange(1, objs.len() as int);
        assert(seq_media_free(rest) && forall|i: int, t: int|
            0 <= i < rest.len() && #[trigger] in_slab(spec_bounding_box(rest[i]), ray, t) && t0
                <= t ==> s2 <= t) by {
            assert(forall|i: int| 0 <= i < rest.len() ==> rest[i] == objs[i + 1]);
        }
        assert(media_free(objs[0]));
        lemma_hit_in_slab(objs[0], ray, t0, e2);
        lemma_hit_window(objs[0], ray, t0, e2, s2, e2);
        match spec_hit(objs[0], ray, t0, e2) {
            Some(rec) => {
                assert(in_slab(spec_bounding_box(objs[0]), ray, rec.t as int));
                assert(s2 <= rec.t);
                lemma_scan_start_lift(rest, ray, t0, rec.t as int, s2);
            },
            None => {
                lemma_scan_start_lift(rest, ray, t0, e2, s2);
            },
        }
    }
}

/// Lowering the window end past no admissible member parameter leaves the
/// scan unchanged.
proof fn lemma_scan_end_lift(objs: Seq<Hittable>, ray: Ray, t0: int, t1: int, e2: int)
    requires
        seq_media_free(objs),
        e2 <= t1,
        forall|i: int, t: int|
            0 <= i < objs.len() && #[trigger] in_slab(
                spec_bounding_box(objs[i]),
                ray,
                t,
            ) && t0 <= t < t1 ==> t < e2,
    ensures
        spec_scan(objs, ray, t0, e2) == spec_scan(objs, ray, t0, t1),
{
    lemma_scan_in_window(objs, ray, t0, t1);
    lemma_scan_window(objs, ray, t0, t1, t0, e2);
    match spec_scan(objs, ray, t0, t1) {
        Some(rec) => {
            lemma_scan_member_slab(objs, ray, t0, t1);
        },
        None => {},
    }
}

/// A scan hit is admitted by the slabs of the member that produced it.
proof fn lemma_scan_member_slab(objs: Seq<Hittable>, ray: Ray, t0: int, t1: int)
    ensures
        spec_scan(objs, ray, t0, t1) is Some ==> exists|i: int|
            0 <= i < objs.len() && #[trigger] in_slab(
                spec_bounding_box(objs[i]),
                ray,
                spec_scan(objs, ray, t0, t1)->Some_0.t as int,
            ),
    decreases objs,
{
    if objs.len() > 0 {
        let rest = objs.subrange(1, objs.len() as int);
        lemma_hit_in_slab(objs[0], ray, t0, t1);
        match spec_hit(objs[0], ray, t0, t1) {
            Some(rec) => {
                lemma_scan_member_slab(rest, ray, t0, rec.t as int);
                match spec_scan(rest, ray, t0, rec.t as int) {
                    Some(rec2) => {
                        let j = choose|j: int|
                            0 <= j < rest.len() && #[trigger] in_slab(
                                spec_bounding_box(rest[j]),
                                ray,
                                rec2.t as int,
                            );
                        assert(objs[j + 1] == rest[j]);
                        assert(in_slab(
                            spec_bounding_box(objs[j + 1]),
                            ray,
                            spec_scan(objs, ray, t0, t1)->Some_0.t as int,
                        ));
                    },
                    None => {
                        assert(in_slab(
                            spec_bounding_box(objs[0]),
                            ray,
                            spec_scan(objs, ray, t0, t1)->Some_0.t as int,
                        ));
                    },
                }
            },
            None => {
                lemma_scan_member_slab(rest, ray, t0, t1);
                if spec_scan(rest, ray, t0, t1) is Some {
                    let j = choose|j: int|
                        0 <= j < rest.len() && #[trigger] in_slab(
                            spec_bounding_box(rest[j]),
                            ray,
                            spec_scan(rest, ray, t0, t1)->Some_0.t as int,
                        );
                    assert(objs[j + 1] == rest[j]);
                    assert(in_slab(
                        spec_bounding_box(objs[j + 1]),
                        ray,
                        spec_scan(objs, ray, t0, t1)->Some_0.t as int,
                    ));
                }
            },
        }
    }
}

/// Scanning a concatenation: scan the first part, then the second with the
/// upper bound shrunk to the first part's hit, preferring the second
/// part's strictly nearer hit.
proof fn lemma_scan_concat(a: Seq<Hittable>, b: Seq<Hittable>, ray: Ray, t0: int, t1: int)
    ensures
        ({
            let la = spec_scan(a, ray, t0, t1);
            let bound = if la is Some {
                la->Some_0.t as int
            } else {
                t1
            };
            let lb = spec_scan(b, ray, t0, bound);
            spec_scan(a.add(b), ray, t0, t1) == (if lb is Some {
                lb
            } else {
                la
            })
        }),
    decreases a,
{
    if a.len() == 0 {
        assert(a.add(b) =~= b);
    } else {
        let rest = a.subrange(1, a.len() as int);
        assert(a.add(b)[0] == a[0]);
        assert(a.add(b).subrange(1, (a.len() + b.len()) as int) =~= rest.add(b));
        match spec_hit(a[0], ray, t0, t1) {
            Some(rec) => {
                lemma_scan_concat(rest, b, ray, t0, rec.t as int);
            },
            None => {
                lemma_scan_concat(rest, b, ray, t0, t1);
            },
        }
    }
}

/// A built tree satisfies the containment invariant.
pub proof fn lemma_build_tree_ok(n: BVHNode, s: Seq<Hittable>)
    requires
        spec_build_matches(n, s),
        crate::bvh::all_boxes_wf(s),
    ensures
        tree_ok(n),
    decreases s.len(),
{
    crate::bvh::lemma_fold_box_wf(s);
    crate::bvh::lemma_box_of_build(n, s);
    let bb = crate::bvh::spec_fold_box(s);
    let axis = crate::aabb::spec_longest_axis(bb);
    if s.len() <= crate::bvh::LEAF_THRESHOLD {
        crate::bvh::lemma_fold_box_contains(s);
    } else {
        match n {
            BVHNode::Leaf { .. } => {},
            BVHNode::Internal { left, right, bounding_box } => {
                let sorted = crate::bvh::spec_sort_axis(s, axis as int);
                let mid = s.len() as int / 2;
                crate::bvh::lemma_sort_axis_preserves(s, axis as int);
                crate::bvh::lemma_all_boxes_wf_subrange(sorted, mid, s.len() as int);
                crate::bvh::lemma_all_boxes_wf_subrange(sorted, 0, mid);
                lemma_build_tree_ok(*left, sorted.subrange(mid, s.len() as int));
                lemma_build_tree_ok(*right, sorted.subrange(0, mid));
                crate::bvh::lemma_box_of_build(*left, sorted.subrange(mid, s.len() as int));
                crate::bvh::lemma_box_of_build(*right, sorted.subrange(0, mid));
                assert(sorted =~= sorted.subrange(0, mid).add(sorted.subrange(mid, s.len() as int)));
                crate::bvh::lemma_fold_box_concat(
                    sorted.subrange(0, mid),
                    sorted.subrange(mid, s.len() as int),
                );
                crate::aabb::lemma_join_contains(
                    crate::bvh::spec_fold_box(sorted.subrange(0, mid)),
                    crate::bvh::spec_fold_box(sorted.subrange(mid, s.len() as int)),
                );
                let flat = spec_tree_objects(n);
                let fl = spec_tree_objects(*left);
                let fr = spec_tree_objects(*right);
                assert forall|i: int| 0 <= i < flat.len() implies aabb_wf(
                    #[trigger] spec_bounding_box(flat[i]),
                ) && aabb_contains(spec_bvh_box(n), spec_bounding_box(flat[i])) by {
                    if i < fl.len() {
                        assert(flat[i] == fl[i]);
                        crate::aabb::lemma_contains_trans(
                            spec_bvh_box(n),
                            spec_bvh_box(*left),
                            spec_bounding_box(fl[i]),
                        );
                    } else {
                        assert(flat[i] == fr[i - fl.len()]);
                        crate::aabb::lemma_contains_trans(
                            spec_bvh_box(n),
                            spec_bvh_box(*right),
                            spec_bounding_box(fr[i - fl.len()]),
                        );
                    }
                }
            },
        }
    }
}

/// The traversal theorem: through any tree satisfying the containment
/// invariant and free of participating media, a ray query answers exactly
/// as the flat closest-hit scan over the tree's objects.  The box tests
/// and the interval narrowing are pure pruning; the nearest hit always
/// survives.
pub proof fn lemma_bvh_equals_scan(n: BVHNode, ray: Ray, t0: int, t1: int)
    requires
        tree_ok(n),
        bvh_media_free(n),
    ensures
        spec_bvh_hit(n, ray, t0, t1) == spec_scan(spec_tree_objects(n), ray, t0, t1),
    decreases n,
{
    let bx = spec_bvh_box(n);
    let nw = spec_narrow(bx, ray, t0, t1);
    let flat = spec_tree_objects(n);
    assert(seq_media_free(flat)) by {
        lemma_flatten_media_free(n);
    }
    if nw.0 < nw.1 {
        crate::aabb::lemma_narrow_shrinks(bx, ray, t0, t1);
        // the narrowed window excludes no admissible member parameter
        assert forall|i: int, t: int|
            0 <= i < flat.len() && #[trigger] in_slab(spec_bounding_box(flat[i]), ray, t) && t0
                <= t < t1 implies nw.0 <= t < nw.1 by {
            lemma_in_slab_mono(bx, spec_bounding_box(flat[i]), ray, t);
            lemma_narrow_start_bound(bx, ray, t0, t1, t);
        }
        lemma_scan_end_lift(flat, ray, t0, t1, nw.1);
        assert forall|i: int, t: int|
            0 <= i < flat.len() && #[trigger] in_slab(spec_bounding_box(flat[i]), ray, t) && t0
                <= t implies nw.0 <= t by {
            lemma_in_slab_mono(bx, spec_bounding_box(flat[i]), ray, t);
            if t < nw.1 {
                lemma_narrow_start_bound(bx, ray, t0, t1, t);
            }
        }
        lemma_scan_start_lift(flat, ray, t0, nw.1, nw.0);
        assert(spec_scan(flat, ray, nw.0, nw.1) == spec_scan(flat, ray, t0, t1));
        match n {
            BVHNode::Leaf { objects, bounding_box: _ } => {
                let nw2 = spec_narrow(objects.bounding_box, ray, nw.0, nw.1);
                assert(spec_narrow(bx, ray, nw.0, nw.1) == nw2);
                lemma_narrow_idempotent(bx, ray, t0, t1);
                assert(nw2 == nw);
                assert(spec_bvh_hit(n, ray, t0, t1) == spec_list_hit(objects, ray, nw.0, nw.1));
                assert(spec_list_hit(objects, ray, nw.0, nw.1) == spec_scan(
                    objects.objects@,
                    ray,
                    nw.0,
                    nw.1,
                ));
                assert(flat == objects.objects@);
                assert(spec_bvh_hit(n, ray, t0, t1) == spec_scan(flat, ray, t0, t1));
            },
            BVHNode::Internal { left, right, bounding_box: _ } => {
                lemma_bvh_equals_scan(*left, ray, nw.0, nw.1);
                let left_hit = spec_bvh_hit(*left, ray, nw.0, nw.1);
                let bound = if left_hit is Some {
                    left_hit->Some_0.t as int
                } else {
                    nw.1
                };
                lemma_bvh_equals_scan(*right, ray, nw.0, bound);
                lemma_scan_concat(
                    spec_tree_objects(*left),
                    spec_tree_objects(*right),
                    ray,
                    nw.0,
                    nw.1,
                );
                assert(flat == spec_tree_objects(*left).add(spec_tree_objects(*right)));
                assert(spec_bvh_hit(n, ray, t0, t1) == spec_scan(flat, ray, nw.0, nw.1));
                assert(spec_bvh_hit(n, ray, t0, t1) == spec_scan(flat, ray, t0, t1));
            },
        }
    } else {
        // the whole window misses the node's box, and so does every member
        lemma_scan_of_pruned(flat, bx, ray, t0, t1);
    }
}

/// Media freedom of a tree carries to its flattened objects.
proof fn lemma_flatten_media_free(n: BVHNode)
    requires
        bvh_media_free(n),
    ensures
        seq_media_free(spec_tree_objects(n)),
    decreases n,
{
    match n {
        BVHNode::Leaf { .. } => {},
        BVHNode::Internal { left, right, bounding_box: _ } => {
            lemma_flatten_media_free(*left);
            lemma_flatten_media_free(*right);
            let fl = spec_tree_objects(*left);
            let fr = spec_tree_objects(*right);
            assert forall|i: int| 0 <= i < fl.len() + fr.len() implies media_free(
                #[trigger] spec_tree_objects(n)[i],
            ) by {
                if i < fl.len() {
                    assert(spec_tree_objects(n)[i] == fl[i]);
                } else {
                    assert(spec_tree_objects(n)[i] == fr[i - fl.len()]);
                }
            }
        },
    }
}

/// Narrowing a window that already came out of the same box's narrowing
/// changes nothing.
proof fn lemma_narrow_idempotent(bx: AABB, ray: Ray, t0: int, t1: int)
    requires
        spec_narrow(bx, ray, t0, t1).0 < spec_narrow(bx, ray, t0, t1).1,
    ensures
        spec_narrow(bx, ray, spec_narrow(bx, ray, t0, t1).0, spec_narrow(bx, ray, t0, t1).1)
            == spec_narrow(bx, ray, t0, t1),
{
    let nw = spec_narrow(bx, ray, t0, t1);
    let nw2 = spec_narrow(bx, ray, nw.0, nw.1);
    crate::aabb::lemma_narrow_shrinks(bx, ray, nw.0, nw.1);
    lemma_narrow_characterizes(bx, ray, t0, t1, nw.0);
    lemma_narrow_characterizes(bx, ray, nw.0, nw.1, nw.0);
    lemma_narrow_characterizes(bx, ray, t0, t1, nw.1 - 1);
    lemma_narrow_characterizes(bx, ray, nw.0, nw.1, nw.1 - 1);
    assert(nw2.0 <= nw.0 && nw.1 - 1 < nw2.1);
    assert(nw2 == nw);
}

/// When a window misses the node's box entirely, the flat scan over
/// contained objects misses as well.
proof fn lemma_scan_of_pruned(objs: Seq<Hittable>, bx: AABB, ray: Ray, t0: int, t1: int)
    requires
        forall|i: int|
            0 <= i < objs.len() ==> aabb_wf(#[trigger] spec_bounding_box(objs[i]))
                && aabb_contains(bx, spec_bounding_box(objs[i])),
        !(spec_narrow(bx, ray, t0, t1).0 < spec_narrow(bx, ray, t0, t1).1),
    ensures
        spec_scan(objs, ray, t0, t1) is None,
    decreases objs,
{
    if objs.len() > 0 {
        let rest = objs.subrange(1, objs.len() as int);
        assert(forall|i: int| 0 <= i < rest.len() ==> rest[i] == objs[i + 1]);
        lemma_hit_in_slab(objs[0], ray, t0, t1);
        match spec_hit(objs[0], ray, t0, t1) {
            Some(rec) => {
                lemma_in_slab_mono(bx, spec_bounding_box(objs[0]), ray, rec.t as int);
                lemma_narrow_characterizes(bx, ray, t0, t1, rec.t as int);
                assert(false);
            },
            None => {
                lemma_scan_of_pruned(rest, bx, ray, t0, t1);
            },
        }
    }
}

/// Media freedom of the input carries through the builder to the tree.
pub proof fn lemma_build_media_free(n: BVHNode, s: Seq<Hittable>)
    requires
        spec_build_matches(n, s),
        seq_media_free(s),
    ensures
        bvh_media_free(n),
    decreases s.len(),
{
    let bb = crate::bvh::spec_fold_box(s);
    let axis = crate::aabb::spec_longest_axis(bb);
    if s.len() <= crate::bvh::LEAF_THRESHOLD {
    } else {
        match n {
            BVHNode::Leaf { .. } => {},
            BVHNode::Internal { left, right, bounding_box: _ } => {
                let sorted = crate::bvh::spec_sort_axis(s, axis as int);
                let mid = s.len() as int / 2;
                crate::bvh::lemma_sort_axis_preserves(s, axis as int);
                assert(seq_media_free(sorted.subrange(mid, s.len() as int))) by {
                    assert forall|i: int|
                        0 <= i < sorted.subrange(mid, s.len() as int).len() implies media_free(
                        #[trigger] sorted.subrange(mid, s.len() as int)[i],
                    ) by {
                        assert(sorted.subrange(mid, s.len() as int)[i] == sorted[mid + i]);
                    }
                }
                assert(seq_media_free(sorted.subrange(0, mid))) by {
                    assert forall|i: int| 0 <= i < sorted.subrange(0, mid).len() implies media_free(
                        #[trigger] sorted.subrange(0, mid)[i],
                    ) by {
                        assert(sorted.subrange(0, mid)[i] == sorted[i]);
                    }
                }
                lemma_build_media_free(*left, sorted.subrange(mid, s.len() as int));
                lemma_build_media_free(*right, sorted.subrange(0, mid));
            },
        }
    }
}

/// No false negatives, closest hit first: a tree built from media-free
/// objects with representable boxes answers every ray query exactly as the
/// flat closest-hit scan over the objects it stores.  In particular a
/// primitive hit inside the query window can never be lost to box pruning,
/// and of two overlapping objects the nearer hit always wins, exactly as a
/// full scan would decide.
pub proof fn lemma_built_tree_equals_scan(
    n: BVHNode,
    s: Seq<Hittable>,
    ray: Ray,
    t0: int,
    t1: int,
)
    requires
        spec_build_matches(n, s),
        crate::bvh::all_boxes_wf(s),
        seq_media_free(s),
    ensures
        spec_bvh_hit(n, ray, t0, t1) == spec_scan(spec_tree_objects(n), ray, t0, t1),
{
    lemma_build_tree_ok(n, s);
    lemma_build_media_free(n, s);
    lemma_bvh_equals_scan(n, ray, t0, t1);
}

} // verus!
