//! The capability every scene object offers: ray intersection within a
//! half-open parameter interval, and bounding-box retrieval.  The closed set
//! of object kinds is a tagged union, so the hot traversal path pays no
//! indirect calls, and every kind's `hit` is proved equal to its
//! specification model.

use vstd::prelude::*;

use crate::aabb::{aabb_wf, spec_narrow, spec_shift, AABB};
use crate::bvh::BVHNode;
use crate::constant_medium::ConstantMedium;
use crate::hittable_list::HittableList;
use crate::num::SCALE;
use crate::parallelogram::Parallelogram;
use crate::point3::{spec_dot_raw, spec_rotate_y, spec_unit_vector, within, Point3, Vector3};
use crate::quadric::Quadric;
use crate::ray::{Ray, RayInterval};
use crate::sphere::Sphere;
use crate::triangle::Triangle;

verus! {

/// Magnitude bound on scene geometry (centers, corners, offsets, ray origins
/// and directions) within which the intersection routines do their work; a
/// ray or shape outside it reports no hit.
pub const GEOM_LIMIT: i64 = 1_000_000_000;

/// A box lies within the geometry range on all axes.
pub open spec fn aabb_bounded(b: AABB) -> bool {
    &&& -GEOM_LIMIT < b.x.start < GEOM_LIMIT && -GEOM_LIMIT < b.x.end < GEOM_LIMIT
    &&& -GEOM_LIMIT < b.y.start < GEOM_LIMIT && -GEOM_LIMIT < b.y.end < GEOM_LIMIT
    &&& -GEOM_LIMIT < b.z.start < GEOM_LIMIT && -GEOM_LIMIT < b.z.end < GEOM_LIMIT
}

/// The ray lies within the geometry range.
pub open spec fn ray_bounded(ray: Ray) -> bool {
    within(ray.origin, GEOM_LIMIT as int) && within(ray.direction, GEOM_LIMIT as int)
}

/// The componentwise difference of two bounded points.
pub open spec fn spec_sub(a: Point3, b: Point3) -> Point3 {
    Point3 { x: (a.x - b.x) as i64, y: (a.y - b.y) as i64, z: (a.z - b.z) as i64 }
}

/// Whether all components lie strictly within the geometry range.
pub fn point_in_geom(p: &Point3) -> (r: bool)
    ensures
        r == within(*p, GEOM_LIMIT as int),
{
    -GEOM_LIMIT < p.x && p.x < GEOM_LIMIT && -GEOM_LIMIT < p.y && p.y < GEOM_LIMIT && -GEOM_LIMIT
        < p.z && p.z < GEOM_LIMIT
}

/// Whether a box lies within the geometry range.
pub fn box_in_geom(b: &AABB) -> (r: bool)
    ensures
        r == aabb_bounded(*b),
{
    -GEOM_LIMIT < b.x.start && b.x.start < GEOM_LIMIT && -GEOM_LIMIT < b.x.end && b.x.end
        < GEOM_LIMIT && -GEOM_LIMIT < b.y.start && b.y.start < GEOM_LIMIT && -GEOM_LIMIT < b.y.end
        && b.y.end < GEOM_LIMIT && -GEOM_LIMIT < b.z.start && b.z.start < GEOM_LIMIT && -GEOM_LIMIT
        < b.z.end && b.z.end < GEOM_LIMIT
}

/// The coordinates of a hit point in a given surface, for texture lookup.
#[derive(Clone, Copy, PartialEq, Eq, Structural, Debug)]
pub struct SurfaceCoordinate {
    pub u: i64,
    pub v: i64,
}

/// A grouping of parameters related to a ray-object intersection: the hit
/// point, the surface normal there (not necessarily unit length; oriented
/// against the incoming ray), the handle of the material at the surface, the
/// ray parameter, the surface coordinates, and which side was struck.
#[derive(Clone, Copy, PartialEq, Eq, Structural, Debug)]
pub struct HitRecord {
    /// Point of intersection.
    pub p: Point3,
    /// Normal at that point.
    pub normal: Vector3,
    /// Handle of the material at the given intersection, an index into the
    /// scene's material table.
    pub material: u32,
    /// Parameter of the ray at the intersection.
    pub t: i128,
    /// Coordinates of the point of intersection in the surface.
    pub surface_coords: SurfaceCoordinate,
    /// Whether the intersection is on the front or back of the surface.
    pub front_face: bool,
}

/// Whether `outward_normal` faces against the ray (a front-face hit).
pub open spec fn spec_front_face(ray: Ray, outward_normal: Vector3) -> bool {
    spec_dot_raw(outward_normal, ray.direction) < 0
}

/// `rec` with its normal oriented against the ray and the side recorded.
pub open spec fn spec_with_face_normal(rec: HitRecord, ray: Ray, outward_normal: Vector3) -> HitRecord {
    let ff = spec_front_face(ray, outward_normal);
    HitRecord {
        normal: if ff {
            outward_normal
        } else {
            Point3 { x: -outward_normal.x as i64, y: -outward_normal.y as i64, z: -outward_normal.z as i64 }
        },
        front_face: ff,
        ..rec
    }
}

impl HitRecord {
    /// Record which side of the surface was hit and orient the normal
    /// against the incoming ray.
    pub fn set_face_normal(&mut self, ray: &Ray, outward_normal: Vector3)
        requires
            within(outward_normal, crate::point3::POINT_LIMIT as int),
            within(ray.direction, crate::point3::POINT_LIMIT as int),
        ensures
            *final(self) == spec_with_face_normal(*old(self), *ray, outward_normal),
    {
        let ff = crate::point3::dot_raw(&outward_normal, &ray.direction) < 0;
        self.front_face = ff;
        self.normal = if ff {
            outward_normal
        } else {
            Point3 { x: -outward_normal.x, y: -outward_normal.y, z: -outward_normal.z }
        };
    }
}

/// An instance of translation: the wrapped object shifted by an offset.
/// The ray is moved backward instead of the geometry.
pub struct Translate {
    pub object: Box<Hittable>,
    pub offset: Vector3,
    pub bounding_box: AABB,
}

/// An instance of rotation about the y axis, given by the fixed-point sine
/// and cosine of the angle.  The ray is rotated into object space and the
/// hit rotated back.
pub struct RotateY {
    pub object: Box<Hittable>,
    pub sin_theta: i64,
    pub cos_theta: i64,
    pub bounding_box: AABB,
}

/// Any scene entity satisfying the intersection capability.  A closed set of
/// kinds, so the recursion over a scene needs no indirect calls.
pub enum Hittable {
    Sphere(Sphere),
    Parallelogram(Parallelogram),
    Triangle(Triangle),
    Quadric(Quadric),
    Translate(Translate),
    RotateY(RotateY),
    ConstantMedium(ConstantMedium),
    List(HittableList),
    Bvh(Box<BVHNode>),
}

/// The bounding box of a scene entity; every kind precomputes its own, and
/// a medium reports its boundary's.
pub open spec fn spec_bounding_box(h: Hittable) -> AABB
    decreases h,
{
    match h {
        Hittable::Sphere(s) => s.bounding_box,
        Hittable::Parallelogram(p) => p.bounding_box,
        Hittable::Triangle(t) => t.bounding_box,
        Hittable::Quadric(q) => q.bounding_box,
        Hittable::Translate(t) => t.bounding_box,
        Hittable::RotateY(r) => r.bounding_box,
        Hittable::ConstantMedium(m) => spec_bounding_box(*m.boundary),
        Hittable::List(l) => l.bounding_box,
        Hittable::Bvh(b) => spec_bvh_box(*b),
    }
}

/// The bounding box stored at a BVH node.
pub open spec fn spec_bvh_box(n: BVHNode) -> AABB {
    match n {
        BVHNode::Leaf { objects: _, bounding_box } => bounding_box,
        BVHNode::Internal { left: _, right: _, bounding_box } => bounding_box,
    }
}

/// The range check for the translation wrapper.
pub open spec fn spec_translate_fits(t: Translate, ray: Ray) -> bool {
    ray_bounded(ray) && within(t.offset, GEOM_LIMIT as int) && aabb_bounded(t.bounding_box)
}

/// The range check for the rotation wrapper.
pub open spec fn spec_rotate_fits(r: RotateY, ray: Ray) -> bool {
    &&& ray_bounded(ray)
    &&& -SCALE <= r.sin_theta <= SCALE
    &&& -SCALE <= r.cos_theta <= SCALE
    &&& aabb_bounded(r.bounding_box)
}

/// The componentwise sum of two points, saturated into the representable
/// range.
pub open spec fn spec_add_sat(a: Point3, b: Point3) -> Point3 {
    Point3 {
        x: crate::num::spec_sat(a.x + b.x) as i64,
        y: crate::num::spec_sat(a.y + b.y) as i64,
        z: crate::num::spec_sat(a.z + b.z) as i64,
    }
}

/// The componentwise sum of two points, saturated into the representable
/// range.
pub fn add_sat(a: &Point3, b: &Point3) -> (r: Point3)
    ensures
        r == spec_add_sat(*a, *b),
{
    Point3 {
        x: crate::num::sat((a.x as i128) + (b.x as i128)),
        y: crate::num::sat((a.y as i128) + (b.y as i128)),
        z: crate::num::sat((a.z as i128) + (b.z as i128)),
    }
}

/// The hit model of any scene entity on the half-open window `[t0, t1)`:
/// what the executable `hit` returns, case by case.  Every kind first
/// narrows the window through its own bounding box, so any hit's parameter
/// is admitted by the slabs of the box it is filed under.
pub open spec fn spec_hit(h: Hittable, ray: Ray, t0: int, t1: int) -> Option<HitRecord>
    decreases h,
{
    match h {
        Hittable::Sphere(s) => crate::sphere::spec_sphere_hit(s, ray, t0, t1),
        Hittable::Parallelogram(p) => crate::parallelogram::spec_parallelogram_hit(p, ray, t0, t1),
        Hittable::Triangle(t) => crate::triangle::spec_triangle_hit(t, ray, t0, t1),
        Hittable::Quadric(q) => crate::quadric::spec_quadric_hit(q, ray, t0, t1),
        Hittable::Translate(t) => {
            if !spec_translate_fits(t, ray) {
                None
            } else {
                let nw = spec_narrow(t.bounding_box, ray, t0, t1);
                if !(nw.0 < nw.1) {
                    None
                } else {
                    let offset_ray = Ray {
                        origin: spec_sub(ray.origin, t.offset),
                        direction: ray.direction,
                        free_path: ray.free_path,
                    };
                    match spec_hit(*t.object, offset_ray, nw.0, nw.1) {
                        None => None,
                        Some(rec) => Some(HitRecord { p: spec_add_sat(rec.p, t.offset), ..rec }),
                    }
                }
            }
        },
        Hittable::RotateY(r) => {
            if !spec_rotate_fits(r, ray) {
                None
            } else {
                let nw = spec_narrow(r.bounding_box, ray, t0, t1);
                if !(nw.0 < nw.1) {
                    None
                } else {
                    let rotated_ray = Ray {
                        origin: spec_rotate_y(ray.origin, r.cos_theta as int, r.sin_theta as int),
                        direction: spec_rotate_y(
                            ray.direction,
                            r.cos_theta as int,
                            r.sin_theta as int,
                        ),
                        free_path: ray.free_path,
                    };
                    match spec_hit(*r.object, rotated_ray, nw.0, nw.1) {
                        None => None,
                        Some(rec) => Some(
                            HitRecord {
                                p: spec_rotate_y(rec.p, r.cos_theta as int, -r.sin_theta as int),
                                normal: spec_rotate_y(
                                    spec_unit_vector(rec.normal),
                                    r.cos_theta as int,
                                    -r.sin_theta as int,
                                ),
                                ..rec
                            },
                        ),
                    }
                }
            }
        },
        Hittable::ConstantMedium(m) => crate::constant_medium::spec_medium_hit(m, ray, t0, t1),
        Hittable::List(l) => spec_list_hit(l, ray, t0, t1),
        Hittable::Bvh(b) => spec_bvh_hit(*b, ray, t0, t1),
    }
}

/// The hit model of the flat collection: narrow through the collection's
/// aggregate box, then scan the members in order for the closest hit.
pub open spec fn spec_list_hit(l: HittableList, ray: Ray, t0: int, t1: int) -> Option<HitRecord>
    decreases l,
{
    let nw = spec_narrow(l.bounding_box, ray, t0, t1);
    if !(nw.0 < nw.1) {
        None
    } else {
        spec_scan(l.objects@, ray, nw.0, nw.1)
    }
}

/// The closest-hit scan over a sequence of objects: each member is probed
/// with the upper bound shrunk to the best hit found so far, so a later
/// member can only win by being strictly nearer.
pub open spec fn spec_scan(objs: Seq<Hittable>, ray: Ray, t0: int, t1: int) -> Option<HitRecord>
    decreases objs,
{
    if objs.len() == 0 {
        None
    } else {
        match spec_hit(objs[0], ray, t0, t1) {
            Some(rec) => match spec_scan(objs.subrange(1, objs.len() as int), ray, t0, rec.t as int) {
                Some(rec2) => Some(rec2),
                None => Some(rec),
            },
            None => spec_scan(objs.subrange(1, objs.len() as int), ray, t0, t1),
        }
    }
}

/// The hit model of a BVH node: narrow through the node's box; a leaf scans
/// its flat collection, and an internal node probes the left child first and
/// then the right child with the upper bound shrunk to the left child's hit,
/// preferring the right child's (strictly nearer) hit when both report one.
pub open spec fn spec_bvh_hit(n: BVHNode, ray: Ray, t0: int, t1: int) -> Option<HitRecord>
    decreases n,
{
    let nw = spec_narrow(spec_bvh_box(n), ray, t0, t1);
    if !(nw.0 < nw.1) {
        None
    } else {
        match n {
            BVHNode::Leaf { objects, bounding_box: _ } => spec_list_hit(objects, ray, nw.0, nw.1),
            BVHNode::Internal { left, right, bounding_box: _ } => {
                let left_hit = spec_bvh_hit(*left, ray, nw.0, nw.1);
                let bound = if left_hit is Some {
                    left_hit->Some_0.t as int
                } else {
                    nw.1
                };
                match spec_bvh_hit(*right, ray, nw.0, bound) {
                    Some(rec) => Some(rec),
                    None => left_hit,
                }
            },
        }
    }
}

impl Translate {
    /// A translation of the given object; the bounding box is the object's
    /// box shifted by the offset.
    pub fn new(object: Hittable, offset: Vector3) -> (r: Translate)
        requires
            aabb_wf(spec_bounding_box(object)),
        ensures
            r.object == object,
            r.offset == offset,
            r.bounding_box == spec_shift(spec_bounding_box(object), offset),
            aabb_wf(r.bounding_box),
    {
        let bounding_box = object.bounding_box().shifted(&offset);
        Translate { object: Box::new(object), offset, bounding_box }
    }
}

impl Hittable {
    /// The object's bounding box, precomputed at construction.
    pub fn bounding_box(&self) -> (r: AABB)
        ensures
            r == spec_bounding_box(*self),
        decreases *self,
    {
        match self {
            Hittable::Sphere(s) => s.bounding_box,
            Hittable::Parallelogram(p) => p.bounding_box,
            Hittable::Triangle(t) => t.bounding_box,
            Hittable::Quadric(q) => q.bounding_box,
            Hittable::Translate(t) => t.bounding_box,
            Hittable::RotateY(r) => r.bounding_box,
            Hittable::ConstantMedium(m) => m.boundary.bounding_box(),
            Hittable::List(l) => l.bounding_box,
            Hittable::Bvh(b) => b.bounding_box(),
        }
    }

    /// Ray-object intersection: the nearest hit of this object with ray
    /// parameter in the half-open interval, or nothing.
    pub fn hit(&self, ray: &Ray, ray_t: &RayInterval) -> (res: Option<HitRecord>)
        ensures
            res == spec_hit(*self, *ray, ray_t.start as int, ray_t.end as int),
        decreases *self,
    {
        match self {
            Hittable::Sphere(s) => s.hit(ray, ray_t),
            Hittable::Parallelogram(p) => p.hit(ray, ray_t),
            Hittable::Triangle(t) => t.hit(ray, ray_t),
            Hittable::Quadric(q) => q.hit(ray, ray_t),
            Hittable::Translate(t) => {
                if !(point_in_geom(&ray.origin) && point_in_geom(&ray.direction) && point_in_geom(
                    &t.offset,
                ) && box_in_geom(&t.bounding_box)) {
                    return None;
                }
                let mut reduced = *ray_t;
                if !t.bounding_box.hit(ray, &mut reduced) {
                    return None;
                }
                let offset_ray = Ray {
                    origin: ray.origin.sub(&t.offset),
                    direction: ray.direction,
                    free_path: ray.free_path,
                };
                match t.object.hit(&offset_ray, &reduced) {
                    None => None,
                    Some(rec) => Some(HitRecord { p: add_sat(&rec.p, &t.offset), ..rec }),
                }
            },
            Hittable::RotateY(r) => {
                if !(point_in_geom(&ray.origin) && point_in_geom(&ray.direction) && -(SCALE as i64)
                    <= r.sin_theta && r.sin_theta <= SCALE as i64 && -(SCALE as i64) <= r.cos_theta
                    && r.cos_theta <= SCALE as i64 && box_in_geom(&r.bounding_box)) {
                    return None;
                }
                let mut reduced = *ray_t;
                if !r.bounding_box.hit(ray, &mut reduced) {
                    return None;
                }
                let rotated_ray = Ray {
                    origin: crate::point3::rotate_y(&ray.origin, r.cos_theta, r.sin_theta),
                    direction: crate::point3::rotate_y(&ray.direction, r.cos_theta, r.sin_theta),
                    free_path: ray.free_path,
                };
                match r.object.hit(&rotated_ray, &reduced) {
                    None => None,
                    Some(rec) => {
                        proof {
                            lemma_rec_bounds(
                                *r.object,
                                rotated_ray,
                                reduced.start as int,
                                reduced.end as int,
                            );
                        }
                        let unit_normal = crate::point3::unit_vector(rec.normal);
                        Some(
                            HitRecord {
                                p: crate::point3::rotate_y(&rec.p, r.cos_theta, -r.sin_theta),
                                normal: crate::point3::rotate_y(
                                    &unit_normal,
                                    r.cos_theta,
                                    -r.sin_theta,
                                ),
                                ..rec
                            },
                        )
                    },
                }
            },
            Hittable::ConstantMedium(m) => m.hit(ray, ray_t),
            Hittable::List(l) => l.hit(ray, ray_t),
            Hittable::Bvh(b) => b.hit(ray, ray_t),
        }
    }
}

/// Every hit record that the model can produce carries a point inside the
/// saturation range and a normal of bounded magnitude, so wrappers can
/// transform it without overflow.
#[verifier::rlimit(100)]
pub proof fn lemma_rec_bounds(h: Hittable, ray: Ray, t0: int, t1: int)
    ensures
        spec_hit(h, ray, t0, t1) is Some ==> {
            let rec = spec_hit(h, ray, t0, t1)->Some_0;
            &&& within(rec.p, crate::num::COORD_SAT as int + 1)
            &&& within(rec.normal, 300_000_000_000_000_000)
        },
    decreases h,
{
    match h {
        Hittable::Translate(t) => {
            if spec_translate_fits(t, ray) {
                let nw = spec_narrow(t.bounding_box, ray, t0, t1);
                let offset_ray = Ray {
                    origin: spec_sub(ray.origin, t.offset),
                    direction: ray.direction,
                    free_path: ray.free_path,
                };
                lemma_rec_bounds(*t.object, offset_ray, nw.0, nw.1);
                assert(spec_hit(h, ray, t0, t1) is Some ==> within(
                    spec_hit(h, ray, t0, t1)->Some_0.p,
                    crate::num::COORD_SAT as int + 1,
                ));
            }
        },
        Hittable::RotateY(r) => {
            if spec_rotate_fits(r, ray) {
                let nw = spec_narrow(r.bounding_box, ray, t0, t1);
                let rotated_ray = Ray {
                    origin: spec_rotate_y(ray.origin, r.cos_theta as int, r.sin_theta as int),
                    direction: spec_rotate_y(ray.direction, r.cos_theta as int, r.sin_theta as int),
                    free_path: ray.free_path,
                };
                lemma_rec_bounds(*r.object, rotated_ray, nw.0, nw.1);
                if spec_hit(h, ray, t0, t1) is Some {
                    assert(nw.0 < nw.1);
                    let child = spec_hit(*r.object, rotated_ray, nw.0, nw.1);
                    assert(child is Some);
                    let crec = child->Some_0;
                    assert(within(crec.p, crate::num::COORD_SAT as int + 1));
                    let res = spec_hit(h, ray, t0, t1)->Some_0;
                    assert(res.p == spec_rotate_y(
                        crec.p,
                        r.cos_theta as int,
                        -r.sin_theta as int,
                    ));
                    assert(within(res.p, crate::num::COORD_SAT as int + 1));
                    assert(res.normal == spec_rotate_y(
                        spec_unit_vector(crec.normal),
                        r.cos_theta as int,
                        -r.sin_theta as int,
                    ));
                    assert(within(res.normal, crate::num::COORD_SAT as int + 1));
                }
            }
        },
        Hittable::List(l) => {
            let nw = spec_narrow(l.bounding_box, ray, t0, t1);
            if nw.0 < nw.1 {
                lemma_scan_rec_bounds(l.objects@, ray, nw.0, nw.1);
                assert(spec_hit(h, ray, t0, t1) == spec_list_hit(l, ray, t0, t1));
                assert(spec_list_hit(l, ray, t0, t1) == spec_scan(l.objects@, ray, nw.0, nw.1));
            } else {
                assert(spec_list_hit(l, ray, t0, t1) is None);
            }
        },
        Hittable::Bvh(b) => {
            lemma_bvh_rec_bounds(*b, ray, t0, t1);
            assert(spec_hit(h, ray, t0, t1) is Some ==> within(
                spec_hit(h, ray, t0, t1)->Some_0.p,
                crate::num::COORD_SAT as int + 1,
            ) && within(spec_hit(h, ray, t0, t1)->Some_0.normal, 300_000_000_000_000_000));
        },
        Hittable::Sphere(s0) => {
            crate::sphere::lemma_sphere_rec_bounds(s0, ray, t0, t1);
            assert(spec_hit(h, ray, t0, t1) is Some ==> within(
                spec_hit(h, ray, t0, t1)->Some_0.p,
                crate::num::COORD_SAT as int + 1,
            ) && within(spec_hit(h, ray, t0, t1)->Some_0.normal, 300_000_000_000_000_000));
        },
        Hittable::Parallelogram(p0) => {
            crate::parallelogram::lemma_parallelogram_rec_bounds(p0, ray, t0, t1);
            assert(spec_hit(h, ray, t0, t1) is Some ==> within(
                spec_hit(h, ray, t0, t1)->Some_0.p,
                crate::num::COORD_SAT as int + 1,
            ) && within(spec_hit(h, ray, t0, t1)->Some_0.normal, 300_000_000_000_000_000));
        },
        Hittable::Triangle(tr0) => {
            crate::triangle::lemma_triangle_rec_bounds(tr0, ray, t0, t1);
            assert(spec_hit(h, ray, t0, t1) is Some ==> within(
                spec_hit(h, ray, t0, t1)->Some_0.p,
                crate::num::COORD_SAT as int + 1,
            ) && within(spec_hit(h, ray, t0, t1)->Some_0.normal, 300_000_000_000_000_000));
        },
        Hittable::Quadric(q0) => {
            crate::quadric::lemma_quadric_rec_bounds(q0, ray, t0, t1);
            assert(spec_hit(h, ray, t0, t1) is Some ==> within(
                spec_hit(h, ray, t0, t1)->Some_0.p,
                crate::num::COORD_SAT as int + 1,
            ) && within(spec_hit(h, ray, t0, t1)->Some_0.normal, 300_000_000_000_000_000));
        },
        Hittable::ConstantMedium(m0) => {
            crate::constant_medium::lemma_medium_rec_bounds(m0, ray, t0, t1);
            assert(spec_hit(h, ray, t0, t1) is Some ==> within(
                spec_hit(h, ray, t0, t1)->Some_0.p,
                crate::num::COORD_SAT as int + 1,
            ) && within(spec_hit(h, ray, t0, t1)->Some_0.normal, 300_000_000_000_000_000));
        },
    }
}

/// Record bounds for the scan over a sequence of objects.
#[verifier::rlimit(100)]
pub proof fn lemma_scan_rec_bounds(objs: Seq<Hittable>, ray: Ray, t0: int, t1: int)
    ensures
        spec_scan(objs, ray, t0, t1) is Some ==> {
            let rec = spec_scan(objs, ray, t0, t1)->Some_0;
            &&& within(rec.p, crate::num::COORD_SAT as int + 1)
            &&& within(rec.normal, 300_000_000_000_000_000)
        },
    decreases objs,
{
    if objs.len() > 0 {
        lemma_rec_bounds(objs[0], ray, t0, t1);
        match spec_hit(objs[0], ray, t0, t1) {
            Some(rec) => {
                lemma_scan_rec_bounds(objs.subrange(1, objs.len() as int), ray, t0, rec.t as int);
            },
            None => {
                lemma_scan_rec_bounds(objs.subrange(1, objs.len() as int), ray, t0, t1);
            },
        }
    }
}

/// Record bounds for BVH traversal.
#[verifier::rlimit(100)]
pub proof fn lemma_bvh_rec_bounds(n: BVHNode, ray: Ray, t0: int, t1: int)
    ensures
        spec_bvh_hit(n, ray, t0, t1) is Some ==> {
            let rec = spec_bvh_hit(n, ray, t0, t1)->Some_0;
            &&& within(rec.p, crate::num::COORD_SAT as int + 1)
            &&& within(rec.normal, 300_000_000_000_000_000)
        },
    decreases n,
{
    let res = spec_bvh_hit(n, ray, t0, t1);
    let nw = spec_narrow(spec_bvh_box(n), ray, t0, t1);
    if nw.0 < nw.1 {
        match n {
            BVHNode::Leaf { objects, bounding_box: _ } => {
                assert(res == spec_list_hit(objects, ray, nw.0, nw.1));
                let nw2 = spec_narrow(objects.bounding_box, ray, nw.0, nw.1);
                if nw2.0 < nw2.1 {
                    lemma_scan_rec_bounds(objects.objects@, ray, nw2.0, nw2.1);
                    assert(res == spec_scan(objects.objects@, ray, nw2.0, nw2.1));
                } else {
                    assert(res is None);
                }
            },
            BVHNode::Internal { left, right, bounding_box: _ } => {
                lemma_bvh_rec_bounds(*left, ray, nw.0, nw.1);
                let left_hit = spec_bvh_hit(*left, ray, nw.0, nw.1);
                let bound = if left_hit is Some {
                    left_hit->Some_0.t as int
                } else {
                    nw.1
                };
                lemma_bvh_rec_bounds(*right, ray, nw.0, bound);
                let right_hit = spec_bvh_hit(*right, ray, nw.0, bound);
                assert(res == (if right_hit is Some {
                    right_hit
                } else {
                    left_hit
                }));
            },
        }
    } else {
        assert(res is None);
    }
}


/// The lesser of four integers.
pub open spec fn imin4(a: int, b: int, c: int, d: int) -> int {
    crate::aabb::imin(crate::aabb::imin(a, b), crate::aabb::imin(c, d))
}

/// The greater of four integers.
pub open spec fn imax4(a: int, b: int, c: int, d: int) -> int {
    crate::aabb::imax(crate::aabb::imax(a, b), crate::aabb::imax(c, d))
}

/// The image of a box under the object-to-world rotation about the y axis:
/// all four corner combinations on the rotating axes, with the entry side
/// rounded down and the exit side rounded up, then reordered and padded.
pub open spec fn spec_rotated_box(b: AABB, cos_theta: int, sin_theta: int) -> AABB {
    let xl = b.x.start as int;
    let xh = b.x.end as int;
    let zl = b.z.start as int;
    let zh = b.z.end as int;
    let xmin = imin4(
        cos_theta * xl + sin_theta * zl,
        cos_theta * xl + sin_theta * zh,
        cos_theta * xh + sin_theta * zl,
        cos_theta * xh + sin_theta * zh,
    );
    let xmax = imax4(
        cos_theta * xl + sin_theta * zl,
        cos_theta * xl + sin_theta * zh,
        cos_theta * xh + sin_theta * zl,
        cos_theta * xh + sin_theta * zh,
    );
    let zmin = imin4(
        cos_theta * zl - sin_theta * xl,
        cos_theta * zh - sin_theta * xl,
        cos_theta * zl - sin_theta * xh,
        cos_theta * zh - sin_theta * xh,
    );
    let zmax = imax4(
        cos_theta * zl - sin_theta * xl,
        cos_theta * zh - sin_theta * xl,
        cos_theta * zl - sin_theta * xh,
        cos_theta * zh - sin_theta * xh,
    );
    crate::aabb::spec_aabb_from_points(
        Point3 {
            x: crate::aabb::spec_box_sat(crate::num::spec_fdiv(xmin, SCALE as int)) as i64,
            y: crate::aabb::spec_box_sat(b.y.start as int) as i64,
            z: crate::aabb::spec_box_sat(crate::num::spec_fdiv(zmin, SCALE as int)) as i64,
        },
        Point3 {
            x: crate::aabb::spec_box_sat(-crate::num::spec_fdiv(-xmax, SCALE as int)) as i64,
            y: crate::aabb::spec_box_sat(b.y.end as int) as i64,
            z: crate::aabb::spec_box_sat(-crate::num::spec_fdiv(-zmax, SCALE as int)) as i64,
        },
    )
}

impl RotateY {
    /// A rotation of the given object about the y axis, given the
    /// fixed-point sine and cosine of the angle; the bounding box encloses
    /// all rotated corners of the object's box.
    pub fn new(object: Hittable, cos_theta: i64, sin_theta: i64) -> (r: RotateY)
        requires
            aabb_wf(spec_bounding_box(object)),
            -SCALE <= cos_theta <= SCALE,
            -SCALE <= sin_theta <= SCALE,
        ensures
            r.object == object,
            r.cos_theta == cos_theta,
            r.sin_theta == sin_theta,
            r.bounding_box == spec_rotated_box(
                spec_bounding_box(object),
                cos_theta as int,
                sin_theta as int,
            ),
            aabb_wf(r.bounding_box),
    {
        let b = object.bounding_box();
        let cc: i128 = cos_theta as i128;
        let ss: i128 = sin_theta as i128;
        let xl: i128 = b.x.start as i128;
        let xh: i128 = b.x.end as i128;
        let zl: i128 = b.z.start as i128;
        let zh: i128 = b.z.end as i128;
        proof {
            crate::num::lemma_abs_mul(cc as int, xl as int, 10_001, 0x8000_0000_0000_0000);
            crate::num::lemma_abs_mul(cc as int, xh as int, 10_001, 0x8000_0000_0000_0000);
            crate::num::lemma_abs_mul(cc as int, zl as int, 10_001, 0x8000_0000_0000_0000);
            crate::num::lemma_abs_mul(cc as int, zh as int, 10_001, 0x8000_0000_0000_0000);
            crate::num::lemma_abs_mul(ss as int, xl as int, 10_001, 0x8000_0000_0000_0000);
            crate::num::lemma_abs_mul(ss as int, xh as int, 10_001, 0x8000_0000_0000_0000);
            crate::num::lemma_abs_mul(ss as int, zl as int, 10_001, 0x8000_0000_0000_0000);
            crate::num::lemma_abs_mul(ss as int, zh as int, 10_001, 0x8000_0000_0000_0000);
        }
        let xmin: i128 = crate::num::min_i128(
            crate::num::min_i128(cc * xl + ss * zl, cc * xl + ss * zh),
            crate::num::min_i128(cc * xh + ss * zl, cc * xh + ss * zh),
        );
        let xmax: i128 = crate::num::max_i128(
            crate::num::max_i128(cc * xl + ss * zl, cc * xl + ss * zh),
            crate::num::max_i128(cc * xh + ss * zl, cc * xh + ss * zh),
        );
        let zmin: i128 = crate::num::min_i128(
            crate::num::min_i128(cc * zl - ss * xl, cc * zh - ss * xl),
            crate::num::min_i128(cc * zl - ss * xh, cc * zh - ss * xh),
        );
        let zmax: i128 = crate::num::max_i128(
            crate::num::max_i128(cc * zl - ss * xl, cc * zh - ss * xl),
            crate::num::max_i128(cc * zl - ss * xh, cc * zh - ss * xh),
        );
        proof {
            crate::num::lemma_fdiv_within(xmin as int, SCALE as int);
            crate::num::lemma_fdiv_within(zmin as int, SCALE as int);
            crate::num::lemma_fdiv_within(-xmax as int, SCALE as int);
            crate::num::lemma_fdiv_within(-zmax as int, SCALE as int);
        }
        let lo = Point3 {
            x: crate::aabb::box_sat(crate::num::fdiv(xmin, SCALE)),
            y: crate::aabb::box_sat(b.y.start as i128),
            z: crate::aabb::box_sat(crate::num::fdiv(zmin, SCALE)),
        };
        let hi = Point3 {
            x: crate::aabb::box_sat(-crate::num::fdiv(-xmax, SCALE)),
            y: crate::aabb::box_sat(b.y.end as i128),
            z: crate::aabb::box_sat(-crate::num::fdiv(-zmax, SCALE)),
        };
        let bounding_box = crate::aabb::aabb_from_points(lo, hi);
        RotateY { object: Box::new(object), sin_theta, cos_theta, bounding_box }
    }
}

} // verus!
