//! A flat collection of scene objects with an aggregate bounding box,
//! offering linear-scan closest-hit intersection as the leaf strategy of
//! the hierarchy and as a standalone fallback.

use vstd::prelude::*;

use crate::aabb::{aabb_wf, spec_join, AABB};
use crate::hittable::{spec_bounding_box, spec_hit, spec_list_hit, spec_scan, HitRecord, Hittable};
use crate::point3::Point3;
use crate::ray::{Ray, RayInterval};

verus! {

/// An ordered collection of scene objects plus a running union box,
/// extended on every insertion.
pub struct HittableList {
    pub objects: Vec<Hittable>,
    pub bounding_box: AABB,
}

impl Default for HittableList {
    /// The empty collection, with the default box around the origin.
    fn default() -> (r: HittableList)
        ensures
            r.objects@ =~= Seq::<Hittable>::empty(),
            r.bounding_box == crate::aabb::spec_aabb_from_points(
                Point3 { x: 0, y: 0, z: 0 },
                Point3 { x: 0, y: 0, z: 0 },
            ),
            aabb_wf(r.bounding_box),
    {
        HittableList::new()
    }
}

impl HittableList {
    /// The empty collection, with the default box around the origin.
    pub fn new() -> (r: HittableList)
        ensures
            r.objects@ =~= Seq::<Hittable>::empty(),
            r.bounding_box == crate::aabb::spec_aabb_from_points(
                Point3 { x: 0, y: 0, z: 0 },
                Point3 { x: 0, y: 0, z: 0 },
            ),
            aabb_wf(r.bounding_box),
    {
        HittableList { objects: Vec::new(), bounding_box: AABB::default_box() }
    }

    /// Drop all objects, consuming the collection.
    pub fn clear(self) {
        let mut this = self;
        this.objects.clear()
    }

    /// Extend the collection's bounding box by the object's and append the
    /// object.
    pub fn add(&mut self, to_add: Hittable)
        requires
            aabb_wf(old(self).bounding_box),
            aabb_wf(spec_bounding_box(to_add)),
        ensures
            final(self).objects@ == old(self).objects@.push(to_add),
            final(self).bounding_box == spec_join(
                old(self).bounding_box,
                spec_bounding_box(to_add),
            ),
            aabb_wf(final(self).bounding_box),
    {
        let b = to_add.bounding_box();
        self.bounding_box = crate::aabb::join_aabbs(&self.bounding_box, &b);
        self.objects.push(to_add);
    }

    /// The same as `add`, kept for callers that think of objects as shared
    /// handles; the tagged union holds them by value either way.
    pub fn add_pointer(&mut self, to_add: Hittable)
        requires
            aabb_wf(old(self).bounding_box),
            aabb_wf(spec_bounding_box(to_add)),
        ensures
            final(self).objects@ == old(self).objects@.push(to_add),
            final(self).bounding_box == spec_join(
                old(self).bounding_box,
                spec_bounding_box(to_add),
            ),
            aabb_wf(final(self).bounding_box),
    {
        self.add(to_add)
    }

    /// Go through the objects and compute their hit functions, keeping
    /// track of the closest hit found so far: each candidate is probed with
    /// the upper bound shrunk to the best hit, so later objects can only
    /// win by being strictly nearer.
    pub fn hit(&self, ray: &Ray, ray_t: &RayInterval) -> (res: Option<HitRecord>)
        ensures
            res == spec_list_hit(*self, *ray, ray_t.start as int, ray_t.end as int),
        decreases *self,
    {
        let mut reduced = *ray_t;
        if !self.bounding_box.hit(ray, &mut reduced) {
            return None;
        }
        let ghost s = self.objects@;
        proof {
            assert(s.subrange(0, s.len() as int) =~= s);
        }
        let mut best: Option<HitRecord> = None;
        let mut closest: i128 = reduced.end;
        let mut i: usize = 0;
        while i < self.objects.len()
            invariant
                0 <= i <= self.objects.len(),
                s == self.objects@,
                best is Some ==> closest == best->Some_0.t,
                best is None ==> closest == reduced.end,
                spec_combine(
                    best,
                    spec_scan(
                        s.subrange(i as int, s.len() as int),
                        *ray,
                        reduced.start as int,
                        closest as int,
                    ),
                ) == spec_scan(s, *ray, reduced.start as int, reduced.end as int),
            decreases self.objects.len() - i,
        {
            proof {
                assert(decreases_to!(*self => self.objects@[i as int]));
                assert(s.subrange(i as int, s.len() as int)[0] == s[i as int]);
                assert(s.subrange(i as int, s.len() as int).subrange(
                    1,
                    s.subrange(i as int, s.len() as int).len() as int,
                ) =~= s.subrange(i as int + 1, s.len() as int));
            }
            let window = RayInterval { start: reduced.start, end: closest };
            match self.objects[i].hit(ray, &window) {
                Some(rec) => {
                    closest = rec.t;
                    best = Some(rec);
                },
                None => {},
            }
            i += 1;
        }
        proof {
            assert(s.subrange(s.len() as int, s.len() as int) =~= Seq::<Hittable>::empty());
        }
        best
    }
}

/// The later of two scan outcomes where the later one was computed in a
/// window already shrunk below the earlier hit.
pub open spec fn spec_combine(earlier: Option<HitRecord>, later: Option<HitRecord>) -> Option<
    HitRecord,
> {
    if later is Some {
        later
    } else {
        earlier
    }
}

} // verus!
