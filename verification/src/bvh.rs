//! The bounding-volume hierarchy: a binary tree of nested boxes built
//! top-down by median split along the longest axis, with closest-hit
//! traversal that prunes subtrees by slab tests and narrows the parameter
//! interval so the nearest hit survives.

use vstd::prelude::*;

use crate::aabb::{aabb_wf, spec_join, spec_axis_range, AABB};
use crate::hittable::{
    aabb_bounded, spec_bounding_box, spec_bvh_box, spec_bvh_hit, HitRecord, Hittable,
};
use crate::hittable_list::HittableList;
use crate::ray::{Ray, RayInterval};

verus! {

/// The leaf threshold: a recursion step with at most this many objects
/// stores them in a flat collection instead of subdividing further.
pub const LEAF_THRESHOLD: usize = 16;

/// A node of the bounding-volume hierarchy: a leaf owning a small flat
/// collection, or an internal node owning two subtrees.  Each node owns the
/// box that bounds everything beneath it.
pub enum BVHNode {
    Leaf { objects: HittableList, bounding_box: AABB },
    Internal { left: Box<BVHNode>, right: Box<BVHNode>, bounding_box: AABB },
}

/// Every object in the sequence carries a well-formed, in-range bounding
/// box.
pub open spec fn all_boxes_wf(objs: Seq<Hittable>) -> bool {
    forall|i: int|
        0 <= i < objs.len() ==> aabb_wf(#[trigger] spec_bounding_box(objs[i])) && aabb_bounded(
            spec_bounding_box(objs[i]),
        )
}

/// The union fold of well-formed, in-range boxes is well formed and in
/// range.
pub proof fn lemma_fold_box_wf(objs: Seq<Hittable>)
    requires
        all_boxes_wf(objs),
    ensures
        aabb_wf(spec_fold_box(objs)),
        aabb_bounded(spec_fold_box(objs)),
    decreases objs,
{
    if objs.len() > 0 {
        let prefix = objs.subrange(0, objs.len() - 1);
        assert(all_boxes_wf(prefix)) by {
            assert forall|i: int| 0 <= i < prefix.len() implies aabb_wf(
                #[trigger] spec_bounding_box(prefix[i]),
            ) && aabb_bounded(spec_bounding_box(prefix[i])) by {
                assert(prefix[i] == objs[i]);
            }
        }
        lemma_fold_box_wf(prefix);
    }
}

/// The running union box of a sequence of objects, folded left to right
/// from the default box as the builder does.
pub open spec fn spec_fold_box(objs: Seq<Hittable>) -> AABB
    decreases objs,
{
    if objs.len() == 0 {
        crate::aabb::spec_aabb_from_points(
            crate::point3::Point3 { x: 0, y: 0, z: 0 },
            crate::point3::Point3 { x: 0, y: 0, z: 0 },
        )
    } else {
        spec_join(
            spec_fold_box(objs.subrange(0, objs.len() - 1)),
            spec_bounding_box(objs.last()),
        )
    }
}

/// The sort key of an object on the given axis: the start of its bounding
/// box's interval there.
pub open spec fn spec_axis_key(h: Hittable, axis: int) -> int {
    spec_axis_range(spec_bounding_box(h), axis).start as int
}

/// Insertion into a sequence from the right: the object lands after every
/// element whose key is at most its own, keeping the sort stable.
pub open spec fn spec_insert_sorted(s: Seq<Hittable>, x: Hittable, axis: int) -> Seq<Hittable>
    decreases s,
{
    if s.len() == 0 {
        seq![x]
    } else if spec_axis_key(s.last(), axis) > spec_axis_key(x, axis) {
        spec_insert_sorted(s.subrange(0, s.len() - 1), x, axis).push(s.last())
    } else {
        s.push(x)
    }
}

/// Stable insertion sort by the box start on the given axis.
pub open spec fn spec_sort_axis(s: Seq<Hittable>, axis: int) -> Seq<Hittable>
    decreases s,
{
    if s.len() == 0 {
        Seq::empty()
    } else {
        spec_insert_sorted(spec_sort_axis(s.subrange(0, s.len() - 1), axis), s.last(), axis)
    }
}

/// What it means for a node to be the tree the builder produces from a
/// sequence of objects: at or below the leaf threshold, a leaf holding
/// exactly those objects under their exact union box; above it, an internal
/// node holding the pre-split union box, whose left child is built from the
/// upper half and right child from the lower half of the sequence sorted
/// along the longest axis of that box.
pub open spec fn spec_build_matches(n: BVHNode, s: Seq<Hittable>) -> bool
    decreases s.len(),
    via spec_build_matches_decreases
{
    let bb = spec_fold_box(s);
    let axis = crate::aabb::spec_longest_axis(bb);
    if s.len() <= LEAF_THRESHOLD {
        match n {
            BVHNode::Leaf { objects, bounding_box } => {
                &&& objects.objects@ == s
                &&& objects.bounding_box == bb
                &&& bounding_box == bb
            },
            BVHNode::Internal { .. } => false,
        }
    } else {
        match n {
            BVHNode::Leaf { .. } => false,
            BVHNode::Internal { left, right, bounding_box } => {
                let sorted = spec_sort_axis(s, axis as int);
                let mid = s.len() as int / 2;
                &&& bounding_box == bb
                &&& spec_build_matches(*left, sorted.subrange(mid, s.len() as int))
                &&& spec_build_matches(*right, sorted.subrange(0, mid))
            },
        }
    }
}

/// The halves of the sorted sequence are strictly shorter than the whole.
#[via_fn]
proof fn spec_build_matches_decreases(n: BVHNode, s: Seq<Hittable>) {
    let bb = spec_fold_box(s);
    let axis = crate::aabb::spec_longest_axis(bb);
    lemma_sort_axis_preserves(s, axis as int);
}

impl BVHNode {
    /// The node's bounding box.
    pub fn bounding_box(&self) -> (r: AABB)
        ensures
            r == spec_bvh_box(*self),
    {
        match self {
            BVHNode::Leaf { objects: _, bounding_box } => *bounding_box,
            BVHNode::Internal { left: _, right: _, bounding_box } => *bounding_box,
        }
    }

    /// Closest-hit traversal: prune by the node's box, narrowing the
    /// interval; a leaf scans its collection, and an internal node narrows
    /// the right probe's upper bound to the left child's hit so the nearer
    /// hit always survives.
    pub fn hit(&self, ray: &Ray, ray_t: &RayInterval) -> (res: Option<HitRecord>)
        ensures
            res == spec_bvh_hit(*self, *ray, ray_t.start as int, ray_t.end as int),
        decreases *self,
    {
        let mut reduced = *ray_t;
        if !self.bounding_box().hit(ray, &mut reduced) {
            return None;
        }
        match self {
            BVHNode::Leaf { objects, bounding_box: _ } => objects.hit(ray, &reduced),
            BVHNode::Internal { left, right, bounding_box: _ } => {
                let left_hit = left.hit(ray, &reduced);
                let bound: i128 = match &left_hit {
                    Some(rec) => rec.t,
                    None => reduced.end,
                };
                let right_window = RayInterval { start: reduced.start, end: bound };
                match right.hit(ray, &right_window) {
                    Some(rec) => Some(rec),
                    None => left_hit,
                }
            },
        }
    }

    /// Build a tree from the objects of a flat collection.
    pub fn from_hittable_list(list: HittableList) -> (r: BVHNode)
        requires
            list.objects@.len() >= 1,
            all_boxes_wf(list.objects@),
        ensures
            spec_build_matches(r, list.objects@),
            aabb_wf(spec_bvh_box(r)),
            aabb_bounded(spec_bvh_box(r)),
    {
        BVHNode::new(list.objects)
    }

    /// Build a tree from a vector of objects.
    pub fn from_vec(objects: Vec<Hittable>) -> (r: BVHNode)
        requires
            objects@.len() >= 1,
            all_boxes_wf(objects@),
        ensures
            spec_build_matches(r, objects@),
            aabb_wf(spec_bvh_box(r)),
            aabb_bounded(spec_bvh_box(r)),
    {
        BVHNode::new(objects)
    }

    /// The recursive top-down builder: fold the union box, choose its
    /// longest axis, and either stop in a leaf at the threshold or sort by
    /// that axis, split at the midpoint, and recurse on the halves.  An
    /// empty input is a caller error, excluded by precondition.
    pub fn new(objects: Vec<Hittable>) -> (r: BVHNode)
        requires
            objects@.len() >= 1,
            all_boxes_wf(objects@),
        ensures
            spec_build_matches(r, objects@),
            aabb_wf(spec_bvh_box(r)),
            aabb_bounded(spec_bvh_box(r)),
        decreases objects@.len(),
    {
        proof {
            lemma_fold_box_wf(objects@);
        }
        let ghost s = objects@;
        let mut bounding_box = crate::aabb::AABB::default_box();
        let mut i: usize = 0;
        while i < objects.len()
            invariant
                0 <= i <= objects.len(),
                s == objects@,
                all_boxes_wf(s),
                bounding_box == spec_fold_box(s.subrange(0, i as int)),
                aabb_wf(bounding_box),
            decreases objects.len() - i,
        {
            proof {
                assert(s.subrange(0, i + 1).subrange(0, i as int) =~= s.subrange(0, i as int));
                assert(s.subrange(0, i + 1).last() == s[i as int]);
            }
            let b = objects[i].bounding_box();
            bounding_box = crate::aabb::join_aabbs(&bounding_box, &b);
            i += 1;
        }
        proof {
            assert(s.subrange(0, s.len() as int) =~= s);
        }
        let axis: u8 = bounding_box.longest_axis();
        if objects.len() <= LEAF_THRESHOLD {
            let mut hittable_list = HittableList::new();
            let mut rest = objects;
            while rest.len() > 0
                invariant
                    all_boxes_wf(s),
                    hittable_list.objects@.len() + rest@.len() == s.len(),
                    hittable_list.objects@ =~= s.subrange(0, hittable_list.objects@.len() as int),
                    rest@ =~= s.subrange(hittable_list.objects@.len() as int, s.len() as int),
                    hittable_list.bounding_box == spec_fold_box(hittable_list.objects@),
                    aabb_wf(hittable_list.bounding_box),
                decreases rest@.len(),
            {
                proof {
                    let k = hittable_list.objects@.len() as int;
                    assert(rest@[0] == s[k]);
                    assert(aabb_wf(spec_bounding_box(s[k])));
                }
                let element = rest.remove(0);
                hittable_list.add_pointer(element);
                proof {
                    let k = hittable_list.objects@.len() as int;
                    assert(hittable_list.objects@ =~= s.subrange(0, k));
                    assert(hittable_list.objects@.subrange(0, k - 1) =~= s.subrange(0, k - 1));
                    assert(hittable_list.objects@.last() == s[k - 1]);
                    assert(rest@ =~= s.subrange(k, s.len() as int));
                }
            }
            proof {
                assert(hittable_list.objects@ =~= s);
            }
            let leaf_box = hittable_list.bounding_box;
            BVHNode::Leaf { objects: hittable_list, bounding_box: leaf_box }
        } else {
            let sorted = sort_by_axis(objects, axis);
            proof {
                lemma_sort_axis_preserves(s, axis as int);
            }
            let mut right_vec = sorted;
            let mid = right_vec.len() / 2;
            let left_vec = right_vec.split_off(mid);
            proof {
                assert(left_vec@ =~= spec_sort_axis(s, axis as int).subrange(
                    mid as int,
                    s.len() as int,
                ));
                assert(right_vec@ =~= spec_sort_axis(s, axis as int).subrange(0, mid as int));
                lemma_all_boxes_wf_subrange(
                    spec_sort_axis(s, axis as int),
                    mid as int,
                    s.len() as int,
                );
                lemma_all_boxes_wf_subrange(spec_sort_axis(s, axis as int), 0, mid as int);
            }
            let left = Box::new(BVHNode::new(left_vec));
            let right = Box::new(BVHNode::new(right_vec));
            BVHNode::Internal { left, right, bounding_box }
        }
    }
}

/// Every object of the sorted sequence is an object of the unsorted one,
/// so box well-formedness survives sorting; and sorting keeps the length.
pub proof fn lemma_sort_axis_preserves(s: Seq<Hittable>, axis: int)
    ensures
        spec_sort_axis(s, axis).len() == s.len(),
        all_boxes_wf(s) ==> all_boxes_wf(spec_sort_axis(s, axis)),
        spec_fold_box(spec_sort_axis(s, axis)) == spec_fold_box(s),
        crate::traversal::seq_media_free(s) ==> crate::traversal::seq_media_free(
            spec_sort_axis(s, axis),
        ),
    decreases s,
{
    if s.len() > 0 {
        let prefix = s.subrange(0, s.len() - 1);
        lemma_sort_axis_preserves(prefix, axis);
        assert(all_boxes_wf(s) ==> all_boxes_wf(prefix)) by {
            if all_boxes_wf(s) {
                assert forall|i: int| 0 <= i < prefix.len() implies aabb_wf(
                    #[trigger] spec_bounding_box(prefix[i]),
                ) && aabb_bounded(spec_bounding_box(prefix[i])) by {
                    assert(prefix[i] == s[i]);
                }
            }
        }
        assert(crate::traversal::seq_media_free(s) ==> crate::traversal::seq_media_free(prefix)
            && crate::traversal::media_free(s.last())) by {
            if crate::traversal::seq_media_free(s) {
                assert forall|i: int| 0 <= i < prefix.len() implies crate::traversal::media_free(
                    #[trigger] prefix[i],
                ) by {
                    assert(prefix[i] == s[i]);
                }
            }
        }
        lemma_insert_sorted_preserves(spec_sort_axis(prefix, axis), s.last(), axis);
        assert(spec_fold_box(s) == spec_join(spec_fold_box(prefix), spec_bounding_box(s.last())));
    }
}

/// Insertion keeps length, membership-derived box facts, and the folded
/// union box.
pub proof fn lemma_insert_sorted_preserves(s: Seq<Hittable>, x: Hittable, axis: int)
    ensures
        spec_insert_sorted(s, x, axis).len() == s.len() + 1,
        (all_boxes_wf(s) && aabb_wf(spec_bounding_box(x)) && aabb_bounded(spec_bounding_box(x)))
            ==> all_boxes_wf(spec_insert_sorted(s, x, axis)),
        (crate::traversal::seq_media_free(s) && crate::traversal::media_free(x))
            ==> crate::traversal::seq_media_free(spec_insert_sorted(s, x, axis)),
        spec_fold_box(spec_insert_sorted(s, x, axis)) == spec_join(
            spec_fold_box(s),
            spec_bounding_box(x),
        ),
    decreases s,
{
    let out = spec_insert_sorted(s, x, axis);
    if s.len() == 0 {
        assert(out =~= seq![x]);
        assert(out.subrange(0, 0) =~= Seq::<Hittable>::empty());
        assert(out.last() == x);
        assert(spec_fold_box(out.subrange(0, 0)) == spec_fold_box(s));
        assert(spec_fold_box(out) == spec_join(spec_fold_box(out.subrange(0, 0)), spec_bounding_box(x)));
    } else if spec_axis_key(s.last(), axis) > spec_axis_key(x, axis) {
        let prefix = s.subrange(0, s.len() - 1);
        lemma_insert_sorted_preserves(prefix, x, axis);
        let inner = spec_insert_sorted(prefix, x, axis);
        assert(out == inner.push(s.last()));
        assert(out.subrange(0, out.len() - 1) =~= inner);
        assert(out.last() == s.last());
        assert(spec_fold_box(out) == spec_join(spec_fold_box(inner), spec_bounding_box(s.last())));
        assert(spec_fold_box(s) == spec_join(spec_fold_box(prefix), spec_bounding_box(s.last())));
        let fp = spec_fold_box(prefix);
        let bx = spec_bounding_box(x);
        let bl = spec_bounding_box(s.last());
        crate::aabb::lemma_join_comm_assoc(fp, bx, bl);
        crate::aabb::lemma_join_comm_assoc(bx, bl, fp);
        crate::aabb::lemma_join_comm_assoc(fp, bl, bx);
        assert(spec_join(spec_join(fp, bx), bl) == spec_join(spec_join(fp, bl), bx));
        if all_boxes_wf(s) && aabb_wf(spec_bounding_box(x)) && aabb_bounded(spec_bounding_box(x)) {
            assert(all_boxes_wf(prefix)) by {
                assert forall|i: int| 0 <= i < prefix.len() implies aabb_wf(
                    #[trigger] spec_bounding_box(prefix[i]),
                ) && aabb_bounded(spec_bounding_box(prefix[i])) by {
                    assert(prefix[i] == s[i]);
                }
            }
            assert forall|i: int| 0 <= i < out.len() implies aabb_wf(
                #[trigger] spec_bounding_box(out[i]),
            ) && aabb_bounded(spec_bounding_box(out[i])) by {
                if i < inner.len() {
                    assert(out[i] == inner[i]);
                } else {
                    assert(out[i] == s.last());
                }
            }
        }
        if crate::traversal::seq_media_free(s) && crate::traversal::media_free(x) {
            assert(crate::traversal::seq_media_free(prefix)) by {
                assert forall|i: int| 0 <= i < prefix.len() implies crate::traversal::media_free(
                    #[trigger] prefix[i],
                ) by {
                    assert(prefix[i] == s[i]);
                }
            }
            assert forall|i: int| 0 <= i < out.len() implies crate::traversal::media_free(
                #[trigger] out[i],
            ) by {
                if i < inner.len() {
                    assert(out[i] == inner[i]);
                } else {
                    assert(out[i] == s.last());
                }
            }
        }
    } else {
        assert(out == s.push(x));
        assert(out.subrange(0, out.len() - 1) =~= s);
        assert(out.last() == x);
        assert(spec_fold_box(out) == spec_join(spec_fold_box(s), spec_bounding_box(x)));
        if all_boxes_wf(s) && aabb_wf(spec_bounding_box(x)) && aabb_bounded(spec_bounding_box(x)) {
            assert forall|i: int| 0 <= i < out.len() implies aabb_wf(
                #[trigger] spec_bounding_box(out[i]),
            ) && aabb_bounded(spec_bounding_box(out[i])) by {
                if i < s.len() {
                    assert(out[i] == s[i]);
                } else {
                    assert(out[i] == x);
                }
            }
        }
        if crate::traversal::seq_media_free(s) && crate::traversal::media_free(x) {
            assert forall|i: int| 0 <= i < out.len() implies crate::traversal::media_free(
                #[trigger] out[i],
            ) by {
                if i < s.len() {
                    assert(out[i] == s[i]);
                } else {
                    assert(out[i] == x);
                }
            }
        }
    }
}

/// Box facts restricted to a subrange.
pub proof fn lemma_all_boxes_wf_subrange(s: Seq<Hittable>, a: int, b: int)
    requires
        all_boxes_wf(s),
        0 <= a <= b <= s.len(),
    ensures
        all_boxes_wf(s.subrange(a, b)),
{
    let sub = s.subrange(a, b);
    assert forall|i: int| 0 <= i < sub.len() implies aabb_wf(
        #[trigger] spec_bounding_box(sub[i]),
    ) && aabb_bounded(spec_bounding_box(sub[i])) by {
        assert(sub[i] == s[a + i]);
    }
}

/// Stable insertion sort of the objects by bounding-box start along the
/// given axis.
fn sort_by_axis(objects: Vec<Hittable>, axis: u8) -> (r: Vec<Hittable>)
    ensures
        r@ == spec_sort_axis(objects@, axis as int),
{
    let ghost orig = objects@;
    let mut rest = objects;
    let mut out: Vec<Hittable> = Vec::new();
    let ghost mut done: int = 0;
    proof {
        assert(orig.subrange(0, 0) =~= Seq::<Hittable>::empty());
    }
    while rest.len() > 0
        invariant
            0 <= done <= orig.len(),
            done + rest@.len() == orig.len(),
            rest@ =~= orig.subrange(done, orig.len() as int),
            out@ == spec_sort_axis(orig.subrange(0, done), axis as int),
        decreases rest@.len(),
    {
        proof {
            assert(rest@[0] == orig[done]);
        }
        let x = rest.remove(0);
        insert_by_axis(&mut out, x, axis);
        proof {
            done = done + 1;
            assert(orig.subrange(0, done).subrange(0, done - 1) =~= orig.subrange(0, done - 1));
            assert(orig.subrange(0, done).last() == orig[done - 1]);
            assert(rest@ =~= orig.subrange(done, orig.len() as int));
        }
    }
    proof {
        assert(orig.subrange(0, orig.len() as int) =~= orig);
    }
    out
}

/// Insert one object into an already arranged vector, after every element
/// whose key is at most its own.
fn insert_by_axis(out: &mut Vec<Hittable>, x: Hittable, axis: u8)
    ensures
        final(out)@ == spec_insert_sorted(old(out)@, x, axis as int),
{
    let key_x = axis_key(&x, axis);
    let ghost orig = out@;
    let mut tail: Vec<Hittable> = Vec::new();
    let mut stop = false;
    while !stop
        invariant
            spec_insert_sorted(orig, x, axis as int) == spec_insert_sorted(
                out@,
                x,
                axis as int,
            ).add(tail@.reverse()),
            key_x as int == spec_axis_key(x, axis as int),
            stop ==> (out@.len() == 0 || !(spec_axis_key(out@.last(), axis as int)
                > spec_axis_key(x, axis as int))),
        decreases (if stop { 0int } else { 1int }), out@.len(),
    {
        if out.len() == 0 {
            stop = true;
        } else {
            let key_last = axis_key(&out[out.len() - 1], axis);
            if key_last > key_x {
                let ghost before = out@;
                let moved = out.pop().unwrap();
                tail.push(moved);
                proof {
                    assert(before.subrange(0, before.len() - 1) =~= out@);
                    assert(spec_insert_sorted(before, x, axis as int) == spec_insert_sorted(
                        out@,
                        x,
                        axis as int,
                    ).push(moved));
                    assert(tail@.reverse() =~= seq![moved].add(
                        tail@.subrange(0, tail@.len() - 1).reverse(),
                    ));
                    assert(spec_insert_sorted(out@, x, axis as int).push(moved).add(
                        tail@.subrange(0, tail@.len() - 1).reverse(),
                    ) =~= spec_insert_sorted(out@, x, axis as int).add(tail@.reverse()));
                }
            } else {
                stop = true;
            }
        }
    }
    proof {
        if out@.len() == 0 {
            assert(spec_insert_sorted(out@, x, axis as int) =~= seq![x]);
            assert(out@.push(x) =~= seq![x]);
        } else {
            assert(spec_insert_sorted(out@, x, axis as int) == out@.push(x));
        }
        assert(spec_insert_sorted(out@, x, axis as int) == out@.push(x));
    }
    out.push(x);
    while tail.len() > 0
        invariant
            spec_insert_sorted(orig, x, axis as int) =~= out@.add(tail@.reverse()),
        decreases tail@.len(),
    {
        let ghost t_before = tail@;
        let ghost out_before = out@;
        let moved = tail.pop().unwrap();
        out.push(moved);
        proof {
            assert(t_before.reverse() =~= seq![moved].add(tail@.reverse()));
            assert(out_before.add(t_before.reverse()) =~= out@.add(tail@.reverse()));
        }
    }
    proof {
        assert(tail@.reverse() =~= Seq::<Hittable>::empty());
        assert(out@.add(tail@.reverse()) =~= out@);
        assert(out@ =~= spec_insert_sorted(orig, x, axis as int));
    }
}

/// The sort key of an object on the given axis.
fn axis_key(h: &Hittable, axis: u8) -> (r: i64)
    ensures
        r as int == spec_axis_key(*h, axis as int),
{
    let b = h.bounding_box();
    if axis == 0 {
        b.x.start
    } else if axis == 1 {
        b.y.start
    } else {
        b.z.start
    }
}

/// The union box of every prefix contains the default seed box and the box
/// of every object folded in.
pub proof fn lemma_fold_box_contains(s: Seq<Hittable>)
    ensures
        forall|i: int|
            0 <= i < s.len() ==> crate::aabb::aabb_contains(
                spec_fold_box(s),
                #[trigger] spec_bounding_box(s[i]),
            ),
        crate::aabb::aabb_contains(
            spec_fold_box(s),
            spec_fold_box(Seq::<Hittable>::empty()),
        ),
    decreases s,
{
    if s.len() == 0 {
    } else {
        let prefix = s.subrange(0, s.len() - 1);
        lemma_fold_box_contains(prefix);
        crate::aabb::lemma_join_contains(spec_fold_box(prefix), spec_bounding_box(s.last()));
        assert forall|i: int| 0 <= i < s.len() implies crate::aabb::aabb_contains(
            spec_fold_box(s),
            #[trigger] spec_bounding_box(s[i]),
        ) by {
            if i < s.len() - 1 {
                assert(s[i] == prefix[i]);
                crate::aabb::lemma_contains_trans(
                    spec_fold_box(s),
                    spec_fold_box(prefix),
                    spec_bounding_box(prefix[i]),
                );
            }
        }
        crate::aabb::lemma_contains_trans(
            spec_fold_box(s),
            spec_fold_box(prefix),
            spec_fold_box(Seq::<Hittable>::empty()),
        );
    }
}

/// Folding over a concatenation joins the folds of the halves.
pub proof fn lemma_fold_box_concat(a: Seq<Hittable>, b: Seq<Hittable>)
    ensures
        spec_fold_box(a.add(b)) == spec_join(spec_fold_box(a), spec_fold_box(b)),
    decreases b,
{
    if b.len() == 0 {
        assert(a.add(b) =~= a);
        lemma_fold_box_contains(a);
        assert(spec_fold_box(b) == spec_fold_box(Seq::<Hittable>::empty()));
    } else {
        let bp = b.subrange(0, b.len() - 1);
        lemma_fold_box_concat(a, bp);
        assert(a.add(b).subrange(0, a.len() + b.len() - 1) =~= a.add(bp));
        assert(a.add(b).last() == b.last());
        assert(spec_fold_box(a.add(b)) == spec_join(
            spec_fold_box(a.add(bp)),
            spec_bounding_box(b.last()),
        ));
        crate::aabb::lemma_join_comm_assoc(
            spec_fold_box(a),
            spec_fold_box(bp),
            spec_bounding_box(b.last()),
        );
    }
}

/// The box a built node stores is exactly the union fold of the objects it
/// was built from.
pub proof fn lemma_box_of_build(n: BVHNode, s: Seq<Hittable>)
    requires
        spec_build_matches(n, s),
    ensures
        spec_bvh_box(n) == spec_fold_box(s),
    decreases s.len(),
{
}

/// Hierarchical box exactness: every leaf box is the exact union of its
/// collection, and every internal box is exactly the join of its two
/// children's boxes, with no slack.
pub open spec fn spec_boxes_exact(n: BVHNode) -> bool
    decreases n,
{
    match n {
        BVHNode::Leaf { objects, bounding_box } => {
            &&& bounding_box == objects.bounding_box
            &&& forall|i: int|
                0 <= i < objects.objects@.len() ==> crate::aabb::aabb_contains(
                    bounding_box,
                    #[trigger] spec_bounding_box(objects.objects@[i]),
                )
        },
        BVHNode::Internal { left, right, bounding_box } => {
            &&& bounding_box == spec_join(spec_bvh_box(*left), spec_bvh_box(*right))
            &&& spec_boxes_exact(*left)
            &&& spec_boxes_exact(*right)
        },
    }
}

/// Recursive containment, with exactness: in a built tree every internal
/// node's box is exactly the union of its children's boxes, and every leaf
/// box contains the boxes of the objects it holds.
pub proof fn lemma_build_boxes_exact(n: BVHNode, s: Seq<Hittable>)
    requires
        spec_build_matches(n, s),
    ensures
        spec_boxes_exact(n),
    decreases s.len(),
{
    let bb = spec_fold_box(s);
    let axis = crate::aabb::spec_longest_axis(bb);
    if s.len() <= LEAF_THRESHOLD {
        lemma_fold_box_contains(s);
    } else {
        match n {
            BVHNode::Leaf { .. } => {},
            BVHNode::Internal { left, right, bounding_box } => {
                let sorted = spec_sort_axis(s, axis as int);
                let mid = s.len() as int / 2;
                lemma_sort_axis_preserves(s, axis as int);
                lemma_build_boxes_exact(*left, sorted.subrange(mid, s.len() as int));
                lemma_build_boxes_exact(*right, sorted.subrange(0, mid));
                lemma_box_of_build(*left, sorted.subrange(mid, s.len() as int));
                lemma_box_of_build(*right, sorted.subrange(0, mid));
                assert(sorted =~= sorted.subrange(0, mid).add(
                    sorted.subrange(mid, s.len() as int),
                ));
                lemma_fold_box_concat(
                    sorted.subrange(0, mid),
                    sorted.subrange(mid, s.len() as int),
                );
                crate::aabb::lemma_join_comm_assoc(
                    spec_fold_box(sorted.subrange(0, mid)),
                    spec_fold_box(sorted.subrange(mid, s.len() as int)),
                    spec_fold_box(sorted),
                );
            },
        }
    }
}

/// Containment at the root: the root box of a built tree contains the
/// bounding box of every object that went in.
pub proof fn lemma_root_contains_objects(n: BVHNode, s: Seq<Hittable>, i: int)
    requires
        spec_build_matches(n, s),
        0 <= i < s.len(),
    ensures
        crate::aabb::aabb_contains(spec_bvh_box(n), spec_bounding_box(s[i])),
{
    lemma_box_of_build(n, s);
    lemma_fold_box_contains(s);
}

/// Leaf-threshold behavior: a tree built from at most the threshold many
/// objects is a single leaf, and one built from more holds at least one
/// internal node, namely its root.
pub proof fn lemma_leaf_threshold(n: BVHNode, s: Seq<Hittable>)
    requires
        spec_build_matches(n, s),
    ensures
        s.len() <= LEAF_THRESHOLD <==> n is Leaf,
        s.len() > LEAF_THRESHOLD <==> n is Internal,
{
}

/// Determinism of construction and traversal: two trees built from the
/// same (order-stable) input answer every ray query identically.
pub proof fn lemma_build_deterministic(
    n1: BVHNode,
    n2: BVHNode,
    s: Seq<Hittable>,
    ray: crate::ray::Ray,
    t0: int,
    t1: int,
)
    requires
        spec_build_matches(n1, s),
        spec_build_matches(n2, s),
    ensures
        spec_bvh_hit(n1, ray, t0, t1) == spec_bvh_hit(n2, ray, t0, t1),
    decreases s.len(),
{
    lemma_box_of_build(n1, s);
    lemma_box_of_build(n2, s);
    let bb = spec_fold_box(s);
    let axis = crate::aabb::spec_longest_axis(bb);
    let nw = crate::aabb::spec_narrow(bb, ray, t0, t1);
    if nw.0 < nw.1 {
        if s.len() <= LEAF_THRESHOLD {
            match (n1, n2) {
                (
                    BVHNode::Leaf { objects: o1, bounding_box: b1 },
                    BVHNode::Leaf { objects: o2, bounding_box: b2 },
                ) => {
                    assert(o1.objects@ == o2.objects@);
                    assert(o1.bounding_box == o2.bounding_box);
                    let nw2 = crate::aabb::spec_narrow(o1.bounding_box, ray, nw.0, nw.1);
                    assert(crate::hittable::spec_list_hit(o1, ray, nw.0, nw.1)
                        == crate::hittable::spec_list_hit(o2, ray, nw.0, nw.1));
                },
                _ => {},
            }
        } else {
            let sorted = spec_sort_axis(s, axis as int);
            let mid = s.len() as int / 2;
            lemma_sort_axis_preserves(s, axis as int);
            match (n1, n2) {
                (
                    BVHNode::Internal { left: l1, right: r1, bounding_box: b1 },
                    BVHNode::Internal { left: l2, right: r2, bounding_box: b2 },
                ) => {
                    lemma_build_deterministic(
                        *l1,
                        *l2,
                        sorted.subrange(mid, s.len() as int),
                        ray,
                        nw.0,
                        nw.1,
                    );
                    let left_hit = spec_bvh_hit(*l1, ray, nw.0, nw.1);
                    let bound = if left_hit is Some {
                        left_hit->Some_0.t as int
                    } else {
                        nw.1
                    };
                    lemma_build_deterministic(
                        *r1,
                        *r2,
                        sorted.subrange(0, mid),
                        ray,
                        nw.0,
                        bound,
                    );
                },
                _ => {},
            }
        }
    }
}

} // verus!
