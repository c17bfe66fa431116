//! Axis-aligned bounding boxes: one fixed-point interval per axis, with the
//! ray-slab intersection test that narrows a ray-parameter interval in place.
//!
//! The slab test's contract is exact: on success the narrowed interval equals
//! the input interval intersected with the set of parameters admitted by all
//! three slabs, and `lemma_narrow_characterizes` states that set pointwise.

use vstd::prelude::*;

use crate::num::{fdiv, spec_fdiv, SCALE};
use crate::point3::{within, Point3};
use crate::ray::{Ray, RayInterval};

verus! {

/// Magnitude bound within which box endpoints are considered representable.
pub const BOX_LIMIT: i64 = 0x1000_0000_0000_0000;

/// The lesser of two mathematical integers.
pub open spec fn imin(a: int, b: int) -> int {
    if a < b {
        a
    } else {
        b
    }
}

/// The greater of two mathematical integers.
pub open spec fn imax(a: int, b: int) -> int {
    if a < b {
        b
    } else {
        a
    }
}

/// One axis's interval `[start, end]` of a bounding box.
#[derive(Clone, Copy, PartialEq, Eq, Structural, Debug)]
pub struct AxisRange {
    pub start: i64,
    pub end: i64,
}

/// An axis-aligned bounding box: one interval per spatial axis.
#[derive(Clone, Copy, PartialEq, Eq, Structural, Debug)]
pub struct AABB {
    pub x: AxisRange,
    pub y: AxisRange,
    pub z: AxisRange,
}

/// An axis interval is well formed when ordered and within the representable
/// range.
pub open spec fn range_wf(r: AxisRange) -> bool {
    -BOX_LIMIT < r.start <= r.end < BOX_LIMIT
}

/// A box is well formed when all three axis intervals are.
pub open spec fn aabb_wf(b: AABB) -> bool {
    range_wf(b.x) && range_wf(b.y) && range_wf(b.z)
}

/// The axis interval of `b` selected by index 0, 1 or 2.
pub open spec fn spec_axis_range(b: AABB, index: int) -> AxisRange {
    if index == 0 {
        b.x
    } else if index == 1 {
        b.y
    } else {
        b.z
    }
}

/// `inner` fits inside `outer` on every axis.
pub open spec fn aabb_contains(outer: AABB, inner: AABB) -> bool {
    &&& outer.x.start <= inner.x.start && inner.x.end <= outer.x.end
    &&& outer.y.start <= inner.y.start && inner.y.end <= outer.y.end
    &&& outer.z.start <= inner.z.start && inner.z.end <= outer.z.end
}

/// An axis interval padded to the minimum positive thickness: a degenerate
/// interval is expanded symmetrically by one fixed-point unit on each side.
pub open spec fn spec_pad(r: AxisRange) -> AxisRange {
    if r.end - r.start < 1 {
        AxisRange { start: (r.start - 1) as i64, end: (r.end + 1) as i64 }
    } else {
        r
    }
}

/// Pad an axis interval with a small positive nonzero thickness.  A reversed
/// (and therefore empty) interval is excluded by precondition.
pub fn pad_to_minimums(r: AxisRange) -> (p: AxisRange)
    requires
        -BOX_LIMIT + 1 < r.start <= r.end < BOX_LIMIT - 1,
    ensures
        p == spec_pad(r),
        range_wf(p),
        p.start <= r.start && r.end <= p.end,
    {
    if r.end - r.start < 1 {
        AxisRange { start: r.start - 1, end: r.end + 1 }
    } else {
        r
    }
}

/// The minimal padded interval holding both endpoints.
pub open spec fn spec_range_from(a: int, b: int) -> AxisRange {
    spec_pad(AxisRange { start: imin(a, b) as i64, end: imax(a, b) as i64 })
}

/// The minimal padded box holding both corner points.
pub open spec fn spec_aabb_from_points(a: Point3, b: Point3) -> AABB {
    AABB {
        x: spec_range_from(a.x as int, b.x as int),
        y: spec_range_from(a.y as int, b.y as int),
        z: spec_range_from(a.z as int, b.z as int),
    }
}

/// Create an AABB from two corner points, reordering each axis and padding
/// degenerate extents.
pub fn aabb_from_points(a: Point3, b: Point3) -> (r: AABB)
    requires
        within(a, (BOX_LIMIT - 1) as int),
        within(b, (BOX_LIMIT - 1) as int),
    ensures
        r == spec_aabb_from_points(a, b),
        aabb_wf(r),
{
    let x = if a.x <= b.x {
        AxisRange { start: a.x, end: b.x }
    } else {
        AxisRange { start: b.x, end: a.x }
    };
    let y = if a.y <= b.y {
        AxisRange { start: a.y, end: b.y }
    } else {
        AxisRange { start: b.y, end: a.y }
    };
    let z = if a.z <= b.z {
        AxisRange { start: a.z, end: b.z }
    } else {
        AxisRange { start: b.z, end: a.z }
    };
    AABB { x: pad_to_minimums(x), y: pad_to_minimums(y), z: pad_to_minimums(z) }
}

/// The united interval of two well-formed intervals: minimum of starts,
/// maximum of ends.  Padding is the identity on it, because its extent is at
/// least either input's.
pub open spec fn spec_unite(r1: AxisRange, r2: AxisRange) -> AxisRange {
    AxisRange { start: imin(r1.start as int, r2.start as int) as i64, end: imax(
        r1.end as int,
        r2.end as int,
    ) as i64 }
}

/// Unite two ranges, creating one that encompasses the two.
fn unite_ranges(r1: &AxisRange, r2: &AxisRange) -> (r: AxisRange)
    requires
        range_wf(*r1),
        range_wf(*r2),
    ensures
        r == spec_unite(*r1, *r2),
        range_wf(r),
{
    AxisRange {
        start: if r1.start < r2.start {
            r1.start
        } else {
            r2.start
        },
        end: if r1.end < r2.end {
            r2.end
        } else {
            r1.end
        },
    }
}

/// The united box of two boxes: per-axis minimum of starts and maximum of
/// ends.
pub open spec fn spec_join(b0: AABB, b1: AABB) -> AABB {
    AABB {
        x: spec_unite(b0.x, b1.x),
        y: spec_unite(b0.y, b1.y),
        z: spec_unite(b0.z, b1.z),
    }
}

/// Joins together two bounding boxes to create a new box that encompasses
/// the two.
pub fn join_aabbs(bounding_box0: &AABB, bounding_box1: &AABB) -> (r: AABB)
    requires
        aabb_wf(*bounding_box0),
        aabb_wf(*bounding_box1),
    ensures
        r == spec_join(*bounding_box0, *bounding_box1),
        aabb_wf(r),
        aabb_contains(r, *bounding_box0),
        aabb_contains(r, *bounding_box1),
{
    AABB {
        x: unite_ranges(&bounding_box0.x, &bounding_box1.x),
        y: unite_ranges(&bounding_box0.y, &bounding_box1.y),
        z: unite_ranges(&bounding_box0.z, &bounding_box1.z),
    }
}

/// Joining is commutative and associative, so a fold of joins is independent
/// of bracketing and order.
pub proof fn lemma_join_comm_assoc(a: AABB, b: AABB, c: AABB)
    ensures
        spec_join(a, b) == spec_join(b, a),
        spec_join(spec_join(a, b), c) == spec_join(a, spec_join(b, c)),
{
}

/// Containment through joins: each side fits in the join, and the join fits
/// in any box containing both sides.
pub proof fn lemma_join_contains(a: AABB, b: AABB)
    ensures
        aabb_contains(spec_join(a, b), a),
        aabb_contains(spec_join(a, b), b),
        forall|c: AABB|
            #[trigger] aabb_contains(c, a) && aabb_contains(c, b) ==> aabb_contains(
                c,
                spec_join(a, b),
            ),
{
}

/// Containment is transitive.
pub proof fn lemma_contains_trans(a: AABB, b: AABB, c: AABB)
    requires
        aabb_contains(a, b),
        aabb_contains(b, c),
    ensures
        aabb_contains(a, c),
{
}

/// An endpoint clamped into the representable box range.
pub open spec fn spec_box_sat(x: int) -> int {
    if x > BOX_LIMIT - 2 {
        BOX_LIMIT - 2
    } else if x < -(BOX_LIMIT - 2) {
        -(BOX_LIMIT - 2)
    } else {
        x
    }
}

/// Clamp an endpoint into the representable box range.
pub fn box_sat(x: i128) -> (r: i64)
    ensures
        r == spec_box_sat(x as int),
{
    if x > (BOX_LIMIT - 2) as i128 {
        BOX_LIMIT - 2
    } else if x < -((BOX_LIMIT - 2) as i128) {
        -(BOX_LIMIT - 2)
    } else {
        x as i64
    }
}

/// The box shifted by the coordinates of a point, each endpoint clamped
/// into the representable range.
pub open spec fn spec_shift(b: AABB, offset: Point3) -> AABB {
    AABB {
        x: AxisRange {
            start: spec_box_sat(b.x.start + offset.x) as i64,
            end: spec_box_sat(b.x.end + offset.x) as i64,
        },
        y: AxisRange {
            start: spec_box_sat(b.y.start + offset.y) as i64,
            end: spec_box_sat(b.y.end + offset.y) as i64,
        },
        z: AxisRange {
            start: spec_box_sat(b.z.start + offset.z) as i64,
            end: spec_box_sat(b.z.end + offset.z) as i64,
        },
    }
}

// ---------------------------------------------------------------------------
// The ray-slab test.
// ---------------------------------------------------------------------------

/// One axis's slab narrowing step: with a zero direction component the
/// interval passes unchanged when the origin lies in the slab and collapses
/// to empty otherwise; with a nonzero component the two crossing parameters
/// are ordered and intersected with the interval.  Crossing parameters are
/// rounded toward negative infinity onto the fixed-point grid.
pub open spec fn spec_narrow_axis(lo: int, hi: int, o: int, d: int, s: int, e: int) -> (int, int) {
    if d == 0 {
        if lo <= o <= hi {
            (s, e)
        } else {
            (s, imin(s, e))
        }
    } else {
        let t0 = spec_fdiv((lo - o) * SCALE, d);
        let t1 = spec_fdiv((hi - o) * SCALE, d);
        (imax(s, imin(t0, t1)), imin(e, imax(t0, t1)))
    }
}

/// The three axes' narrowing steps composed, x then y then z.
pub open spec fn spec_narrow(b: AABB, ray: Ray, s: int, e: int) -> (int, int) {
    let nx = spec_narrow_axis(
        b.x.start as int,
        b.x.end as int,
        ray.origin.x as int,
        ray.direction.x as int,
        s,
        e,
    );
    let ny = spec_narrow_axis(
        b.y.start as int,
        b.y.end as int,
        ray.origin.y as int,
        ray.direction.y as int,
        nx.0,
        nx.1,
    );
    spec_narrow_axis(
        b.z.start as int,
        b.z.end as int,
        ray.origin.z as int,
        ray.direction.z as int,
        ny.0,
        ny.1,
    )
}

/// Whether the slab test reports a hit for the interval `[s, e)`.
pub open spec fn spec_slab_hit(b: AABB, ray: Ray, s: int, e: int) -> bool {
    spec_narrow(b, ray, s, e).0 < spec_narrow(b, ray, s, e).1
}

/// One axis admits parameter `t`: for a zero direction component the origin
/// lies in the slab, otherwise `t` lies in the half-open span between the
/// rounded crossing parameters.
pub open spec fn axis_admits(lo: int, hi: int, o: int, d: int, t: int) -> bool {
    if d == 0 {
        lo <= o <= hi
    } else {
        let t0 = spec_fdiv((lo - o) * SCALE, d);
        let t1 = spec_fdiv((hi - o) * SCALE, d);
        imin(t0, t1) <= t < imax(t0, t1)
    }
}

/// All three slabs admit parameter `t`.
pub open spec fn in_slab(b: AABB, ray: Ray, t: int) -> bool {
    &&& axis_admits(b.x.start as int, b.x.end as int, ray.origin.x as int, ray.direction.x as int, t)
    &&& axis_admits(b.y.start as int, b.y.end as int, ray.origin.y as int, ray.direction.y as int, t)
    &&& axis_admits(b.z.start as int, b.z.end as int, ray.origin.z as int, ray.direction.z as int, t)
}

/// One narrowing step only shrinks the interval.
proof fn lemma_narrow_axis_shrinks(lo: int, hi: int, o: int, d: int, s: int, e: int)
    ensures
        spec_narrow_axis(lo, hi, o, d, s, e).0 >= s,
        spec_narrow_axis(lo, hi, o, d, s, e).1 <= e,
{
}

/// The composed narrowing only shrinks the interval.
pub proof fn lemma_narrow_shrinks(b: AABB, ray: Ray, s: int, e: int)
    ensures
        spec_narrow(b, ray, s, e).0 >= s,
        spec_narrow(b, ray, s, e).1 <= e,
{
}

/// The narrowed interval holds exactly the parameters of the input interval
/// that every slab admits.
pub proof fn lemma_narrow_characterizes(b: AABB, ray: Ray, s: int, e: int, t: int)
    ensures
        (spec_narrow(b, ray, s, e).0 <= t < spec_narrow(b, ray, s, e).1) <==> (s <= t < e
            && in_slab(b, ray, t)),
{
}

/// A slab of a containing box admits every parameter that the contained
/// box's slab admits, on each axis.
proof fn lemma_axis_admits_mono(
    lo_o: int,
    hi_o: int,
    lo_i: int,
    hi_i: int,
    o: int,
    d: int,
    t: int,
)
    requires
        lo_o <= lo_i <= hi_i <= hi_o,
        axis_admits(lo_i, hi_i, o, d, t),
    ensures
        axis_admits(lo_o, hi_o, o, d, t),
{
    if d != 0 {
        assert(spec_fdiv((lo_i - o) * SCALE, d) == spec_fdiv(-((lo_i - o) * SCALE), -d));
        assert(spec_fdiv((hi_i - o) * SCALE, d) == spec_fdiv(-((hi_i - o) * SCALE), -d));
        assert(spec_fdiv((lo_o - o) * SCALE, d) == spec_fdiv(-((lo_o - o) * SCALE), -d));
        assert(spec_fdiv((hi_o - o) * SCALE, d) == spec_fdiv(-((hi_o - o) * SCALE), -d));
        assert((lo_o - o) * SCALE <= (lo_i - o) * SCALE <= (hi_i - o) * SCALE <= (hi_o - o)
            * SCALE) by (nonlinear_arith)
            requires
                lo_o <= lo_i <= hi_i <= hi_o,
        ;
        assert(-((lo_i - o) * SCALE) == (o - lo_i) * SCALE && -((hi_i - o) * SCALE) == (o - hi_i)
            * SCALE && -((lo_o - o) * SCALE) == (o - lo_o) * SCALE && -((hi_o - o) * SCALE) == (o
            - hi_o) * SCALE) by (nonlinear_arith);
        if d > 0 {
            crate::num::lemma_fdiv_mono((lo_o - o) * SCALE, (lo_i - o) * SCALE, d);
            crate::num::lemma_fdiv_mono((lo_i - o) * SCALE, (hi_i - o) * SCALE, d);
            crate::num::lemma_fdiv_mono((hi_i - o) * SCALE, (hi_o - o) * SCALE, d);
        } else {
            crate::num::lemma_fdiv_mono((o - hi_o) * SCALE, (o - hi_i) * SCALE, -d);
            crate::num::lemma_fdiv_mono((o - hi_i) * SCALE, (o - lo_i) * SCALE, -d);
            crate::num::lemma_fdiv_mono((o - lo_i) * SCALE, (o - lo_o) * SCALE, -d);
        }
    }
}

/// A containing box's slabs admit every parameter that a contained box's
/// slabs admit.
pub proof fn lemma_in_slab_mono(outer: AABB, inner: AABB, ray: Ray, t: int)
    requires
        aabb_wf(inner),
        aabb_contains(outer, inner),
        in_slab(inner, ray, t),
    ensures
        in_slab(outer, ray, t),
{
    lemma_axis_admits_mono(
        outer.x.start as int,
        outer.x.end as int,
        inner.x.start as int,
        inner.x.end as int,
        ray.origin.x as int,
        ray.direction.x as int,
        t,
    );
    lemma_axis_admits_mono(
        outer.y.start as int,
        outer.y.end as int,
        inner.y.start as int,
        inner.y.end as int,
        ray.origin.y as int,
        ray.direction.y as int,
        t,
    );
    lemma_axis_admits_mono(
        outer.z.start as int,
        outer.z.end as int,
        inner.z.start as int,
        inner.z.end as int,
        ray.origin.z as int,
        ray.direction.z as int,
        t,
    );
}

impl Default for AABB {
    /// The default box: the padded box around the origin.
    fn default() -> (r: AABB)
        ensures
            r == spec_aabb_from_points(
                Point3 { x: 0, y: 0, z: 0 },
                Point3 { x: 0, y: 0, z: 0 },
            ),
            aabb_wf(r),
    {
        AABB::default_box()
    }
}

impl AABB {
    /// The default box: the padded box around the origin.
    pub fn default_box() -> (r: AABB)
        ensures
            r == spec_aabb_from_points(
                Point3 { x: 0, y: 0, z: 0 },
                Point3 { x: 0, y: 0, z: 0 },
            ),
            aabb_wf(r),
    {
        aabb_from_points(Point3 { x: 0, y: 0, z: 0 }, Point3 { x: 0, y: 0, z: 0 })
    }

    /// The axis interval selected by index 0, 1 or 2.
    pub fn axis_interval(&self, n: u8) -> (r: &AxisRange)
        ensures
            n == 0 ==> r == self.x,
            n == 1 ==> r == self.y,
            n != 0 && n != 1 ==> r == self.z,
    {
        if n == 0 {
            &self.x
        } else if n == 1 {
            &self.y
        } else {
            &self.z
        }
    }

    /// The index of the longest axis of the bounding box, ties resolved by a
    /// fixed precedence.
    pub fn longest_axis(&self) -> (r: u8)
        ensures
            r == spec_longest_axis(*self),
    {
        let x_size: i128 = (self.x.end as i128) - (self.x.start as i128);
        let y_size: i128 = (self.y.end as i128) - (self.y.start as i128);
        let z_size: i128 = (self.z.end as i128) - (self.z.start as i128);
        if x_size > y_size && x_size > z_size {
            0
        } else if y_size > x_size && y_size > z_size {
            1
        } else {
            2
        }
    }

    /// The box shifted by the coordinates of the point.
    pub fn shifted(&self, offset: &Point3) -> (r: AABB)
        requires
            aabb_wf(*self),
        ensures
            r == spec_shift(*self, *offset),
            aabb_wf(r),
    {
        AABB {
            x: AxisRange {
                start: box_sat((self.x.start as i128) + (offset.x as i128)),
                end: box_sat((self.x.end as i128) + (offset.x as i128)),
            },
            y: AxisRange {
                start: box_sat((self.y.start as i128) + (offset.y as i128)),
                end: box_sat((self.y.end as i128) + (offset.y as i128)),
            },
            z: AxisRange {
                start: box_sat((self.z.start as i128) + (offset.z as i128)),
                end: box_sat((self.z.end as i128) + (offset.z as i128)),
            },
        }
    }

    /// The ray-slab test.  Narrows `ray_t` axis by axis and reports whether
    /// any of the interval survives; on a hit the final interval is exactly
    /// the narrowed one, and on a miss the interval has only been shrunk.
    pub fn hit(&self, ray: &Ray, ray_t: &mut RayInterval) -> (hit: bool)
        ensures
            hit == spec_slab_hit(*self, *ray, old(ray_t).start as int, old(ray_t).end as int),
            hit ==> (final(ray_t).start as int, final(ray_t).end as int) == spec_narrow(
                *self,
                *ray,
                old(ray_t).start as int,
                old(ray_t).end as int,
            ),
            old(ray_t).start <= final(ray_t).start,
            final(ray_t).end <= old(ray_t).end,
    {
        let ghost orig = *ray_t;
        if !narrow_axis(&self.x, ray.origin.x, ray.direction.x, ray_t) {
            proof {
                lemma_narrow_of_empty(*self, *ray, orig.start as int, orig.end as int);
            }
            return false;
        }
        if !narrow_axis(&self.y, ray.origin.y, ray.direction.y, ray_t) {
            proof {
                lemma_narrow_of_empty(*self, *ray, orig.start as int, orig.end as int);
            }
            return false;
        }
        narrow_axis(&self.z, ray.origin.z, ray.direction.z, ray_t)
    }
}

/// The index of the longest axis, ties resolved toward the later axis as the
/// comparison chain leaves them.
pub open spec fn spec_longest_axis(b: AABB) -> u8 {
    let x_size = b.x.end - b.x.start;
    let y_size = b.y.end - b.y.start;
    let z_size = b.z.end - b.z.start;
    if x_size > y_size && x_size > z_size {
        0
    } else if y_size > x_size && y_size > z_size {
        1
    } else {
        2
    }
}

/// One narrowing step maps an empty interval to an empty interval.
proof fn lemma_narrow_axis_of_empty(lo: int, hi: int, o: int, d: int, s: int, e: int)
    requires
        e <= s,
    ensures
        spec_narrow_axis(lo, hi, o, d, s, e).1 <= spec_narrow_axis(lo, hi, o, d, s, e).0,
{
    lemma_narrow_axis_shrinks(lo, hi, o, d, s, e);
}

/// If any intermediate interval along the three narrowing steps is empty,
/// the composed result is empty, so the slab test reports a miss.
proof fn lemma_narrow_of_empty(b: AABB, ray: Ray, s: int, e: int)
    ensures
        ({
            let nx = spec_narrow_axis(
                b.x.start as int,
                b.x.end as int,
                ray.origin.x as int,
                ray.direction.x as int,
                s,
                e,
            );
            nx.1 <= nx.0 ==> !spec_slab_hit(b, ray, s, e)
        }),
        ({
            let nx = spec_narrow_axis(
                b.x.start as int,
                b.x.end as int,
                ray.origin.x as int,
                ray.direction.x as int,
                s,
                e,
            );
            let ny = spec_narrow_axis(
                b.y.start as int,
                b.y.end as int,
                ray.origin.y as int,
                ray.direction.y as int,
                nx.0,
                nx.1,
            );
            ny.1 <= ny.0 ==> !spec_slab_hit(b, ray, s, e)
        }),
{
    let nx = spec_narrow_axis(
        b.x.start as int,
        b.x.end as int,
        ray.origin.x as int,
        ray.direction.x as int,
        s,
        e,
    );
    let ny = spec_narrow_axis(
        b.y.start as int,
        b.y.end as int,
        ray.origin.y as int,
        ray.direction.y as int,
        nx.0,
        nx.1,
    );
    if nx.1 <= nx.0 {
        lemma_narrow_axis_of_empty(
            b.y.start as int,
            b.y.end as int,
            ray.origin.y as int,
            ray.direction.y as int,
            nx.0,
            nx.1,
        );
        lemma_narrow_axis_of_empty(
            b.z.start as int,
            b.z.end as int,
            ray.origin.z as int,
            ray.direction.z as int,
            ny.0,
            ny.1,
        );
    }
    if ny.1 <= ny.0 {
        lemma_narrow_axis_of_empty(
            b.z.start as int,
            b.z.end as int,
            ray.origin.z as int,
            ray.direction.z as int,
            ny.0,
            ny.1,
        );
    }
}

/// One exec narrowing step, mirroring `spec_narrow_axis`; reports whether
/// the narrowed interval is still nonempty.
fn narrow_axis(axis: &AxisRange, o: i64, d: i64, ray_t: &mut RayInterval) -> (nonempty: bool)
    ensures
        ({
            let n = spec_narrow_axis(
                axis.start as int,
                axis.end as int,
                o as int,
                d as int,
                old(ray_t).start as int,
                old(ray_t).end as int,
            );
            &&& nonempty == (n.0 < n.1)
            &&& nonempty ==> (final(ray_t).start as int, final(ray_t).end as int) == n
            &&& old(ray_t).start <= final(ray_t).start
            &&& final(ray_t).end <= old(ray_t).end
        }),
{
    if d == 0 {
        if o < axis.start || o > axis.end {
            return false;
        }
        return ray_t.start < ray_t.end;
    }
    let t0: i128 = fdiv(((axis.start as i128) - (o as i128)) * SCALE, d as i128);
    let t1: i128 = fdiv(((axis.end as i128) - (o as i128)) * SCALE, d as i128);
    if t0 < t1 {
        if t0 > ray_t.start {
            ray_t.start = t0;
        }
        if t1 < ray_t.end {
            ray_t.end = t1;
        }
    } else {
        if t1 > ray_t.start {
            ray_t.start = t1;
        }
        if t0 < ray_t.end {
            ray_t.end = t0;
        }
    }
    ray_t.start < ray_t.end
}

/// Magnitude bound on any parameter in a narrowed window of a bounded box
/// for a bounded ray whose direction is not the zero vector.
pub const T_SLAB: i128 = 20_000_000_000_001;

/// A parameter admitted by a nonzero-direction axis of a bounded slab is
/// itself bounded.
proof fn lemma_axis_admits_bound(lo: int, hi: int, o: int, d: int, t: int)
    requires
        d != 0,
        -1_000_000_000 < lo < 1_000_000_000,
        -1_000_000_000 < hi < 1_000_000_000,
        -1_000_000_000 < o < 1_000_000_000,
        axis_admits(lo, hi, o, d, t),
    ensures
        -T_SLAB < t < T_SLAB,
{
    let t0 = spec_fdiv((lo - o) * SCALE, d);
    let t1 = spec_fdiv((hi - o) * SCALE, d);
    assert(spec_fdiv((lo - o) * SCALE, d) == spec_fdiv(-((lo - o) * SCALE), -d));
    assert(spec_fdiv((hi - o) * SCALE, d) == spec_fdiv(-((hi - o) * SCALE), -d));
    assert(-(2_000_000_000 * SCALE) < (lo - o) * SCALE < 2_000_000_000 * SCALE
        && -(2_000_000_000 * SCALE) < (hi - o) * SCALE < 2_000_000_000 * SCALE
        && -((lo - o) * SCALE) == (o - lo) * SCALE && -((hi - o) * SCALE) == (o - hi) * SCALE
        && -(2_000_000_000 * SCALE) < (o - lo) * SCALE < 2_000_000_000 * SCALE
        && -(2_000_000_000 * SCALE) < (o - hi) * SCALE < 2_000_000_000 * SCALE)
        by (nonlinear_arith)
        requires
            -1_000_000_000 < lo < 1_000_000_000,
            -1_000_000_000 < hi < 1_000_000_000,
            -1_000_000_000 < o < 1_000_000_000,
            SCALE == 10_000,
    ;
    if d > 0 {
        crate::num::lemma_fdiv_within((lo - o) * SCALE, d);
        crate::num::lemma_fdiv_within((hi - o) * SCALE, d);
    } else {
        crate::num::lemma_fdiv_within((o - lo) * SCALE, -d);
        crate::num::lemma_fdiv_within((o - hi) * SCALE, -d);
    }
    assert(-T_SLAB < t0 < T_SLAB);
    assert(-T_SLAB < t1 < T_SLAB);
}

/// Any parameter in the narrowed window of a bounded box, for a bounded ray
/// whose direction is not the zero vector, is bounded by `T_SLAB`.
pub proof fn lemma_narrow_t_bound(b: AABB, ray: Ray, s: int, e: int, t: int)
    requires
        -1_000_000_000 < b.x.start < 1_000_000_000 && -1_000_000_000 < b.x.end < 1_000_000_000,
        -1_000_000_000 < b.y.start < 1_000_000_000 && -1_000_000_000 < b.y.end < 1_000_000_000,
        -1_000_000_000 < b.z.start < 1_000_000_000 && -1_000_000_000 < b.z.end < 1_000_000_000,
        within(ray.origin, 1_000_000_000),
        !(ray.direction.x == 0 && ray.direction.y == 0 && ray.direction.z == 0),
        spec_narrow(b, ray, s, e).0 <= t < spec_narrow(b, ray, s, e).1,
    ensures
        -T_SLAB < t < T_SLAB,
{
    lemma_narrow_characterizes(b, ray, s, e, t);
    if ray.direction.x != 0 {
        lemma_axis_admits_bound(
            b.x.start as int,
            b.x.end as int,
            ray.origin.x as int,
            ray.direction.x as int,
            t,
        );
    } else if ray.direction.y != 0 {
        lemma_axis_admits_bound(
            b.y.start as int,
            b.y.end as int,
            ray.origin.y as int,
            ray.direction.y as int,
            t,
        );
    } else {
        lemma_axis_admits_bound(
            b.z.start as int,
            b.z.end as int,
            ray.origin.z as int,
            ray.direction.z as int,
            t,
        );
    }
}

} // verus!
