//! The AABB slab test: the concrete interval-narrowing scenarios, and the
//! boundary behavior of rays on faces and edges.

use bvh_tracer::aabb::aabb_from_points;
use bvh_tracer::point3::Point3;
use bvh_tracer::ray::{Ray, RayInterval};

fn unit_box() -> bvh_tracer::aabb::AABB {
    aabb_from_points(Point3 { x: 0, y: 0, z: 0 }, Point3 { x: 10_000, y: 10_000, z: 10_000 })
}

#[test]
fn narrows_to_entry_and_exit() {
    // a box spanning one unit on each axis; a ray from z = -5 straight in
    // enters at z = 0 and leaves at z = 1, five and six units along
    let b = unit_box();
    let ray = Ray::new(Point3 { x: 5_000, y: 5_000, z: -50_000 }, Point3 { x: 0, y: 0, z: 10_000 });
    let mut t = RayInterval::new(10, 1_000_000_000_000);
    assert!(b.hit(&ray, &mut t));
    assert_eq!(t.start, 50_000);
    assert_eq!(t.end, 60_000);
}

#[test]
fn pointing_away_misses() {
    let b = unit_box();
    let ray = Ray::new(
        Point3 { x: 50_000, y: 50_000, z: 50_000 },
        Point3 { x: 10_000, y: 0, z: 0 },
    );
    let mut t = RayInterval::new(10, 1_000_000_000_000);
    assert!(!b.hit(&ray, &mut t));
}

#[test]
fn origin_on_face_is_no_op_on_that_axis() {
    // the ray starts exactly on the x = 0 face, travelling along x: the
    // parallel axes leave the interval alone and nothing panics
    let b = unit_box();
    let ray = Ray::new(Point3 { x: 0, y: 5_000, z: 5_000 }, Point3 { x: 10_000, y: 0, z: 0 });
    let mut t = RayInterval::new(-1_000_000_000, 1_000_000_000_000);
    assert!(b.hit(&ray, &mut t));
    assert_eq!(t.start, 0);
    assert_eq!(t.end, 10_000);
}

#[test]
fn tangent_to_edge_per_axis() {
    // one axis-aligned ray per axis, each grazing an edge of the box
    let b = unit_box();
    let rx = Ray::new(Point3 { x: -50_000, y: 0, z: 0 }, Point3 { x: 10_000, y: 0, z: 0 });
    let ry = Ray::new(Point3 { x: 0, y: -50_000, z: 0 }, Point3 { x: 0, y: 10_000, z: 0 });
    let rz = Ray::new(Point3 { x: 0, y: 0, z: -50_000 }, Point3 { x: 0, y: 0, z: 10_000 });
    for ray in [rx, ry, rz] {
        let mut t = RayInterval::new(10, 1_000_000_000_000);
        let hit = b.hit(&ray, &mut t);
        // grazing along the face from outside: the surviving span may not
        // extend beyond the box crossing
        if hit {
            assert!(t.start >= 40_000);
            assert!(t.end <= 60_000);
        }
    }
}

#[test]
fn parallel_outside_misses() {
    // parallel to x inside y but outside z: the zero-direction axis
    // rejects it outright
    let b = unit_box();
    let ray = Ray::new(Point3 { x: -50_000, y: 5_000, z: 30_000 }, Point3 { x: 10_000, y: 0, z: 0 });
    let mut t = RayInterval::new(10, 1_000_000_000_000);
    assert!(!b.hit(&ray, &mut t));
}

#[test]
fn degenerate_box_is_padded() {
    let b = aabb_from_points(Point3 { x: 50_000, y: 50_000, z: 50_000 }, Point3 {
        x: 50_000,
        y: 50_000,
        z: 50_000,
    });
    assert_eq!(b.x.start, 49_999);
    assert_eq!(b.x.end, 50_001);
    assert!(b.y.start < b.y.end);
    assert!(b.z.start < b.z.end);
}

#[test]
fn join_encompasses_both() {
    let a = aabb_from_points(Point3 { x: 0, y: 0, z: 0 }, Point3 { x: 10_000, y: 10_000, z: 10_000 });
    let b = aabb_from_points(
        Point3 { x: -20_000, y: 5_000, z: 5_000 },
        Point3 { x: -10_000, y: 30_000, z: 8_000 },
    );
    let j = bvh_tracer::aabb::join_aabbs(&a, &b);
    assert_eq!(j.x.start, -20_000);
    assert_eq!(j.x.end, 10_000);
    assert_eq!(j.y.start, 0);
    assert_eq!(j.y.end, 30_000);
}

#[test]
fn longest_axis_precedence() {
    let b = aabb_from_points(Point3 { x: 0, y: 0, z: 0 }, Point3 { x: 30_000, y: 20_000, z: 10_000 });
    assert_eq!(b.longest_axis(), 0);
    let c = aabb_from_points(Point3 { x: 0, y: 0, z: 0 }, Point3 { x: 10_000, y: 30_000, z: 10_000 });
    assert_eq!(c.longest_axis(), 1);
    let d = aabb_from_points(Point3 { x: 0, y: 0, z: 0 }, Point3 { x: 10_000, y: 10_000, z: 10_000 });
    assert_eq!(d.longest_axis(), 2);
}
