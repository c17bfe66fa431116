//! The hierarchy: leaf-threshold behavior, determinism, pruning never
//! losing a hit, and closest-hit preference among overlapping objects.

use bvh_tracer::bvh::BVHNode;
use bvh_tracer::hittable::Hittable;
use bvh_tracer::hittable_list::HittableList;
use bvh_tracer::point3::Point3;
use bvh_tracer::ray::{Ray, RayInterval};
use bvh_tracer::sphere::Sphere;

const ONE: i64 = 10_000;

fn sphere_at(x: i64, y: i64, z: i64, radius: i64) -> Hittable {
    Hittable::Sphere(Sphere::new(Point3 { x, y, z }, radius, 0))
}

fn row_of_spheres(n: usize) -> Vec<Hittable> {
    let mut v = Vec::new();
    for i in 0..n {
        v.push(sphere_at((i as i64) * 3 * ONE, 0, 0, ONE));
    }
    v
}

fn x_ray(from_x: i64) -> Ray {
    Ray::new(Point3 { x: from_x, y: 0, z: 0 }, Point3 { x: ONE, y: 0, z: 0 })
}

fn window() -> RayInterval {
    RayInterval::new(10, 1_000_000_000_000)
}

#[test]
fn three_spheres_nearest_first() {
    // three non-overlapping unit spheres on the x axis; a ray from the far
    // left must report the leftmost sphere's near surface
    let spheres = vec![
        sphere_at(-3 * ONE, 0, 0, ONE),
        sphere_at(0, 0, 0, ONE),
        sphere_at(3 * ONE, 0, 0, ONE),
    ];
    let tree = BVHNode::from_vec(spheres);
    let hit = tree.hit(&x_ray(-10 * ONE), &window()).expect("must hit");
    // the near surface of the sphere at x = -3 lies at x = -4, six units in
    assert_eq!(hit.t, 6 * ONE as i128);
}

#[test]
fn no_false_negatives_with_clutter() {
    // the primitive alone reports a hit; the same ray through a tree that
    // also holds off-axis clutter reports the same parameter
    let target = Sphere::new(Point3 { x: 5 * ONE, y: 0, z: 0 }, ONE, 7);
    let direct = target.hit(&x_ray(0), &window()).expect("direct hit");
    let mut objects = vec![Hittable::Sphere(target)];
    for i in 0..20 {
        objects.push(sphere_at((i as i64) * 2 * ONE, 10 * ONE, 0, ONE));
    }
    let tree = BVHNode::from_vec(objects);
    let through = tree.hit(&x_ray(0), &window()).expect("tree hit");
    assert_eq!(through.t, direct.t);
    assert_eq!(through.material, 7);
}

#[test]
fn closest_hit_with_overlapping_boxes() {
    // two overlapping spheres, arranged so the traversal probes the
    // farther one first: without the interval narrowing the farther hit
    // would survive
    let far = Hittable::Sphere(Sphere::new(Point3 { x: ONE, y: 0, z: 0 }, ONE, 1));
    let near = Hittable::Sphere(Sphere::new(Point3 { x: 0, y: 0, z: 0 }, 2 * ONE, 2));
    let mut left_list = HittableList::new();
    left_list.add(far);
    let left_box = left_list.bounding_box;
    let mut right_list = HittableList::new();
    right_list.add(near);
    let right_box = right_list.bounding_box;
    let joined = bvh_tracer::aabb::join_aabbs(&left_box, &right_box);
    let tree = BVHNode::Internal {
        left: Box::new(BVHNode::Leaf { objects: left_list, bounding_box: left_box }),
        right: Box::new(BVHNode::Leaf { objects: right_list, bounding_box: right_box }),
        bounding_box: joined,
    };
    let hit = tree.hit(&x_ray(-10 * ONE), &window()).expect("must hit");
    // the big sphere's near surface at x = -2, eight units in
    assert_eq!(hit.t, 8 * ONE as i128);
    assert_eq!(hit.material, 2);
}

#[test]
fn leaf_at_threshold() {
    let tree = BVHNode::from_vec(row_of_spheres(16));
    assert!(matches!(tree, BVHNode::Leaf { .. }));
}

#[test]
fn internal_above_threshold() {
    let tree = BVHNode::from_vec(row_of_spheres(17));
    assert!(matches!(tree, BVHNode::Internal { .. }));
}

#[test]
fn building_twice_traces_identically() {
    let t1 = BVHNode::from_vec(row_of_spheres(23));
    let t2 = BVHNode::from_vec(row_of_spheres(23));
    for from_x in [-10 * ONE, -5 * ONE, 2 * ONE + 17] {
        let a = t1.hit(&x_ray(from_x), &window());
        let b = t2.hit(&x_ray(from_x), &window());
        assert_eq!(a, b);
    }
}

#[test]
fn tree_agrees_with_flat_scan() {
    let objects = row_of_spheres(23);
    let tree = BVHNode::from_vec(row_of_spheres(23));
    let mut list = HittableList::new();
    for o in objects {
        list.add(o);
    }
    for from_x in [-10 * ONE, 4 * ONE, 100 * ONE] {
        let ray = x_ray(from_x);
        let a = tree.hit(&ray, &window());
        let b = list.hit(&ray, &window());
        match (a, b) {
            (Some(ra), Some(rb)) => assert_eq!(ra.t, rb.t),
            (None, None) => {},
            _ => panic!("tree and scan disagree"),
        }
    }
}

#[test]
fn miss_outside_every_box() {
    let tree = BVHNode::from_vec(row_of_spheres(9));
    let ray = Ray::new(
        Point3 { x: 0, y: 50 * ONE, z: 0 },
        Point3 { x: 0, y: ONE, z: 0 },
    );
    assert!(tree.hit(&ray, &window()).is_none());
}
