//! The primitive shapes and wrappers: exact hit parameters, interior
//! rules, transforms and the participating medium.

use bvh_tracer::constant_medium::ConstantMedium;
use bvh_tracer::hittable::{Hittable, RotateY, Translate};
use bvh_tracer::parallelogram::Parallelogram;
use bvh_tracer::point3::Point3;
use bvh_tracer::quadric::y_cylinder;
use bvh_tracer::ray::{Ray, RayInterval};
use bvh_tracer::sphere::Sphere;
use bvh_tracer::triangle::Triangle;

const ONE: i64 = 10_000;

fn window() -> RayInterval {
    RayInterval::new(10, 1_000_000_000_000)
}

#[test]
fn sphere_near_root_is_exact() {
    let s = Sphere::new(Point3 { x: 0, y: 0, z: 0 }, ONE, 3);
    let ray = Ray::new(Point3 { x: -10 * ONE, y: 0, z: 0 }, Point3 { x: ONE, y: 0, z: 0 });
    let hit = s.hit(&ray, &window()).expect("must hit");
    assert_eq!(hit.t, 9 * ONE as i128);
    assert_eq!(hit.material, 3);
    assert!(hit.front_face);
    // the outward normal at the near surface points back along the ray
    assert!(hit.normal.x < 0);
}

#[test]
fn sphere_inside_takes_far_root() {
    // from a point inside the sphere, half a unit above center: the exit
    // lies at sqrt(3)/2 of a unit along x
    let s = Sphere::new(Point3 { x: 0, y: 0, z: 0 }, ONE, 0);
    let ray = Ray::new(Point3 { x: 0, y: 5_000, z: 0 }, Point3 { x: ONE, y: 0, z: 0 });
    let hit = s.hit(&ray, &window()).expect("must hit");
    assert_eq!(hit.t, 8_660);
    assert!(!hit.front_face);
}

#[test]
fn sphere_negative_radius_clamps_to_zero() {
    let s = Sphere::new(Point3 { x: 0, y: 0, z: 0 }, -5_000, 0);
    assert_eq!(s.radius, 0);
}

#[test]
fn parallelogram_interior_and_exterior() {
    // the unit square in the xy plane at z = 1
    let q = Parallelogram::new(
        Point3 { x: 0, y: 0, z: ONE },
        Point3 { x: ONE, y: 0, z: 0 },
        Point3 { x: 0, y: ONE, z: 0 },
        4,
    );
    let inside = Ray::new(Point3 { x: 5_000, y: 5_000, z: 0 }, Point3 { x: 0, y: 0, z: ONE });
    let hit = q.hit(&inside, &window()).expect("must hit");
    assert_eq!(hit.t, ONE as i128);
    assert_eq!(hit.material, 4);
    let outside = Ray::new(Point3 { x: 15_000, y: 5_000, z: 0 }, Point3 { x: 0, y: 0, z: ONE });
    assert!(q.hit(&outside, &window()).is_none());
    let parallel = Ray::new(Point3 { x: 5_000, y: 5_000, z: 0 }, Point3 { x: ONE, y: 0, z: 0 });
    assert!(q.hit(&parallel, &window()).is_none());
}

#[test]
fn triangle_interior_rule() {
    let t = Triangle::new(
        Point3 { x: 0, y: 0, z: ONE },
        Point3 { x: ONE, y: 0, z: 0 },
        Point3 { x: 0, y: ONE, z: 0 },
        0,
    );
    // the centroid region is inside
    let inside = Ray::new(Point3 { x: 2_500, y: 2_500, z: 0 }, Point3 { x: 0, y: 0, z: ONE });
    assert!(t.hit(&inside, &window()).is_some());
    // the opposite corner of the unit square is outside the triangle
    let outside = Ray::new(Point3 { x: 8_000, y: 8_000, z: 0 }, Point3 { x: 0, y: 0, z: ONE });
    assert!(t.hit(&outside, &window()).is_none());
}

#[test]
fn triangle_from_vertices_matches_edges() {
    let t = Triangle::from_vertex_locations(
        Point3 { x: ONE, y: 0, z: 0 },
        Point3 { x: 0, y: ONE, z: 0 },
        Point3 { x: 0, y: 0, z: ONE },
        0,
    );
    assert_eq!(t.q, Point3 { x: ONE, y: 0, z: 0 });
    assert_eq!(t.u, Point3 { x: ONE, y: -ONE, z: 0 });
    assert_eq!(t.v, Point3 { x: ONE, y: 0, z: -ONE });
}

#[test]
fn cylinder_hits_like_a_circle() {
    // a vertical unit cylinder at the origin, hit straight on
    let c = y_cylinder(Point3 { x: 0, y: 0, z: 0 }, ONE, 5);
    let ray = Ray::new(Point3 { x: -10 * ONE, y: 0, z: 0 }, Point3 { x: ONE, y: 0, z: 0 });
    let hit = c.hit(&ray, &window()).expect("must hit");
    assert_eq!(hit.t, 9 * ONE as i128);
    assert_eq!(hit.material, 5);
}

#[test]
fn cylinder_clipped_by_its_box() {
    // the infinite cylinder is cut off above its box, so a ray crossing
    // far above the center misses
    let c = y_cylinder(Point3 { x: 0, y: 0, z: 0 }, ONE, 0);
    let ray = Ray::new(
        Point3 { x: -10 * ONE, y: 5 * ONE, z: 0 },
        Point3 { x: ONE, y: 0, z: 0 },
    );
    assert!(c.hit(&ray, &window()).is_none());
}

#[test]
fn translate_shifts_hits() {
    let direct = Sphere::new(Point3 { x: 3 * ONE, y: 0, z: 0 }, ONE, 0);
    let moved = Hittable::Translate(Translate::new(
        Hittable::Sphere(Sphere::new(Point3 { x: 0, y: 0, z: 0 }, ONE, 0)),
        Point3 { x: 3 * ONE, y: 0, z: 0 },
    ));
    let ray = Ray::new(Point3 { x: -10 * ONE, y: 0, z: 0 }, Point3 { x: ONE, y: 0, z: 0 });
    let a = direct.hit(&ray, &window()).expect("direct");
    let b = moved.hit(&ray, &window()).expect("moved");
    assert_eq!(a.t, b.t);
    assert_eq!(a.p, b.p);
}

#[test]
fn identity_rotation_keeps_parameter() {
    let direct = Sphere::new(Point3 { x: 3 * ONE, y: 0, z: 0 }, ONE, 0);
    let rotated = Hittable::RotateY(RotateY::new(
        Hittable::Sphere(Sphere::new(Point3 { x: 3 * ONE, y: 0, z: 0 }, ONE, 0)),
        ONE,
        0,
    ));
    let ray = Ray::new(Point3 { x: -10 * ONE, y: 0, z: 0 }, Point3 { x: ONE, y: 0, z: 0 });
    let a = direct.hit(&ray, &window()).expect("direct");
    let b = rotated.hit(&ray, &window()).expect("rotated");
    assert_eq!(a.t, b.t);
    assert_eq!(a.p, b.p);
}

#[test]
fn quarter_turn_moves_the_target() {
    // a sphere at +x, rotated a quarter turn about y, stands at -z; a ray
    // along -z must now hit it
    let rotated = Hittable::RotateY(RotateY::new(
        Hittable::Sphere(Sphere::new(Point3 { x: 3 * ONE, y: 0, z: 0 }, ONE, 0)),
        0,
        ONE,
    ));
    let ray = Ray::new(Point3 { x: 0, y: 0, z: 10 * ONE }, Point3 { x: 0, y: 0, z: -ONE });
    let hit = rotated.hit(&ray, &window()).expect("must hit");
    assert_eq!(hit.t, 12 * ONE as i128);
}

#[test]
fn medium_scatters_at_sampled_depth() {
    // a unit-sphere fog ball of density one hundredth: the free-path
    // sample of one hundredth of a unit scatters one unit past entry
    let boundary = Hittable::Sphere(Sphere::new(Point3 { x: 0, y: 0, z: 0 }, ONE, 0));
    let fog = ConstantMedium::from_color(boundary, 100, 6);
    let ray = Ray::with_free_path(
        Point3 { x: -10 * ONE, y: 0, z: 0 },
        Point3 { x: ONE, y: 0, z: 0 },
        100,
    );
    let hit = fog.hit(&ray, &window()).expect("must scatter");
    assert_eq!(hit.t, 10 * ONE as i128);
    assert_eq!(hit.material, 6);
}

#[test]
fn medium_lets_long_paths_through() {
    // a free-path sample far longer than the crossing leaves the fog
    // untouched
    let boundary = Hittable::Sphere(Sphere::new(Point3 { x: 0, y: 0, z: 0 }, ONE, 0));
    let fog = ConstantMedium::from_color(boundary, 100, 6);
    let ray = Ray::with_free_path(
        Point3 { x: -10 * ONE, y: 0, z: 0 },
        Point3 { x: ONE, y: 0, z: 0 },
        10_000,
    );
    assert!(fog.hit(&ray, &window()).is_none());
}
