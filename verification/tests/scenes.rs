//! The example scenes: each builds, and its world has the expected shape.

use bvh_tracer::hittable::Hittable;
use bvh_tracer::point3::Point3;
use bvh_tracer::ray::{Ray, RayInterval};
use bvh_tracer::scenes;
use bvh_tracer::sphere::Sphere;
use bvh_tracer::triangle::Triangle;

fn list_len(world: &Hittable) -> usize {
    match world {
        Hittable::List(l) => l.objects.len(),
        _ => panic!("expected a flat world"),
    }
}

#[test]
fn checkered_spheres_builds() {
    let s = scenes::checkered_spheres();
    assert_eq!(list_len(&s.world), 2);
    assert_eq!(s.materials.len(), 1);
    assert_eq!(s.camera.image_width, 400);
}

#[test]
fn earth_builds() {
    let s = scenes::earth();
    assert_eq!(list_len(&s.world), 1);
}

#[test]
fn perlin_spheres_builds() {
    let s = scenes::perlin_spheres();
    assert_eq!(list_len(&s.world), 2);
}

#[test]
fn para_builds() {
    let s = scenes::para();
    assert_eq!(list_len(&s.world), 5);
    assert_eq!(s.materials.len(), 5);
}

#[test]
fn simple_light_builds() {
    let s = scenes::simple_light();
    assert_eq!(list_len(&s.world), 3);
    assert_eq!(s.camera.background_color, Point3 { x: 0, y: 0, z: 0 });
}

#[test]
fn cornell_box_builds() {
    let s = scenes::cornell_box();
    assert_eq!(list_len(&s.world), 8);
    assert_eq!(s.materials.len(), 4);
    assert_eq!(s.camera.image_width, 600);
}

#[test]
fn cornell_smoke_builds() {
    let s = scenes::cornell_smoke();
    assert_eq!(list_len(&s.world), 8);
    assert_eq!(s.materials.len(), 6);
}

#[test]
fn cornell_quadric_builds() {
    let s = scenes::cornell_quadric();
    assert_eq!(list_len(&s.world), 8);
}

#[test]
fn debug_quadric_builds() {
    let s = scenes::debug_quadric();
    assert_eq!(list_len(&s.world), 3);
}

#[test]
fn cornell_triangle_builds() {
    let s = scenes::cornell_triangle();
    assert_eq!(list_len(&s.world), 7);
}

#[test]
fn cornell_model_builds() {
    const ONE: i64 = 10_000;
    let model = Hittable::Triangle(Triangle::new(
        Point3 { x: 0, y: 0, z: 0 },
        Point3 { x: 10 * ONE, y: 0, z: 0 },
        Point3 { x: 0, y: 10 * ONE, z: 0 },
        1,
    ));
    let s = scenes::cornell_model(model);
    assert_eq!(list_len(&s.world), 7);
}

#[test]
fn spherical_mirror_builds() {
    let s = scenes::spherical_mirror();
    assert_eq!(list_len(&s.world), 4);
    assert_eq!(s.materials.len(), 4);
}

#[test]
fn cornell_walls_are_hit_from_the_camera() {
    const ONE: i64 = 10_000;
    let s = scenes::cornell_box();
    // from the camera position straight into the box: something is hit
    let ray = Ray::new(
        Point3 { x: 278 * ONE, y: 278 * ONE, z: -800 * ONE },
        Point3 { x: 0, y: 0, z: ONE },
    );
    let hit = s.world.hit(&ray, &RayInterval::new(10, 1_000_000_000_000)).expect("wall hit");
    // the tall block stands in the way before the back wall at z = 555
    assert_eq!(hit.t, 10_915_168);
    assert!(hit.t < 1355 * ONE as i128);
}

#[test]
fn scene_spheres_carry_their_radii() {
    let s = scenes::checkered_spheres();
    match &s.world {
        Hittable::List(l) => match &l.objects[0] {
            Hittable::Sphere(Sphere { radius, .. }) => assert_eq!(*radius, 100_000),
            _ => panic!("expected a sphere"),
        },
        _ => panic!("expected a flat world"),
    }
}
