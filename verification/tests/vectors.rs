//! Vector arithmetic in fixed-point coordinates: one unit is one
//! ten-thousandth of a world unit.

use bvh_tracer::point3::{cross, dot, Point3};

#[test]
fn add_two() {
    let p1 = Point3 { x: 25_000, y: -34_000, z: 4_200 };
    let p2 = Point3 { x: -13_000, y: 14_000, z: 82_200 };
    let p3 = Point3 { x: 12_000, y: -20_000, z: 86_400 };
    assert_eq!(p1.add(&p2), p3);
}

#[test]
fn subtract_two() {
    let p1 = Point3 { x: 25_000, y: -34_000, z: 4_200 };
    let p2 = Point3 { x: -13_000, y: 14_000, z: 82_200 };
    let p3 = Point3 { x: 38_000, y: -48_000, z: -78_000 };
    let resulting_point = p1.sub(&p2).sub(&p3);
    assert!(resulting_point.x.abs() < 1);
    assert!(resulting_point.y.abs() < 1);
    assert!(resulting_point.z.abs() < 1);
}

#[test]
fn negation() {
    let p1 = Point3 { x: 10_000, y: 10_000, z: 10_000 };
    let negation = Point3 { x: -10_000, y: -10_000, z: -10_000 };
    assert_eq!(p1.neg(), negation);
}

#[test]
fn indexing() {
    let p1 = Point3 { x: 10_000, y: 10_000, z: 10_000 };
    assert_eq!(p1.axis(0), p1.x);
    assert_eq!(p1.axis(1), p1.y);
    assert_eq!(p1.axis(2), p1.z);
}

#[test]
fn scale() {
    let p1 = Point3 { x: 10_000, y: 10_000, z: 10_000 };
    let c: i64 = 5_000;
    let p2 = Point3 { x: 5_000, y: 5_000, z: 5_000 };
    assert_eq!(p1.scale(c), p2);
}

#[test]
fn coordinate_wise_multiplication() {
    let p1 = Point3 { x: 20_000, y: 30_000, z: 40_000 };
    let p2 = Point3 { x: 5_000, y: 5_000, z: 5_000 };
    let p3 = Point3 { x: 10_000, y: 15_000, z: 20_000 };
    assert_eq!(p1.mul(&p2), p3);
    assert_eq!(p2.mul(&p1), p3);
}

#[test]
fn dot_product() {
    let p1 = Point3 { x: 20_000, y: 30_000, z: 40_000 };
    let p2 = Point3 { x: 5_000, y: 5_000, z: 5_000 };
    assert_eq!(dot(&p1, &p2), 45_000);
    assert_eq!(p1.dot(&p2), 45_000);
    assert_eq!(p2.dot(&p1), 45_000);
}

#[test]
fn cross_product() {
    let x = Point3 { x: 10_000, y: 0, z: 0 };
    let y = Point3 { x: 0, y: 10_000, z: 0 };
    let z = Point3 { x: 0, y: 0, z: 10_000 };
    assert_eq!(cross(&x, &y), z);
    assert_eq!(cross(&z, &x), y);
    assert_eq!(cross(&y, &z), x);
}

#[test]
fn unit_vector_of_axis() {
    let p = Point3 { x: 50_000, y: 0, z: 0 };
    let u = bvh_tracer::point3::unit_vector(p);
    assert_eq!(u, Point3 { x: 10_000, y: 0, z: 0 });
}

#[test]
fn length_of_known_vector() {
    // a 3-4-0 triangle: length 5
    let p = Point3 { x: 30_000, y: 40_000, z: 0 };
    assert_eq!(p.length(), 50_000);
}
