//! Hard-coded example scenes: each builds a world of objects with its
//! material table and camera configuration, ready for a renderer to
//! consume.  Coordinates are given in fixed point.

use vstd::prelude::*;

use crate::bvh::{all_boxes_wf, BVHNode};
use crate::camera::{Camera, CameraPosition, ImageQuality, ThinLens};
use crate::constant_medium::ConstantMedium;
use crate::hittable::{aabb_bounded, spec_bounding_box, Hittable, RotateY, Translate};
use crate::hittable_list::HittableList;
use crate::material::{metal, DiffuseLight, Isotropic, Lambertian, Material};
use crate::parallelogram::{create_box, Parallelogram};
use crate::point3::Point3;
use crate::quadric::{quadric_sphere, y_cylinder};
use crate::sphere::Sphere;
use crate::texture::{CheckerTexture, ImageTexture, PerlinNoiseTexture, Texture};
use crate::triangle::Triangle;

verus! {

/// One world unit in fixed-point coordinates (the value of `num::SCALE`).
pub const ONE: i64 = 10_000;

/// A scene: the world to trace, the material table its handles index, and
/// the camera configuration to render it with.
pub struct Scene {
    pub world: Hittable,
    pub materials: Vec<Material>,
    pub camera: Camera,
}

/// Two checkered spheres facing each other.
pub fn checkered_spheres() -> (s: Scene)
    ensures
        s.world is List,
        s.world->List_0.objects@.len() == 2,
        s.world->List_0.objects@[0] is Sphere,
        s.world->List_0.objects@[0]->Sphere_0.center == (Point3 { x: 0, y: -100_000i64, z: 0 }),
        s.world->List_0.objects@[0]->Sphere_0.radius == 100_000,
        s.world->List_0.objects@[1]->Sphere_0.center == (Point3 { x: 0, y: 100_000i64, z: 0 }),
        s.materials@.len() == 1,
        s.camera.image_width == 400,
        s.camera.vfov == 20 * ONE,
{
    let mut materials: Vec<Material> = Vec::new();
    let checker = CheckerTexture::from_colors(
        1_000,
        Point3 { x: 2_000, y: 3_000, z: 1_000 },
        Point3 { x: 9_000, y: 9_000, z: 9_000 },
    );
    materials.push(Lambertian::from_texture(checker));
    let mut world = HittableList::new();
    world.add(Hittable::Sphere(Sphere::new(Point3 { x: 0, y: -100_000, z: 0 }, 100_000, 0)));
    world.add(Hittable::Sphere(Sphere::new(Point3 { x: 0, y: 100_000, z: 0 }, 100_000, 0)));
    let camera = Camera::new(
        17_778,
        400,
        ImageQuality { samples_per_pixel: 100, max_depth: 50 },
        20 * ONE,
        ThinLens { defocus_angle: 0, focus_distance: 10 * ONE },
        CameraPosition {
            look_from: Point3 { x: 130_000, y: 20_000, z: 30_000 },
            look_at: Point3 { x: 0, y: 0, z: 0 },
            view_up: Point3 { x: 0, y: ONE, z: 0 },
        },
        Point3 { x: 7_000, y: 8_000, z: 10_000 },
    );
    Scene { world: Hittable::List(world), materials, camera }
}

/// A globe: one sphere wearing an image texture.
pub fn earth() -> (s: Scene)
    ensures
        s.world is List,
        s.world->List_0.objects@.len() == 1,
        s.world->List_0.objects@[0] is Sphere,
        s.world->List_0.objects@[0]->Sphere_0.radius == 20_000,
        s.materials@.len() == 1,
        s.camera.image_width == 400,
{
    let mut materials: Vec<Material> = Vec::new();
    let earth_texture = ImageTexture::new("textures/earthmap.jpg".to_owned());
    materials.push(Lambertian::from_texture(earth_texture));
    let mut world = HittableList::new();
    world.add(Hittable::Sphere(Sphere::new(Point3 { x: 0, y: 0, z: 0 }, 20_000, 0)));
    let camera = Camera::new(
        17_778,
        400,
        ImageQuality { samples_per_pixel: 100, max_depth: 50 },
        20 * ONE,
        ThinLens { defocus_angle: 0, focus_distance: 10 * ONE },
        CameraPosition {
            look_from: Point3 { x: 0, y: 0, z: 120_000 },
            look_at: Point3 { x: 0, y: 0, z: 0 },
            view_up: Point3 { x: 0, y: ONE, z: 0 },
        },
        Point3 { x: 7_000, y: 8_000, z: 10_000 },
    );
    Scene { world: Hittable::List(world), materials, camera }
}

/// A ground sphere and a small sphere, both in procedural noise.
pub fn perlin_spheres() -> (s: Scene)
    ensures
        s.world is List,
        s.world->List_0.objects@.len() == 2,
        s.world->List_0.objects@[0]->Sphere_0.radius == 10_000_000,
        s.world->List_0.objects@[1]->Sphere_0.center == (Point3 { x: 0, y: 20_000, z: 0 }),
        s.materials@.len() == 1,
        s.camera.image_width == 400,
{
    let mut materials: Vec<Material> = Vec::new();
    materials.push(
        Lambertian::from_texture(Texture::Perlin(PerlinNoiseTexture { scale: 2 * ONE })),
    );
    let mut world = HittableList::new();
    world.add(Hittable::Sphere(Sphere::new(Point3 { x: 0, y: -10_000_000, z: 0 }, 10_000_000, 0)));
    world.add(Hittable::Sphere(Sphere::new(Point3 { x: 0, y: 20_000, z: 0 }, 20_000, 0)));
    let camera = Camera::new(
        17_778,
        400,
        ImageQuality { samples_per_pixel: 100, max_depth: 50 },
        20 * ONE,
        ThinLens { defocus_angle: 0, focus_distance: 10 * ONE },
        CameraPosition {
            look_from: Point3 { x: 130_000, y: 20_000, z: 30_000 },
            look_at: Point3 { x: 0, y: 0, z: 0 },
            view_up: Point3 { x: 0, y: ONE, z: 0 },
        },
        Point3 { x: 7_000, y: 8_000, z: 10_000 },
    );
    Scene { world: Hittable::List(world), materials, camera }
}

/// Five parallelograms of five colors facing the camera.
pub fn para() -> (s: Scene)
    ensures
        s.world is List,
        s.world->List_0.objects@.len() == 5,
        forall|i: int| 0 <= i < 5 ==> (#[trigger] s.world->List_0.objects@[i]) is Parallelogram,
        s.materials@.len() == 5,
        s.camera.image_width == 400,
        s.camera.vfov == 80 * ONE,
{
    let mut materials: Vec<Material> = Vec::new();
    materials.push(Lambertian::from_color(Point3 { x: 10_000, y: 2_000, z: 2_000 }));
    materials.push(Lambertian::from_color(Point3 { x: 2_000, y: 10_000, z: 2_000 }));
    materials.push(Lambertian::from_color(Point3 { x: 2_000, y: 2_000, z: 10_000 }));
    materials.push(Lambertian::from_color(Point3 { x: 10_000, y: 5_000, z: 0 }));
    materials.push(Lambertian::from_color(Point3 { x: 2_000, y: 8_000, z: 8_000 }));
    let mut world = HittableList::new();
    world.add(Hittable::Parallelogram(Parallelogram::new(
        Point3 { x: -3 * ONE, y: -2 * ONE, z: 5 * ONE },
        Point3 { x: 0, y: 0, z: -4 * ONE },
        Point3 { x: 0, y: 4 * ONE, z: 0 },
        0,
    )));
    world.add(Hittable::Parallelogram(Parallelogram::new(
        Point3 { x: -2 * ONE, y: -2 * ONE, z: 0 },
        Point3 { x: 4 * ONE, y: 0, z: 0 },
        Point3 { x: 0, y: 4 * ONE, z: 0 },
        1,
    )));
    world.add(Hittable::Parallelogram(Parallelogram::new(
        Point3 { x: 3 * ONE, y: -2 * ONE, z: 1 * ONE },
        Point3 { x: 0, y: 0, z: 4 * ONE },
        Point3 { x: 0, y: 4 * ONE, z: 0 },
        2,
    )));
    world.add(Hittable::Parallelogram(Parallelogram::new(
        Point3 { x: -2 * ONE, y: 3 * ONE, z: 1 * ONE },
        Point3 { x: 4 * ONE, y: 0, z: 0 },
        Point3 { x: 0, y: 0, z: 4 * ONE },
        3,
    )));
    world.add(Hittable::Parallelogram(Parallelogram::new(
        Point3 { x: -2 * ONE, y: -3 * ONE, z: 5 * ONE },
        Point3 { x: 4 * ONE, y: 0, z: 0 },
        Point3 { x: 0, y: 0, z: -4 * ONE },
        4,
    )));
    let camera = Camera::new(
        ONE,
        400,
        ImageQuality { samples_per_pixel: 100, max_depth: 50 },
        80 * ONE,
        ThinLens { defocus_angle: 0, focus_distance: 10 * ONE },
        CameraPosition {
            look_from: Point3 { x: 0, y: 0, z: 9 * ONE },
            look_at: Point3 { x: 0, y: 0, z: 0 },
            view_up: Point3 { x: 0, y: ONE, z: 0 },
        },
        Point3 { x: 7_000, y: 8_000, z: 10_000 },
    );
    Scene { world: Hittable::List(world), materials, camera }
}

/// Noise spheres lit by one rectangular light against a black background.
pub fn simple_light() -> (s: Scene)
    ensures
        s.world is List,
        s.world->List_0.objects@.len() == 3,
        s.world->List_0.objects@[2] is Parallelogram,
        s.materials@.len() == 2,
        s.camera.image_width == 400,
        s.camera.background_color == (Point3 { x: 0, y: 0, z: 0 }),
{
    let mut materials: Vec<Material> = Vec::new();
    materials.push(
        Lambertian::from_texture(Texture::Perlin(PerlinNoiseTexture { scale: 2 * ONE })),
    );
    materials.push(DiffuseLight::from_color(Point3 { x: 4 * ONE, y: 4 * ONE, z: 4 * ONE }));
    let mut world = HittableList::new();
    world.add(Hittable::Sphere(Sphere::new(Point3 { x: 0, y: -10_000_000, z: 0 }, 10_000_000, 0)));
    world.add(Hittable::Sphere(Sphere::new(Point3 { x: 0, y: 20_000, z: 0 }, 20_000, 0)));
    world.add(Hittable::Parallelogram(Parallelogram::new(
        Point3 { x: 3 * ONE, y: 1 * ONE, z: -2 * ONE },
        Point3 { x: 2 * ONE, y: 0, z: 0 },
        Point3 { x: 0, y: 2 * ONE, z: 0 },
        1,
    )));
    let camera = Camera::new(
        17_778,
        400,
        ImageQuality { samples_per_pixel: 100, max_depth: 50 },
        20 * ONE,
        ThinLens { defocus_angle: 0, focus_distance: 10 * ONE },
        CameraPosition {
            look_from: Point3 { x: 26 * ONE, y: 3 * ONE, z: 6 * ONE },
            look_at: Point3 { x: 0, y: 2 * ONE, z: 0 },
            view_up: Point3 { x: 0, y: ONE, z: 0 },
        },
        Point3 { x: 0, y: 0, z: 0 },
    );
    Scene { world: Hittable::List(world), materials, camera }
}

/// The empty cornell box: five walls and the ceiling light, with the
/// material table `[red, white, green, light]`.
pub fn create_empty_cornell_box() -> (r: (HittableList, Vec<Material>))
    ensures
        r.0.objects@.len() == 6,
        forall|i: int| 0 <= i < 6 ==> (#[trigger] r.0.objects@[i]) is Parallelogram,
        crate::aabb::aabb_wf(r.0.bounding_box),
        r.1@.len() == 4,
{
    let mut materials: Vec<Material> = Vec::new();
    materials.push(Lambertian::from_color(Point3 { x: 6_500, y: 500, z: 500 }));
    materials.push(Lambertian::from_color(Point3 { x: 7_300, y: 7_300, z: 7_300 }));
    materials.push(Lambertian::from_color(Point3 { x: 1_200, y: 4_500, z: 1_500 }));
    materials.push(
        DiffuseLight::from_color(Point3 { x: 15 * ONE, y: 15 * ONE, z: 15 * ONE }),
    );
    let mut world = HittableList::new();
    world.add(Hittable::Parallelogram(Parallelogram::new(
        Point3 { x: 555 * ONE, y: 0, z: 0 },
        Point3 { x: 0, y: 555 * ONE, z: 0 },
        Point3 { x: 0, y: 0, z: 555 * ONE },
        2,
    )));
    world.add(Hittable::Parallelogram(Parallelogram::new(
        Point3 { x: 0, y: 0, z: 0 },
        Point3 { x: 0, y: 555 * ONE, z: 0 },
        Point3 { x: 0, y: 0, z: 555 * ONE },
        0,
    )));
    world.add(Hittable::Parallelogram(Parallelogram::new(
        Point3 { x: 113 * ONE, y: 554 * ONE, z: 127 * ONE },
        Point3 { x: 330 * ONE, y: 0, z: 0 },
        Point3 { x: 0, y: 0, z: 305 * ONE },
        3,
    )));
    world.add(Hittable::Parallelogram(Parallelogram::new(
        Point3 { x: 0, y: 555 * ONE, z: 0 },
        Point3 { x: 555 * ONE, y: 0, z: 0 },
        Point3 { x: 0, y: 0, z: 555 * ONE },
        1,
    )));
    world.add(Hittable::Parallelogram(Parallelogram::new(
        Point3 { x: 0, y: 0, z: 0 },
        Point3 { x: 555 * ONE, y: 0, z: 0 },
        Point3 { x: 0, y: 0, z: 555 * ONE },
        1,
    )));
    world.add(Hittable::Parallelogram(Parallelogram::new(
        Point3 { x: 0, y: 0, z: 555 * ONE },
        Point3 { x: 555 * ONE, y: 0, z: 0 },
        Point3 { x: 0, y: 555 * ONE, z: 0 },
        1,
    )));
    (world, materials)
}

/// The cornell-box camera shared by the cornell scenes.
fn cornell_camera(image_width: u32, image_quality: ImageQuality) -> (r: Camera)
    ensures
        r.image_width == image_width,
        r.image_quality == image_quality,
        r.vfov == 40 * ONE,
        r.background_color == (Point3 { x: 0, y: 0, z: 0 }),
        r.camera_position.look_from == (Point3 { x: (278 * ONE) as i64, y: (278 * ONE) as i64, z: (-800 * ONE) as i64 }),
{
    Camera::new(
        ONE,
        image_width,
        image_quality,
        40 * ONE,
        ThinLens { defocus_angle: 0, focus_distance: 10 * ONE },
        CameraPosition {
            look_from: Point3 { x: 278 * ONE, y: 278 * ONE, z: -800 * ONE },
            look_at: Point3 { x: 278 * ONE, y: 278 * ONE, z: 0 },
            view_up: Point3 { x: 0, y: ONE, z: 0 },
        },
        Point3 { x: 0, y: 0, z: 0 },
    )
}

/// Fixed-point cosine of 15 degrees.
pub const COS_15_DEG: i64 = 9_659;

/// Fixed-point sine of 15 degrees.
pub const SIN_15_DEG: i64 = 2_588;

/// Fixed-point cosine of -18 degrees.
pub const COS_NEG_18_DEG: i64 = 9_511;

/// Fixed-point sine of -18 degrees.
pub const SIN_NEG_18_DEG: i64 = -3_090;

/// The two rotated, translated boxes standing inside the cornell box.
fn cornell_box_blocks(tall_material: u32, short_material: u32) -> (r: (Hittable, Hittable))
    ensures
        r.0 is Translate,
        r.1 is Translate,
        crate::aabb::aabb_wf(spec_bounding_box(r.0)),
        crate::aabb::aabb_wf(spec_bounding_box(r.1)),
{
    let box1 = create_box(
        Point3 { x: 0, y: 0, z: 0 },
        Point3 { x: 165 * ONE, y: 330 * ONE, z: 165 * ONE },
        tall_material,
    );
    let box1_rotated = Hittable::RotateY(RotateY::new(
        Hittable::List(box1),
        COS_15_DEG,
        SIN_15_DEG,
    ));
    let box1_trans = Hittable::Translate(Translate::new(
        box1_rotated,
        Point3 { x: 265 * ONE, y: 0, z: 295 * ONE },
    ));
    let box2 = create_box(
        Point3 { x: 0, y: 0, z: 0 },
        Point3 { x: 165 * ONE, y: 165 * ONE, z: 165 * ONE },
        short_material,
    );
    let box2_rotated = Hittable::RotateY(RotateY::new(
        Hittable::List(box2),
        COS_NEG_18_DEG,
        SIN_NEG_18_DEG,
    ));
    let box2_trans = Hittable::Translate(Translate::new(
        box2_rotated,
        Point3 { x: 130 * ONE, y: 0, z: 65 * ONE },
    ));
    (box1_trans, box2_trans)
}

/// The classic cornell box with two rotated blocks.
pub fn cornell_box() -> (s: Scene)
    ensures
        s.world is List,
        s.world->List_0.objects@.len() == 8,
        s.world->List_0.objects@[6] is Translate,
        s.world->List_0.objects@[7] is Translate,
        s.materials@.len() == 4,
        s.camera.image_width == 600,
{
    let (mut world, materials) = create_empty_cornell_box();
    let (box1_trans, box2_trans) = cornell_box_blocks(1, 1);
    world.add(box1_trans);
    world.add(box2_trans);
    let camera = cornell_camera(600, ImageQuality { samples_per_pixel: 20, max_depth: 50 });
    Scene { world: Hittable::List(world), materials, camera }
}

/// The cornell box with the two blocks filled by smoke and fog media.
pub fn cornell_smoke() -> (s: Scene)
    ensures
        s.world is List,
        s.world->List_0.objects@.len() == 8,
        s.world->List_0.objects@[6] is ConstantMedium,
        s.world->List_0.objects@[7] is ConstantMedium,
        s.materials@.len() == 6,
        s.camera.image_width == 600,
{
    let (mut world, mut materials) = create_empty_cornell_box();
    materials.push(Isotropic::from_color(Point3 { x: 0, y: 0, z: 0 }));
    materials.push(Isotropic::from_color(Point3 { x: ONE, y: ONE, z: ONE }));
    let (box1_trans, box2_trans) = cornell_box_blocks(1, 1);
    world.add(Hittable::ConstantMedium(ConstantMedium::from_color(box1_trans, 100, 4)));
    world.add(Hittable::ConstantMedium(ConstantMedium::from_color(box2_trans, 100, 5)));
    let camera = cornell_camera(600, ImageQuality { samples_per_pixel: 20, max_depth: 50 });
    Scene { world: Hittable::List(world), materials, camera }
}

/// The cornell box holding two vertical cylinders.
pub fn cornell_quadric() -> (s: Scene)
    ensures
        s.world is List,
        s.world->List_0.objects@.len() == 8,
        s.world->List_0.objects@[6] is Quadric,
        s.world->List_0.objects@[7] is Quadric,
        s.materials@.len() == 4,
        s.camera.image_width == 600,
{
    let (mut world, materials) = create_empty_cornell_box();
    world.add(Hittable::Quadric(y_cylinder(
        Point3 { x: 150 * ONE, y: 555 * ONE / 2, z: 175 * ONE },
        50 * ONE,
        1,
    )));
    world.add(Hittable::Quadric(y_cylinder(
        Point3 { x: 400 * ONE, y: 555 * ONE / 2, z: 555 * ONE / 2 + 50 * ONE },
        80 * ONE,
        1,
    )));
    let camera = cornell_camera(600, ImageQuality::medium_quality());
    Scene { world: Hittable::List(world), materials, camera }
}

/// A lit sphere and cylinder, for checking the quadric against the sphere.
pub fn debug_quadric() -> (s: Scene)
    ensures
        s.world is List,
        s.world->List_0.objects@.len() == 3,
        s.world->List_0.objects@[1] is Sphere,
        s.world->List_0.objects@[2] is Quadric,
        s.materials@.len() == 2,
        s.camera.image_width == 600,
{
    let mut materials: Vec<Material> = Vec::new();
    materials.push(
        DiffuseLight::from_color(Point3 { x: 15 * ONE, y: 15 * ONE, z: 15 * ONE }),
    );
    materials.push(Lambertian::from_color(Point3 { x: 7_300, y: 7_300, z: 7_300 }));
    let mut world = HittableList::new();
    world.add(Hittable::Parallelogram(Parallelogram::new(
        Point3 { x: 10 * ONE, y: 10 * ONE, z: 10 * ONE },
        Point3 { x: 10 * ONE, y: 0, z: 10 * ONE },
        Point3 { x: 0, y: 10 * ONE, z: 10 * ONE },
        0,
    )));
    world.add(Hittable::Sphere(Sphere::new(Point3 { x: 3 * ONE, y: 0, z: 0 }, ONE, 1)));
    world.add(Hittable::Quadric(y_cylinder(Point3 { x: 0, y: 0, z: 0 }, ONE, 1)));
    let camera = Camera::new(
        ONE,
        600,
        ImageQuality { samples_per_pixel: 50, max_depth: 50 },
        40 * ONE,
        ThinLens { defocus_angle: 0, focus_distance: 10 * ONE },
        CameraPosition {
            look_from: Point3 { x: 0, y: 0, z: 12 * ONE },
            look_at: Point3 { x: 0, y: 0, z: 0 },
            view_up: Point3 { x: 0, y: ONE, z: 0 },
        },
        Point3 { x: 0, y: 0, z: 0 },
    );
    Scene { world: Hittable::List(world), materials, camera }
}

/// The cornell box holding one triangle.
pub fn cornell_triangle() -> (s: Scene)
    ensures
        s.world is List,
        s.world->List_0.objects@.len() == 7,
        s.world->List_0.objects@[6] is Triangle,
        s.materials@.len() == 4,
        s.camera.image_width == 300,
{
    let (mut world, materials) = create_empty_cornell_box();
    world.add(Hittable::Triangle(Triangle::new(
        Point3 { x: 555 * ONE / 2, y: 555 * ONE / 2, z: 555 * ONE / 2 },
        Point3 { x: 100 * ONE, y: 100 * ONE, z: 10 * ONE },
        Point3 { x: 100 * ONE, y: 0, z: 100 * ONE },
        1,
    )));
    let camera = cornell_camera(300, ImageQuality::low_quality());
    Scene { world: Hittable::List(world), materials, camera }
}

/// The cornell box holding a loaded polygon model.  The model (a tree of
/// triangles built from a mesh file) comes from the loader at the boundary,
/// already carrying its bounding box.
pub fn cornell_model(model: Hittable) -> (s: Scene)
    requires
        crate::aabb::aabb_wf(spec_bounding_box(model)),
    ensures
        s.world is List,
        s.world->List_0.objects@.len() == 7,
        s.world->List_0.objects@[6] is Translate,
        s.materials@.len() == 4,
        s.camera.image_width == 600,
{
    let (mut world, materials) = create_empty_cornell_box();
    world.add(Hittable::Translate(Translate::new(
        model,
        Point3 { x: 300 * ONE, y: 150 * ONE, z: 300 * ONE },
    )));
    let camera = cornell_camera(600, ImageQuality::low_quality());
    Scene { world: Hittable::List(world), materials, camera }
}

/// The next state of a linear congruential generator, used to place the
/// small spheres reproducibly.
pub fn lcg_next(state: u64) -> (r: u64)
    ensures
        r == (state * 6364136223846793005 + 1442695040888963407) as u64,
{
    let wide: u128 = (state as u128) * 6364136223846793005 + 1442695040888963407;
    #[verifier::truncate] (wide as u64)
}

/// A coordinate in `[-25, 25)` world units drawn from the generator state.
pub fn lcg_coord(state: u64) -> (r: i64)
    ensures
        -25 * ONE <= r < 25 * ONE,
{
    let span: u64 = (50 * ONE) as u64;
    let offset: u64 = (state >> 16) % span;
    (offset as i64) - 25 * ONE
}

/// A spherical mirror in a cloud of small spheres over a blue floor.
pub fn spherical_mirror() -> (s: Scene)
    ensures
        s.world is List,
        s.world->List_0.objects@.len() == 4,
        s.world->List_0.objects@[1] is Quadric,
        s.world->List_0.objects@[2] is Bvh,
        s.world->List_0.objects@[3] is Parallelogram,
        s.materials@.len() == 4,
        s.camera.image_width == 600,
{
    let mut materials: Vec<Material> = Vec::new();
    materials.push(
        DiffuseLight::from_color(Point3 { x: 15 * ONE, y: 15 * ONE, z: 15 * ONE }),
    );
    materials.push(metal(Point3 { x: 8_000, y: 8_000, z: 8_000 }, 0));
    materials.push(Lambertian::from_color(Point3 { x: 7_300, y: 7_300, z: 7_300 }));
    materials.push(Lambertian::from_color(Point3 { x: 0, y: 1_882, z: 5_608 }));
    let mut world = HittableList::new();
    world.add(Hittable::Sphere(Sphere::new(Point3 { x: 0, y: 300 * ONE, z: 0 }, 100 * ONE, 0)));
    world.add(Hittable::Quadric(quadric_sphere(Point3 { x: 0, y: 0, z: 0 }, 10 * ONE, 1)));
    let mut spheres = HittableList::new();
    let mut state: u64 = 42;
    let mut i: usize = 0;
    while i < 100
        invariant
            spheres.objects@.len() == i,
            0 <= i <= 100,
            crate::aabb::aabb_wf(spheres.bounding_box),
            all_boxes_wf(spheres.objects@),
        decreases 100 - i,
    {
        state = lcg_next(state);
        let x = lcg_coord(state);
        state = lcg_next(state);
        let y = lcg_coord(state);
        state = lcg_next(state);
        let z = lcg_coord(state);
        let sphere = Sphere::new(Point3 { x, y, z }, ONE, 2);
        let ghost before = spheres.objects@;
        spheres.add(Hittable::Sphere(sphere));
        proof {
            assert forall|j: int|
                0 <= j < spheres.objects@.len() implies crate::aabb::aabb_wf(
                #[trigger] spec_bounding_box(spheres.objects@[j]),
            ) && aabb_bounded(spec_bounding_box(spheres.objects@[j])) by {
                if j < before.len() {
                    assert(spheres.objects@[j] == before[j]);
                }
            }
        }
        i += 1;
    }
    world.add(Hittable::Bvh(Box::new(BVHNode::from_hittable_list(spheres))));
    world.add(Hittable::Parallelogram(Parallelogram::new(
        Point3 { x: -30 * ONE, y: -30 * ONE, z: -30 * ONE },
        Point3 { x: 60 * ONE, y: 0, z: 0 },
        Point3 { x: 0, y: 0, z: 60 * ONE },
        3,
    )));
    let camera = Camera::new(
        ONE,
        600,
        ImageQuality::medium_quality(),
        40 * ONE,
        ThinLens { defocus_angle: 0, focus_distance: 10 * ONE },
        CameraPosition {
            look_from: Point3 { x: -100 * ONE, y: 0, z: 0 },
            look_at: Point3 { x: 0, y: 0, z: 0 },
            view_up: Point3 { x: 0, y: ONE, z: 0 },
        },
        Point3 { x: 0, y: 0, z: 0 },
    );
    Scene { world: Hittable::List(world), materials, camera }
}

} // verus!
