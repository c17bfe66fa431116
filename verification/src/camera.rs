//! Camera configuration: the values the rendering layer derives its
//! viewport and sampling from.  The trigonometry of building the actual
//! view frame happens at render time, outside the core.

use vstd::prelude::*;

use crate::point3::{Color, Point3, Vector3};

verus! {

/// Where the camera stands and looks.
pub struct CameraPosition {
    pub look_from: Point3,
    pub look_at: Point3,
    pub view_up: Vector3,
}

/// The thin-lens parameters, in fixed-point degrees and distance.
pub struct ThinLens {
    pub defocus_angle: i64,
    pub focus_distance: i64,
}

/// How many samples each pixel gets and how deep rays may bounce.
pub struct ImageQuality {
    pub samples_per_pixel: u32,
    pub max_depth: u32,
}

impl ImageQuality {
    /// A low quality preset for debugging and prototyping: 20 samples per
    /// pixel, rays stop after 4 bounces.
    pub fn low_quality() -> (r: ImageQuality)
        ensures
            r.samples_per_pixel == 20,
            r.max_depth == 4,
    {
        ImageQuality { samples_per_pixel: 20, max_depth: 4 }
    }

    /// A medium quality preset: 200 samples per pixel, rays stop after 50
    /// bounces.
    pub fn medium_quality() -> (r: ImageQuality)
        ensures
            r.samples_per_pixel == 200,
            r.max_depth == 50,
    {
        ImageQuality { samples_per_pixel: 200, max_depth: 50 }
    }
}

/// The full camera configuration of a scene: aspect ratio and field of view
/// in fixed point, image size, quality, lens, placement and background.
pub struct Camera {
    pub aspect_ratio: i64,
    pub image_width: u32,
    pub image_quality: ImageQuality,
    pub vfov: i64,
    pub thin_lens: ThinLens,
    pub camera_position: CameraPosition,
    pub background_color: Color,
}

impl Camera {
    /// Record a camera configuration.
    pub fn new(
        aspect_ratio: i64,
        image_width: u32,
        image_quality: ImageQuality,
        vfov: i64,
        thin_lens: ThinLens,
        camera_position: CameraPosition,
        background_color: Color,
    ) -> (r: Camera)
        ensures
            r == (Camera {
                aspect_ratio,
                image_width,
                image_quality,
                vfov,
                thin_lens,
                camera_position,
                background_color,
            }),
    {
        Camera {
            aspect_ratio,
            image_width,
            image_quality,
            vfov,
            thin_lens,
            camera_position,
            background_color,
        }
    }
}

} // verus!
