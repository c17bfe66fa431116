//! Core of a ray tracer: axis-aligned bounding boxes, a bounding-volume
//! hierarchy over a closed set of primitive shapes, and the closest-hit
//! ray-traversal protocol they share.
//!
//! All geometry is carried in fixed-point arithmetic: coordinates, directions
//! and ray parameters are integers counted in steps of `1/SCALE` of a world
//! unit.  This keeps every computation exact enough to state and prove the
//! traversal contracts; the rendering layer converts at the boundary.

pub mod aabb;
pub mod bvh;
pub mod camera;
pub mod constant_medium;
pub mod hittable;
pub mod hittable_list;
pub mod material;
pub mod num;
pub mod parallelogram;
pub mod point3;
pub mod quadric;
pub mod ray;
pub mod scenes;
pub mod sphere;
pub mod texture;
pub mod traversal;
pub mod triangle;
