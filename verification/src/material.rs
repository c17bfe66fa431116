//! Material descriptions: the data the scatter/emit contract consumes once
//! an intersection is found.  The core never evaluates materials; a hit
//! record carries a handle (an index into the scene's material table), and
//! the rendering layer interprets the description behind it.

use vstd::prelude::*;

use crate::point3::Color;
use crate::texture::{SolidColor, Texture};

verus! {

/// Perfect black body: absorbs all incoming rays and emits nothing.
pub struct BlackBody {}

/// A Lambertian or ideal diffuse material.
pub struct Lambertian {
    pub texture: Texture,
}

/// A metal: mirror reflection with a fuzz radius.
pub struct Metal {
    pub albedo: Color,
    pub fuzz: i64,
}

/// A dielectric: reflects or refracts by the fixed-point refraction index.
pub struct Dielectric {
    pub refraction_index: i64,
}

/// A diffuse light: emits its texture, scatters nothing.
pub struct DiffuseLight {
    pub texture: Texture,
}

/// An isotropic phase function: scatters uniformly in all directions.
pub struct Isotropic {
    pub texture: Texture,
}

/// A material description: the closed set of scatter/emit behaviors the
/// rendering layer implements.
pub enum Material {
    BlackBody(BlackBody),
    Lambertian(Lambertian),
    Metal(Metal),
    Dielectric(Dielectric),
    DiffuseLight(DiffuseLight),
    Isotropic(Isotropic),
}

impl Lambertian {
    /// A diffuse material of one solid color.
    pub fn from_color(color: Color) -> (r: Material)
        ensures
            r == Material::Lambertian(
                Lambertian { texture: Texture::Solid(SolidColor { albedo: color }) },
            ),
    {
        Material::Lambertian(Lambertian { texture: SolidColor::new(color) })
    }

    /// A diffuse material carrying the given texture.
    pub fn from_texture(texture: Texture) -> (r: Material)
        ensures
            r == Material::Lambertian(Lambertian { texture }),
    {
        Material::Lambertian(Lambertian { texture })
    }
}

/// A metal material with the given albedo and fuzz.
pub fn metal(albedo: Color, fuzz: i64) -> (r: Material)
    ensures
        r == Material::Metal(Metal { albedo, fuzz }),
{
    Material::Metal(Metal { albedo, fuzz })
}

/// A dielectric material with the given fixed-point refraction index.
pub fn dielectric(refraction_index: i64) -> (r: Material)
    ensures
        r == Material::Dielectric(Dielectric { refraction_index }),
{
    Material::Dielectric(Dielectric { refraction_index })
}

impl DiffuseLight {
    /// A light emitting one solid color.
    pub fn from_color(color: Color) -> (r: Material)
        ensures
            r == Material::DiffuseLight(
                DiffuseLight { texture: Texture::Solid(SolidColor { albedo: color }) },
            ),
    {
        Material::DiffuseLight(DiffuseLight { texture: SolidColor::new(color) })
    }
}

impl Isotropic {
    /// An isotropic phase function carrying the given texture.
    pub fn from_color(color: Color) -> (r: Material)
        ensures
            r == Material::Isotropic(
                Isotropic { texture: Texture::Solid(SolidColor { albedo: color }) },
            ),
    {
        Material::Isotropic(Isotropic { texture: SolidColor::new(color) })
    }
}

} // verus!
