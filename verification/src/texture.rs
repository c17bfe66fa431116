//! Texture descriptions: the data a color-at-surface-coordinate contract
//! needs.  Evaluation (image decoding, noise generation) belongs to the
//! rendering layer; the core only carries these descriptions through.

use vstd::prelude::*;

use crate::num::{fdiv, spec_fdiv, SCALE};
use crate::point3::Color;

verus! {

/// A solid color.
pub struct SolidColor {
    pub albedo: Color,
}

/// A three-dimensional checker pattern alternating two textures.
pub struct CheckerTexture {
    pub inverse_scale: i64,
    pub even: Box<Texture>,
    pub odd: Box<Texture>,
}

/// An image looked up by surface coordinates; the rendering layer loads
/// the file at this path.
pub struct ImageTexture {
    pub path: String,
}

/// Perlin noise with the given fixed-point frequency scale; the rendering
/// layer owns the permutation tables.
pub struct PerlinNoiseTexture {
    pub scale: i64,
}

/// A texture: the closed set of color-at-surface-coordinate descriptions.
pub enum Texture {
    Solid(SolidColor),
    Checker(CheckerTexture),
    Image(ImageTexture),
    Perlin(PerlinNoiseTexture),
}

impl SolidColor {
    /// A solid color texture.
    pub fn new(color: Color) -> (r: Texture)
        ensures
            r == Texture::Solid(SolidColor { albedo: color }),
    {
        Texture::Solid(SolidColor { albedo: color })
    }
}

impl CheckerTexture {
    /// A checker of two textures with the given fixed-point cell scale.
    pub fn from_pointers(scale: i64, even: Texture, odd: Texture) -> (r: Texture)
        requires
            0 < scale,
        ensures
            r is Checker,
            r->Checker_0.inverse_scale == spec_fdiv(SCALE as int * SCALE as int, scale as int),
            r->Checker_0.even == even,
            r->Checker_0.odd == odd,
    {
        proof {
            crate::num::lemma_fdiv_within(SCALE as int * SCALE as int, scale as int);
        }
        let inverse_scale: i64 = fdiv(SCALE * SCALE, scale as i128) as i64;
        Texture::Checker(CheckerTexture { inverse_scale, even: Box::new(even), odd: Box::new(odd) })
    }

    /// A checker of two solid colors.
    pub fn from_colors(scale: i64, even: Color, odd: Color) -> (r: Texture)
        requires
            0 < scale,
        ensures
            r is Checker,
            r->Checker_0.inverse_scale == spec_fdiv(SCALE as int * SCALE as int, scale as int),
            r->Checker_0.even == Box::new(Texture::Solid(SolidColor { albedo: even })),
            r->Checker_0.odd == Box::new(Texture::Solid(SolidColor { albedo: odd })),
    {
        CheckerTexture::from_pointers(scale, SolidColor::new(even), SolidColor::new(odd))
    }
}

impl ImageTexture {
    /// An image texture referring to the file at the given path.
    pub fn new(path: String) -> (r: Texture)
        ensures
            r is Image,
            r->Image_0.path@ == path@,
    {
        Texture::Image(ImageTexture { path })
    }
}

} // verus!
