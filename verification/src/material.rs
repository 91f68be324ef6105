//! Textures and materials: what a surface looks like, and what becomes of a
//! ray that strikes it.

use vstd::prelude::*;
use crate::hit::{HitRecord, Ray};
use crate::scalar::Scalar;
use crate::vec3::{Color, Point3, Vec3};

verus! {

/// A texture: a colour for every point of a surface.
pub trait Value {
    /// The colour at the surface coordinates `(u, v)` and the point `p`.
    spec fn color_at(&self, u: Scalar, v: Scalar, p: Point3) -> Color;

    /// Computes `color_at`.
    fn value(&self, u: Scalar, v: Scalar, p: Point3) -> (color: Color)
        ensures
            color == self.color_at(u, v, p),
    ;
}

/// A texture of one colour.
#[derive(Debug, Copy, Clone, PartialEq, Eq, Structural)]
pub struct SolidColor {
    pub color: Color,
}

impl SolidColor {
    /// The texture of the colour `color`.
    pub fn new(color: Color) -> (texture: SolidColor)
        ensures
            texture.color == color,
    {
        SolidColor { color }
    }

    /// The texture of the colour with the given red, green and blue.
    pub fn from_rgb(r: Scalar, g: Scalar, b: Scalar) -> (texture: SolidColor)
        ensures
            texture.color == (Vec3 { x: r, y: g, z: b }),
    {
        SolidColor { color: Vec3 { x: r, y: g, z: b } }
    }
}

impl Value for SolidColor {
    /// The one colour, wherever it is asked for.
    open spec fn color_at(&self, u: Scalar, v: Scalar, p: Point3) -> Color {
        self.color
    }

    fn value(&self, u: Scalar, v: Scalar, p: Point3) -> (color: Color) {
        self.color
    }
}

/// A material: how a surface scatters the light that reaches it, and what
/// light it gives off by itself.
pub trait Scatter {
    /// Whether the surface absorbs every ray that reaches it.
    spec fn absorbs(&self) -> bool;

    /// Decides what becomes of `ray_in` at the strike `hitrec`. Where the ray
    /// is scattered, the scattered ray and the colour by which the light
    /// along it is attenuated are written out; where it is absorbed, the
    /// answer is `false`.
    fn scatter(&self, ray_in: Ray, hitrec: &mut HitRecord, attenuation: &mut Color, ray_scattered: &mut Ray) -> (
        scattered: bool
    )
        ensures
            self.absorbs() ==> !scattered,
    ;

    /// The light that the surface gives off at `(u, v)` and `p`.
    spec fn emission(&self, u: Scalar, v: Scalar, p: Point3) -> Color;

    /// Computes `emission`.
    fn emitted(&self, u: Scalar, v: Scalar, p: Point3) -> (light: Color)
        ensures
            light == self.emission(u, v, p),
    ;
}

/// A surface that gives off light and scatters none.
pub struct DiffuseLight<T: Value> {
    pub emit: T,
}

impl<T: Value> DiffuseLight<T> {
    /// The light whose glow is the texture `emit`.
    pub fn new(emit: T) -> (light: DiffuseLight<T>)
        ensures
            light.emit == emit,
    {
        DiffuseLight { emit }
    }
}

impl<T: Value> Scatter for DiffuseLight<T> {
    /// A light scatters nothing.
    open spec fn absorbs(&self) -> bool {
        true
    }

    /// A light absorbs every ray, and leaves all that it was handed as it was.
    fn scatter(&self, ray_in: Ray, hitrec: &mut HitRecord, attenuation: &mut Color, ray_scattered: &mut Ray) -> (
        scattered: bool
    )
        ensures
            !scattered,
            *final(hitrec) == *old(hitrec),
            *final(attenuation) == *old(attenuation),
            *final(ray_scattered) == *old(ray_scattered),
    {
        false
    }

    /// What the light gives off is the value of its texture.
    open spec fn emission(&self, u: Scalar, v: Scalar, p: Point3) -> Color {
        self.emit.color_at(u, v, p)
    }

    fn emitted(&self, u: Scalar, v: Scalar, p: Point3) -> (light: Color) {
        self.emit.value(u, v, p)
    }
}

} // verus!
