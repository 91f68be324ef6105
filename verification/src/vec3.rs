//! Triples of scalars: points, directions and colours.

use vstd::prelude::*;
use crate::scalar::{negate, Scalar};

verus! {

/// Three scalars, each held as its order key.
#[derive(Debug, Copy, Clone, PartialEq, Eq, Structural)]
pub struct Vec3 {
    pub x: Scalar,
    pub y: Scalar,
    pub z: Scalar,
}

/// The key of 1e-8: a component nearer to zero than this counts as zero.
pub const NEAR_ZERO: Scalar = 0x3e45_798e_e230_8c3a;

/// A position in space.
pub type Point3 = Vec3;

/// An RGB colour.
pub type Color = Vec3;

impl Vec3 {
    /// The component on `axis`: 0 for x, 1 for y, anything else for z.
    pub open spec fn axis(self, axis: int) -> int {
        if axis == 0 {
            self.x as int
        } else if axis == 1 {
            self.y as int
        } else {
            self.z as int
        }
    }

    /// The vector with the given components.
    pub fn new(x: Scalar, y: Scalar, z: Scalar) -> (v: Vec3)
        ensures
            v == (Vec3 { x, y, z }),
    {
        Vec3 { x, y, z }
    }

    /// The vector whose components are those of `p`, in the order x, y, z.
    pub fn from_array(p: [Scalar; 3]) -> (v: Vec3)
        ensures
            v == (Vec3 { x: p@[0], y: p@[1], z: p@[2] }),
    {
        Vec3 { x: p[0], y: p[1], z: p[2] }
    }

    /// The components in the order x, y, z.
    pub fn as_array(&self) -> (a: [Scalar; 3])
        ensures
            a@ == seq![self.x, self.y, self.z],
    {
        [self.x, self.y, self.z]
    }

    /// Overwrites all three components with those of `other`.
    pub fn copy(&mut self, other: Vec3)
        ensures
            *final(self) == other,
    {
        self.x = other.x;
        self.y = other.y;
        self.z = other.z;
    }

    /// Overwrites all three components.
    pub fn set(&mut self, x: Scalar, y: Scalar, z: Scalar)
        ensures
            *final(self) == (Vec3 { x, y, z }),
    {
        self.x = x;
        self.y = y;
        self.z = z;
    }

    /// The opposite vector: each component replaced by its opposite.
    pub open spec fn opposite(self) -> Vec3 {
        Vec3 { x: (-1 - self.x) as i64, y: (-1 - self.y) as i64, z: (-1 - self.z) as i64 }
    }

    /// The opposite vector.
    pub fn neg(self) -> (v: Vec3)
        ensures
            v == self.opposite(),
    {
        Vec3 { x: negate(self.x), y: negate(self.y), z: negate(self.z) }
    }

    /// Whether `c` stands for a number between -1e-8 and 1e-8, both excluded.
    pub open spec fn tiny(c: Scalar) -> bool {
        -1 - NEAR_ZERO < c < NEAR_ZERO
    }

    /// Whether the vector is so short that it cannot serve as a direction:
    /// every component lies between -1e-8 and 1e-8.
    pub fn near_zero(&self) -> (near: bool)
        ensures
            near == (Self::tiny(self.x) && Self::tiny(self.y) && Self::tiny(self.z)),
    {
        let s = NEAR_ZERO;
        let low = negate(s);
        low < self.x && self.x < s && low < self.y && self.y < s && low < self.z && self.z < s
    }

    /// The component on `axis`.
    pub fn component(&self, axis: usize) -> (c: Scalar)
        requires
            axis < 3,
        ensures
            c == self.axis(axis as int),
    {
        if axis == 0 {
            self.x
        } else if axis == 1 {
            self.y
        } else {
            self.z
        }
    }
}

impl Default for Vec3 {
    /// The vector whose components stand for zero.
    fn default() -> (v: Vec3)
        ensures
            v == (Vec3 { x: 0, y: 0, z: 0 }),
    {
        Vec3 { x: 0, y: 0, z: 0 }
    }
}

} // verus!
