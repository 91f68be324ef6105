//! Axis-aligned bounding boxes.

use vstd::prelude::*;
use std::cmp::Ordering;
use crate::scalar::{below, le, lt, not_above, Scalar, ZERO};
use crate::vec3::{Point3, Vec3};

verus! {

/// The lesser of two numbers.
pub open spec fn min_int(a: int, b: int) -> int {
    if b < a { b } else { a }
}

/// The greater of two numbers.
pub open spec fn max_int(a: int, b: int) -> int {
    if b > a { b } else { a }
}

/// A box given by its least and greatest corner.
#[derive(Debug, Copy, Clone, PartialEq, Eq, Structural)]
pub struct AABB {
    pub min: Point3,
    pub max: Point3,
}

impl AABB {
    /// On every axis the least corner does not exceed the greatest.
    pub open spec fn well_formed(self) -> bool {
        forall|a: int| 0 <= a < 3 ==> self.min.axis(a) <= #[trigger] self.max.axis(a)
    }

    /// `inner` reaches nowhere beyond this box.
    pub open spec fn contains(self, inner: AABB) -> bool {
        &&& self.min.x <= inner.min.x && inner.max.x <= self.max.x
        &&& self.min.y <= inner.min.y && inner.max.y <= self.max.y
        &&& self.min.z <= inner.min.z && inner.max.z <= self.max.z
    }

    /// The least box that holds both `self` and `other`.
    pub open spec fn union(self, other: AABB) -> AABB {
        AABB {
            min: Vec3 {
                x: min_int(self.min.x as int, other.min.x as int) as i64,
                y: min_int(self.min.y as int, other.min.y as int) as i64,
                z: min_int(self.min.z as int, other.min.z as int) as i64,
            },
            max: Vec3 {
                x: max_int(self.max.x as int, other.max.x as int) as i64,
                y: max_int(self.max.y as int, other.max.y as int) as i64,
                z: max_int(self.max.z as int, other.max.z as int) as i64,
            },
        }
    }

    /// The least corner's component on `axis`.
    pub open spec fn min_on(self, axis: usize) -> int {
        self.min.axis(axis as int)
    }

    /// The box between the corners `min` and `max`.
    pub fn new(min: Point3, max: Point3) -> (b: AABB)
        ensures
            b == (AABB { min, max }),
    {
        AABB { min, max }
    }
}

impl Default for AABB {
    /// The box of the single point at the origin.
    fn default() -> (b: AABB)
        ensures
            b == (AABB { min: Vec3 { x: 0, y: 0, z: 0 }, max: Vec3 { x: 0, y: 0, z: 0 } }),
    {
        AABB { min: Vec3 { x: 0, y: 0, z: 0 }, max: Vec3 { x: 0, y: 0, z: 0 } }
    }
}

fn lesser(a: i64, b: i64) -> (m: i64)
    ensures
        m == min_int(a as int, b as int),
{
    if b < a { b } else { a }
}

fn greater(a: i64, b: i64) -> (m: i64)
    ensures
        m == max_int(a as int, b as int),
{
    if b > a { b } else { a }
}

/// The least box that holds both `box0` and `box1`: on each axis the lesser
/// of the two minima and the greater of the two maxima.
pub fn surrounding_box(box0: AABB, box1: AABB) -> (b: AABB)
    ensures
        b == box0.union(box1),
{
    let small = Point3::new(
        lesser(box0.min.x, box1.min.x),
        lesser(box0.min.y, box1.min.y),
        lesser(box0.min.z, box1.min.z),
    );
    let big = Point3::new(
        greater(box0.max.x, box1.max.x),
        greater(box0.max.y, box1.max.y),
        greater(box0.max.z, box1.max.z),
    );
    AABB::new(small, big)
}

/// Orders two boxes by their least corner on `axis`. This serves spatial
/// partitioning only: boxes that agree on that one component are equal to it.
pub fn aabb_compare(a: AABB, b: AABB, axis: usize) -> (o: Ordering)
    requires
        axis < 3,
    ensures
        a.min_on(axis) < b.min_on(axis) <==> o == Ordering::Less,
        a.min_on(axis) > b.min_on(axis) <==> o == Ordering::Greater,
        a.min_on(axis) == b.min_on(axis) <==> o == Ordering::Equal,
{
    let ka = a.min.component(axis);
    let kb = b.min.component(axis);
    if ka < kb {
        Ordering::Less
    } else if ka > kb {
        Ordering::Greater
    } else {
        Ordering::Equal
    }
}

/// Where a ray meets the two planes that bound a box on one axis: the
/// parameter `t0` at the plane of the least corner, the parameter `t1` at
/// the plane of the greatest, and the inverse `inv_d` of the ray's direction
/// on that axis. A ray that runs against the axis meets the planes in the
/// other order.
#[derive(Debug, Copy, Clone, PartialEq, Eq, Structural)]
pub struct Slab {
    pub t0: Scalar,
    pub t1: Scalar,
    pub inv_d: Scalar,
}

impl Slab {
    /// The parameter at which the ray enters the slab.
    pub open spec fn entry(self) -> Scalar {
        if below(self.inv_d, ZERO) {
            self.t1
        } else {
            self.t0
        }
    }

    /// The parameter at which the ray leaves the slab.
    pub open spec fn exit(self) -> Scalar {
        if below(self.inv_d, ZERO) {
            self.t0
        } else {
            self.t1
        }
    }

    /// The interval from `t_min` to `t_max`, cut down to the part within the
    /// slab: it begins at the entry if that is later, and ends at the exit if
    /// that is earlier.
    pub open spec fn tighten(self, t_min: Scalar, t_max: Scalar) -> (Scalar, Scalar) {
        (
            if below(t_min, self.entry()) {
                self.entry()
            } else {
                t_min
            },
            if below(self.exit(), t_max) {
                self.exit()
            } else {
                t_max
            },
        )
    }
}

/// Whether the interval from `t_min` to `t_max` survives the slabs from
/// position `k` on: each slab tightens it, and it must never become empty.
pub open spec fn survives(slabs: Seq<Slab>, t_min: Scalar, t_max: Scalar, k: int) -> bool
    decreases slabs.len() - k,
{
    if k < 0 || k >= slabs.len() {
        true
    } else {
        let (low, high) = slabs[k].tighten(t_min, t_max);
        !not_above(high, low) && survives(slabs, low, high, k + 1)
    }
}

/// The slab test: whether a ray passes through a box between the
/// parameters `t_min` and `t_max`. `slabs` holds, for each of the three
/// axes, where the ray meets the box's two planes on that axis. The interval
/// is tightened axis by axis to the part within the slab, and the test fails
/// the moment nothing is left of it.
pub fn crosses(slabs: [Slab; 3], t_min: Scalar, t_max: Scalar) -> (through: bool)
    ensures
        through == survives(slabs@, t_min, t_max, 0),
{
    let mut low = t_min;
    let mut high = t_max;
    let mut a: usize = 0;
    while a < 3
        invariant
            a <= 3,
            slabs@.len() == 3,
            survives(slabs@, t_min, t_max, 0) == survives(slabs@, low, high, a as int),
        decreases 3 - a,
    {
        let slab = slabs[a];
        let mut t0 = slab.t0;
        let mut t1 = slab.t1;
        if lt(slab.inv_d, ZERO) {
            let swap = t0;
            t0 = t1;
            t1 = swap;
        }
        low = if lt(low, t0) { t0 } else { low };
        high = if lt(t1, high) { t1 } else { high };
        if le(high, low) {
            return false;
        }
        a += 1;
    }
    true
}

/// The union of two boxes does not depend on their order.
pub proof fn lemma_union_commutative(a: AABB, b: AABB)
    ensures
        a.union(b) == b.union(a),
{
}

/// Uniting three boxes gives the same box however they are grouped.
pub proof fn lemma_union_associative(a: AABB, b: AABB, c: AABB)
    ensures
        a.union(b).union(c) == a.union(b.union(c)),
{
}

/// The union of two boxes contains each of them.
pub proof fn lemma_union_contains(a: AABB, b: AABB)
    ensures
        a.union(b).contains(a),
        a.union(b).contains(b),
{
}

/// No smaller box does: whatever contains both boxes contains their union.
pub proof fn lemma_union_least(a: AABB, b: AABB, outer: AABB)
    requires
        outer.contains(a),
        outer.contains(b),
    ensures
        outer.contains(a.union(b)),
{
}

/// The union of two boxes that are well formed is well formed.
pub proof fn lemma_union_well_formed(a: AABB, b: AABB)
    requires
        a.well_formed(),
        b.well_formed(),
    ensures
        a.union(b).well_formed(),
{
    assert forall|k: int| 0 <= k < 3 implies a.union(b).min.axis(k) <= #[trigger] a.union(b).max.axis(k) by {
        assert(a.min.axis(k) <= a.max.axis(k));
    }
}

/// Two boxes that contain each other are one box.
pub proof fn lemma_contains_antisymmetric(a: AABB, b: AABB)
    requires
        a.contains(b),
        b.contains(a),
    ensures
        a == b,
{
}

/// Containment carries over: a box within a box within a third is within the third.
pub proof fn lemma_contains_transitive(a: AABB, b: AABB, c: AABB)
    requires
        a.contains(b),
        b.contains(c),
    ensures
        a.contains(c),
{
}

} // verus!
