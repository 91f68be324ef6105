//! Rays, hit records, and the interface of everything a ray can strike.

use vstd::prelude::*;
use std::cmp::Ordering;
use crate::aabb::{aabb_compare, surrounding_box, AABB};
use crate::scalar::{below, lt, Scalar, ZERO};
use crate::vec3::{Point3, Vec3};

verus! {

/// A ray: where it starts, where it heads, and the moment at which it is cast.
/// The direction need not have unit length.
#[derive(Debug, Copy, Clone, PartialEq, Eq, Structural)]
pub struct Ray {
    pub origin: Point3,
    pub direction: Vec3,
    pub time: Scalar,
}

impl Ray {
    /// The ray from `origin` along `direction`, cast at the moment `time`.
    pub fn new(origin: Point3, direction: Vec3, time: Scalar) -> (ray: Ray)
        ensures
            ray == (Ray { origin, direction, time }),
    {
        Ray { origin, direction, time }
    }
}

impl Default for Ray {
    /// The ray whose every component stands for zero.
    fn default() -> (ray: Ray)
        ensures
            ray == (Ray {
                origin: Vec3 { x: 0, y: 0, z: 0 },
                direction: Vec3 { x: 0, y: 0, z: 0 },
                time: 0,
            }),
    {
        Ray { origin: Vec3 { x: 0, y: 0, z: 0 }, direction: Vec3 { x: 0, y: 0, z: 0 }, time: 0 }
    }
}

/// What is known of the place where a ray struck a surface. The material is
/// named by its index in the scene's table of materials.
#[derive(Debug, Copy, Clone, PartialEq, Eq, Structural)]
pub struct HitRecord {
    pub point: Point3,
    pub normal: Vec3,
    pub t: Scalar,
    pub front_face: bool,
    pub material: Option<usize>,
    pub u: Scalar,
    pub v: Scalar,
}

impl HitRecord {
    /// The normal faces the incoming ray: it is the outward normal where the
    /// ray came from outside, and its opposite where it came from inside.
    /// `facing` is the dot product of the ray's direction and `outward_normal`;
    /// the ray came from outside where that is a number below zero.
    pub open spec fn faces(self, facing: Scalar, outward_normal: Vec3) -> bool {
        &&& self.front_face == below(facing, ZERO)
        &&& self.normal == if below(facing, ZERO) { outward_normal } else { outward_normal.opposite() }
    }

    /// Sets `front_face` and `normal` together from the outward normal of the
    /// surface and its dot product `facing` with the ray's direction.
    pub fn set_face_normal(&mut self, facing: Scalar, outward_normal: Vec3)
        ensures
            final(self).faces(facing, outward_normal),
            *final(self) == (HitRecord { front_face: final(self).front_face, normal: final(self).normal, ..*old(self) }),
    {
        self.front_face = lt(facing, ZERO);
        self.normal = if self.front_face { outward_normal } else { outward_normal.neg() };
    }

    /// Overwrites every field with that of `other`.
    pub fn copy(&mut self, other: &HitRecord)
        ensures
            *final(self) == *other,
    {
        self.point = other.point;
        self.normal = other.normal;
        self.t = other.t;
        self.front_face = other.front_face;
        self.u = other.u;
        self.v = other.v;
        match other.material {
            Some(material) => {
                self.material = Some(material);
            },
            None => {
                self.material = None;
            },
        }
    }
}

impl Default for HitRecord {
    /// The record of no strike: zero throughout, and no material.
    fn default() -> (rec: HitRecord)
        ensures
            rec == (HitRecord {
                point: Vec3 { x: 0, y: 0, z: 0 },
                normal: Vec3 { x: 0, y: 0, z: 0 },
                t: 0,
                front_face: false,
                material: None,
                u: 0,
                v: 0,
            }),
    {
        HitRecord {
            point: Vec3 { x: 0, y: 0, z: 0 },
            normal: Vec3 { x: 0, y: 0, z: 0 },
            t: 0,
            front_face: false,
            material: None,
            u: 0,
            v: 0,
        }
    }
}

/// `t` lies in the interval from `t_min` to `t_max`, its ends included.
pub open spec fn lies_within(t: Scalar, t_min: Scalar, t_max: Scalar) -> bool {
    t_min <= t <= t_max
}

/// Whether the parameter `t` lies in the interval from `t_min` to `t_max`.
pub fn in_interval(t: Scalar, t_min: Scalar, t_max: Scalar) -> (within: bool)
    ensures
        within == lies_within(t, t_min, t_max),
{
    t_min <= t && t <= t_max
}

/// Of the two parameters at which a ray crosses a closed surface, the one
/// that counts: the nearer if it lies in the interval, else the farther if
/// that does, else none.
pub open spec fn picked(near: Scalar, far: Scalar, t_min: Scalar, t_max: Scalar) -> Option<Scalar> {
    if lies_within(near, t_min, t_max) {
        Some(near)
    } else if lies_within(far, t_min, t_max) {
        Some(far)
    } else {
        None
    }
}

/// Picks the crossing that counts of the two that a ray has with a closed
/// surface.
pub fn nearest_root(near: Scalar, far: Scalar, t_min: Scalar, t_max: Scalar) -> (root: Option<Scalar>)
    ensures
        root == picked(near, far, t_min, t_max),
{
    if in_interval(near, t_min, t_max) {
        Some(near)
    } else if in_interval(far, t_min, t_max) {
        Some(far)
    } else {
        None
    }
}

/// Picking under a lower upper bound gives what picking under the higher
/// one gives, but for a crossing beyond the lower bound. So a surface that
/// reports the picked crossing answers consistently.
pub proof fn lemma_picked_narrows(near: Scalar, far: Scalar, t_min: Scalar, bound: Scalar, t_max: Scalar)
    requires
        near <= far,
        bound <= t_max,
    ensures
        picked(near, far, t_min, bound) == match picked(near, far, t_min, t_max) {
            Some(t) => if t <= bound {
                Some(t)
            } else {
                None
            },
            None => None,
        },
{
}

/// The answer to a test as one value: the strike, or nothing.
pub open spec fn outcome(struck: bool, hitrec: HitRecord) -> Option<HitRecord> {
    if struck {
        Some(hitrec)
    } else {
        None
    }
}

/// `found`, if its parameter does not exceed `bound`.
pub open spec fn narrowed(found: Option<HitRecord>, bound: Scalar) -> Option<HitRecord> {
    match found {
        Some(rec) => if rec.t <= bound {
            Some(rec)
        } else {
            None
        },
        None => None,
    }
}

/// Anything a ray can strike.
pub trait Hit {
    /// Whether the entity answers a test by the ray and the interval alone.
    /// A medium, which scatters a ray at a random depth, does not.
    spec fn steady(&self) -> bool;

    /// What a steady entity answers to a test.
    spec fn strike(&self, ray: Ray, t_min: Scalar, t_max: Scalar) -> Option<HitRecord>;

    /// The box that holds the entity between two moments, if it has one.
    spec fn bounds(&self, time0: Scalar, time1: Scalar) -> Option<AABB>;

    /// Tests `ray` against the entity over the parameters from `t_min` to
    /// `t_max`. Where the ray strikes, the strike is written to `hitrec` and
    /// its parameter lies in that interval; where it does not, `hitrec` is
    /// left as it was.
    fn hit(&self, ray: Ray, t_min: Scalar, t_max: Scalar, hitrec: &mut HitRecord) -> (struck: bool)
        ensures
            struck ==> t_min <= final(hitrec).t <= t_max,
            !struck ==> *final(hitrec) == *old(hitrec),
            self.steady() ==> outcome(struck, *final(hitrec)) == self.strike(ray, t_min, t_max),
    ;

    /// Writes to `aabb` a box that holds the entity between the moments
    /// `time0` and `time1`, and says whether there is one: an entity without
    /// bounds has none.
    fn bounding_box(&self, time0: Scalar, time1: Scalar, aabb: &mut AABB) -> (bounded: bool)
        ensures
            bounded == self.bounds(time0, time1).is_some(),
            bounded ==> *final(aabb) == self.bounds(time0, time1).unwrap(),
    ;
}

/// The entity answers a test over a shorter interval as it answers the test
/// over the longer one, but for a strike beyond the shorter interval's end:
/// there is one nearest strike, and the upper bound only decides whether it
/// is reported.
pub open spec fn consistent<H: Hit>(entity: H, ray: Ray) -> bool {
    forall|t_min: Scalar, bound: Scalar, t_max: Scalar|
        #![trigger entity.strike(ray, t_min, bound), entity.strike(ray, t_min, t_max)]
        bound <= t_max ==> entity.strike(ray, t_min, bound) == narrowed(entity.strike(ray, t_min, t_max), bound)
}

/// Every one of `objects` is steady and consistent for `ray`.
pub open spec fn well_behaved<H: Hit>(objects: Seq<H>, ray: Ray) -> bool {
    forall|i: int| 0 <= i < objects.len() ==> (#[trigger] objects[i]).steady() && consistent(objects[i], ray)
}

/// What each of `objects` answers to the same test.
pub open spec fn candidates<H: Hit>(objects: Seq<H>, ray: Ray, t_min: Scalar, t_max: Scalar) -> Seq<
    Option<HitRecord>,
> {
    Seq::new(objects.len(), |i: int| objects[i].strike(ray, t_min, t_max))
}

/// `found` is the nearest of the strikes that `cands` holds for the entities
/// `among`: it is one of them and none has a lesser parameter, or it is
/// nothing and there is none.
pub open spec fn is_nearest(found: Option<HitRecord>, cands: Seq<Option<HitRecord>>, among: Set<usize>) -> bool {
    match found {
        None => forall|id: usize| among.contains(id) && id < cands.len() ==> (#[trigger] cands[id as int]) is None,
        Some(rec) => {
            &&& exists|id: usize| among.contains(id) && id < cands.len() && #[trigger] cands[id as int] == Some(rec)
            &&& forall|id: usize|
                among.contains(id) && id < cands.len() && (#[trigger] cands[id as int]) is Some
                    ==> rec.t <= cands[id as int]->Some_0.t
        },
    }
}

/// The upper bound that the next test gets: the parameter of the nearest
/// strike so far, or the end of the interval where there is none.
pub open spec fn tightened(so_far: Option<HitRecord>, t_max: Scalar) -> Scalar {
    match so_far {
        Some(rec) => rec.t,
        None => t_max,
    }
}

/// The later strike where there is one, else the earlier.
pub open spec fn later_or(earlier: Option<HitRecord>, later: Option<HitRecord>) -> Option<HitRecord> {
    if later is Some {
        later
    } else {
        earlier
    }
}

/// What a scan of the first `n` of `objects` reports: each is tested with
/// the nearest strike so far as its upper bound, and a strike replaces what
/// was found before.
pub open spec fn scan<H: Hit>(objects: Seq<H>, ray: Ray, t_min: Scalar, t_max: Scalar, n: nat) -> Option<
    HitRecord,
>
    decreases n,
{
    if n == 0 {
        None
    } else {
        let so_far = scan(objects, ray, t_min, t_max, (n - 1) as nat);
        later_or(so_far, objects[n - 1].strike(ray, t_min, tightened(so_far, t_max)))
    }
}

/// Two searches, one after the other, find the nearest strike of all: if
/// `first` is the nearest among one set of entities, and `second` the
/// nearest among another when the first strike is taken as the upper bound,
/// then the second, or without one the first, is the nearest among both sets.
pub proof fn lemma_nearest_of_two_searches<H: Hit>(
    objects: Seq<H>,
    ray: Ray,
    t_min: Scalar,
    t_max: Scalar,
    first: Option<HitRecord>,
    second: Option<HitRecord>,
    one: Set<usize>,
    other: Set<usize>,
)
    requires
        well_behaved(objects, ray),
        is_nearest(first, candidates(objects, ray, t_min, t_max), one),
        is_nearest(second, candidates(objects, ray, t_min, tightened(first, t_max)), other),
    ensures
        is_nearest(later_or(first, second), candidates(objects, ray, t_min, t_max), one.union(other)),
        tightened(first, t_max) <= t_max,
{
    let wide = candidates(objects, ray, t_min, t_max);
    let bound = tightened(first, t_max);
    let tight = candidates(objects, ray, t_min, bound);
    // no strike lies beyond the end of its interval
    assert forall|id: usize| id < objects.len() && (#[trigger] wide[id as int]) is Some implies wide[id as int]->Some_0.t
        <= t_max by {
        let e = objects[id as int];
        assert(e.strike(ray, t_min, t_max) == narrowed(e.strike(ray, t_min, t_max), t_max));
    }
    if first is Some {
        let id = choose|id: usize| one.contains(id) && id < wide.len() && #[trigger] wide[id as int] == first;
        assert(wide[id as int] is Some);
    }
    assert(bound <= t_max);
    // under the tighter bound every entity answers as before, but for what lies beyond it
    assert forall|id: usize| id < objects.len() implies #[trigger] tight[id as int] == narrowed(
        wide[id as int],
        bound,
    ) by {
        let e = objects[id as int];
        assert(e.strike(ray, t_min, bound) == narrowed(e.strike(ray, t_min, t_max), bound));
    }
    let both = one.union(other);
    let found = later_or(first, second);
    match second {
        Some(rec) => {
            let id = choose|id: usize| other.contains(id) && id < tight.len() && #[trigger] tight[id as int] == second;
            assert(wide[id as int] == second);
            assert(both.contains(id));
            assert forall|k: usize| both.contains(k) && k < wide.len() && (#[trigger] wide[k as int]) is Some implies rec.t
                <= wide[k as int]->Some_0.t by {
                if other.contains(k) && wide[k as int]->Some_0.t <= bound {
                    assert(tight[k as int] is Some);
                }
            }
        },
        None => {
            match first {
                Some(rec) => {
                    let id = choose|id: usize|
                        one.contains(id) && id < wide.len() && #[trigger] wide[id as int] == first;
                    assert(both.contains(id));
                    assert forall|k: usize|
                        both.contains(k) && k < wide.len() && (#[trigger] wide[k as int]) is Some implies rec.t
                        <= wide[k as int]->Some_0.t by {
                        if !one.contains(k) {
                            assert(tight[k as int] is None);
                        }
                    }
                },
                None => {
                    assert forall|k: usize| both.contains(k) && k < wide.len() implies (#[trigger] wide[k as int])
                        is None by {
                        if !one.contains(k) {
                            assert(tight[k as int] is None);
                        }
                    }
                },
            }
        },
    }
}

/// A scan reports the nearest strike of the entities that it has tested.
pub proof fn lemma_scan_is_nearest<H: Hit>(objects: Seq<H>, ray: Ray, t_min: Scalar, t_max: Scalar, n: nat)
    requires
        well_behaved(objects, ray),
        n <= objects.len(),
        n <= usize::MAX,
    ensures
        is_nearest(
            scan(objects, ray, t_min, t_max, n),
            candidates(objects, ray, t_min, t_max),
            Set::new(|id: usize| id < n),
        ),
    decreases n,
{
    if n > 0 {
        let m = (n - 1) as nat;
        lemma_scan_is_nearest(objects, ray, t_min, t_max, m);
        let so_far = scan(objects, ray, t_min, t_max, m);
        let bound = tightened(so_far, t_max);
        let last = objects[n - 1].strike(ray, t_min, bound);
        let tight = candidates(objects, ray, t_min, bound);
        let before = Set::new(|id: usize| id < m);
        let only = set![m as usize];
        assert(tight[m as int] == last);
        assert(is_nearest(last, tight, only));
        lemma_nearest_of_two_searches(objects, ray, t_min, t_max, so_far, last, before, only);
        assert(before.union(only) =~= Set::new(|id: usize| id < n));
    }
}

/// The step of a closest-hit scan: what becomes of the nearest strike so far
/// once one more entity has answered. `struck` and `temp_rec` are the
/// entity's answer to a test whose upper bound was `closest_so_far`. A strike
/// replaces `hitrec` and becomes the new upper bound; a miss changes nothing.
pub fn keep_closest(
    struck: bool,
    temp_rec: &HitRecord,
    hit_anything: bool,
    closest_so_far: Scalar,
    hitrec: &mut HitRecord,
) -> (state: (bool, Scalar))
    ensures
        struck ==> state == (true, temp_rec.t) && *final(hitrec) == *temp_rec,
        !struck ==> state == (hit_anything, closest_so_far) && *final(hitrec) == *old(hitrec),
{
    if struck {
        hitrec.copy(temp_rec);
        (true, temp_rec.t)
    } else {
        (hit_anything, closest_so_far)
    }
}

/// A collection of entities, tested one after the other.
pub struct HitList<H: Hit> {
    pub objects: Vec<H>,
}

impl<H: Hit> HitList<H> {
    /// The empty collection.
    pub fn new() -> (list: HitList<H>)
        ensures
            list.objects@.len() == 0,
    {
        HitList { objects: Vec::new() }
    }

    /// Removes every entity.
    pub fn clear(&mut self)
        ensures
            final(self).objects@.len() == 0,
    {
        self.objects.clear();
    }

    /// Appends `object`.
    pub fn add(&mut self, object: H)
        ensures
            final(self).objects@ == old(self).objects@.push(object),
    {
        self.objects.push(object);
    }
}

impl<H: Hit> Hit for HitList<H> {
    /// A collection is steady where all its members are.
    open spec fn steady(&self) -> bool {
        forall|i: int| 0 <= i < self.objects@.len() ==> (#[trigger] self.objects@[i]).steady()
    }

    /// What the scan of all members reports.
    open spec fn strike(&self, ray: Ray, t_min: Scalar, t_max: Scalar) -> Option<HitRecord> {
        scan(self.objects@, ray, t_min, t_max, self.objects@.len())
    }

    /// Tests every member in turn, each with the nearest strike so far as
    /// its upper bound, and reports the last strike found, which is the
    /// nearest. An empty collection is never struck.
    fn hit(&self, ray: Ray, t_min: Scalar, t_max: Scalar, hitrec: &mut HitRecord) -> (struck: bool)
        ensures
            self.objects@.len() == 0 ==> !struck,
    {
        let mut temp_rec = HitRecord::default();
        let mut hit_anything = false;
        let mut closest_so_far = t_max;
        let n = self.objects.len();
        let mut i: usize = 0;
        while i < n
            invariant
                i <= n,
                n == self.objects@.len(),
                closest_so_far <= t_max,
                hit_anything ==> t_min <= hitrec.t <= closest_so_far,
                hit_anything ==> hitrec.t == closest_so_far,
                !hit_anything ==> *hitrec == *old(hitrec) && closest_so_far == t_max,
                n == 0 ==> !hit_anything,
                self.steady() ==> outcome(hit_anything, *hitrec) == scan(self.objects@, ray, t_min, t_max, i as nat),
            decreases n - i,
        {
            let struck = self.objects[i].hit(ray, t_min, closest_so_far, &mut temp_rec);
            let state = keep_closest(struck, &temp_rec, hit_anything, closest_so_far, hitrec);
            hit_anything = state.0;
            closest_so_far = state.1;
            i += 1;
        }
        hit_anything
    }

    open spec fn bounds(&self, time0: Scalar, time1: Scalar) -> Option<AABB> {
        union_of(self.member_bounds(time0, time1), self.objects@.len())
    }

    /// The union of the members' boxes, where every member has one. The
    /// box of an empty collection is the single point at the origin.
    fn bounding_box(&self, time0: Scalar, time1: Scalar, aabb: &mut AABB) -> (bounded: bool) {
        let mut temp_box = AABB::default();
        let mut first_box = true;
        let n = self.objects.len();
        let ghost boxes = self.member_bounds(time0, time1);
        *aabb = AABB::default();
        let mut i: usize = 0;
        while i < n
            invariant
                i <= n,
                n == self.objects@.len(),
                boxes == self.member_bounds(time0, time1),
                first_box == (i == 0),
                union_of(boxes, i as nat) == Some(*aabb),
            decreases n - i,
        {
            assert(boxes[i as int] == self.objects@[i as int].bounds(time0, time1));
            if self.objects[i].bounding_box(time0, time1, &mut temp_box) {
                *aabb = if first_box { temp_box } else { surrounding_box(temp_box, *aabb) };
                first_box = false;
            } else {
                proof {
                    lemma_union_of_absent(boxes, i as nat, n as nat);
                }
                return false;
            }
            i += 1;
        }
        true
    }
}

/// The box of each of `objects` between two moments, in their order.
pub open spec fn member_bounds<H: Hit>(objects: Seq<H>, time0: Scalar, time1: Scalar) -> Seq<Option<AABB>> {
    Seq::new(objects.len(), |i: int| objects[i].bounds(time0, time1))
}

/// The box of the single point at the origin.
pub open spec fn origin_box() -> AABB {
    AABB { min: Vec3 { x: 0, y: 0, z: 0 }, max: Vec3 { x: 0, y: 0, z: 0 } }
}

/// The union of the first `n` of `boxes`: absent where one of them is, the
/// point at the origin where `n` is 0.
pub open spec fn union_of(boxes: Seq<Option<AABB>>, n: nat) -> Option<AABB>
    decreases n,
{
    if n == 0 {
        Some(origin_box())
    } else {
        match (union_of(boxes, (n - 1) as nat), boxes[n - 1]) {
            (Some(so_far), Some(member)) => Some(if n == 1 { member } else { member.union(so_far) }),
            _ => None,
        }
    }
}

/// Once a member without a box is among the first `n`, no longer prefix has a union.
pub proof fn lemma_union_of_absent(boxes: Seq<Option<AABB>>, i: nat, n: nat)
    requires
        i < n,
        boxes[i as int] is None,
    ensures
        union_of(boxes, n) is None,
    decreases n,
{
    if n > i + 1 {
        lemma_union_of_absent(boxes, i, (n - 1) as nat);
    }
}

/// A scan under a lower upper bound reports what the scan under the higher
/// one reports, but for a strike beyond the lower bound; and no scan reports
/// a strike beyond its upper bound.
pub proof fn lemma_scan_narrows<H: Hit>(
    objects: Seq<H>,
    ray: Ray,
    t_min: Scalar,
    bound: Scalar,
    t_max: Scalar,
    n: nat,
)
    requires
        well_behaved(objects, ray),
        n <= objects.len(),
        bound <= t_max,
    ensures
        scan(objects, ray, t_min, bound, n) == narrowed(scan(objects, ray, t_min, t_max, n), bound),
        scan(objects, ray, t_min, t_max, n) is Some ==> scan(objects, ray, t_min, t_max, n)->Some_0.t <= t_max,
    decreases n,
{
    if n > 0 {
        let m = (n - 1) as nat;
        lemma_scan_narrows(objects, ray, t_min, bound, t_max, m);
        let e = objects[m as int];
        let wide = scan(objects, ray, t_min, t_max, m);
        let tight = scan(objects, ray, t_min, bound, m);
        let wide_bound = tightened(wide, t_max);
        let tight_bound = tightened(tight, bound);
        // the member's answers under the bounds at hand, each as a narrowing of a wider one
        assert(e.strike(ray, t_min, wide_bound) == narrowed(e.strike(ray, t_min, t_max), wide_bound));
        assert(e.strike(ray, t_min, wide_bound) == narrowed(e.strike(ray, t_min, wide_bound), wide_bound));
        if tight_bound <= wide_bound {
            assert(e.strike(ray, t_min, tight_bound) == narrowed(e.strike(ray, t_min, wide_bound), tight_bound));
        }
    }
}

/// A list of entities that are steady and consistent is steady and
/// consistent itself, and so may stand among the entities of another list or
/// of a hierarchy.
pub proof fn lemma_list_is_well_behaved<H: Hit>(list: HitList<H>, ray: Ray)
    requires
        well_behaved(list.objects@, ray),
    ensures
        list.steady(),
        consistent(list, ray),
{
    assert forall|t_min: Scalar, bound: Scalar, t_max: Scalar|
        #![trigger list.strike(ray, t_min, bound), list.strike(ray, t_min, t_max)]
        bound <= t_max implies list.strike(ray, t_min, bound) == narrowed(list.strike(ray, t_min, t_max), bound) by {
        lemma_scan_narrows(list.objects@, ray, t_min, bound, t_max, list.objects@.len());
    }
}

/// The union of the first `n` boxes holds each of them, and lies within
/// every box that does.
pub proof fn lemma_union_of_least(boxes: Seq<Option<AABB>>, n: nat)
    requires
        0 < n <= boxes.len(),
        union_of(boxes, n) is Some,
    ensures
        forall|i: int| 0 <= i < n ==> (#[trigger] boxes[i]) is Some && union_of(boxes, n)->Some_0.contains(boxes[i]->Some_0),
        forall|outer: AABB|
            (forall|i: int| 0 <= i < n ==> (#[trigger] boxes[i]) is Some && outer.contains(boxes[i]->Some_0))
                ==> #[trigger] outer.contains(union_of(boxes, n)->Some_0),
    decreases n,
{
    let all = union_of(boxes, n)->Some_0;
    let last = boxes[n - 1]->Some_0;
    if n > 1 {
        let m = (n - 1) as nat;
        lemma_union_of_least(boxes, m);
        let so_far = union_of(boxes, m)->Some_0;
        crate::aabb::lemma_union_contains(last, so_far);
        assert forall|i: int| 0 <= i < n implies (#[trigger] boxes[i]) is Some && all.contains(boxes[i]->Some_0) by {
            if i < m {
                crate::aabb::lemma_contains_transitive(all, so_far, boxes[i]->Some_0);
            }
        }
        assert forall|outer: AABB|
            (forall|i: int| 0 <= i < n ==> (#[trigger] boxes[i]) is Some && outer.contains(boxes[i]->Some_0))
                implies #[trigger] outer.contains(all) by {
            assert(outer.contains(so_far));
            assert(boxes[n - 1] is Some && outer.contains(last));
            crate::aabb::lemma_union_least(last, so_far, outer);
        }
    } else {
        assert(all == last);
        assert forall|outer: AABB|
            (forall|i: int| 0 <= i < n ==> (#[trigger] boxes[i]) is Some && outer.contains(boxes[i]->Some_0))
                implies #[trigger] outer.contains(all) by {
            assert(boxes[0] is Some && outer.contains(boxes[0]->Some_0));
        }
    }
}

impl<H: Hit> HitList<H> {
    /// The box of each member between two moments, in the members' order.
    pub open spec fn member_bounds(&self, time0: Scalar, time1: Scalar) -> Seq<Option<AABB>> {
        member_bounds(self.objects@, time0, time1)
    }
}

/// The least corner, on `axis`, of the box that `entity` has at the moment 0.
pub open spec fn resting_key<H: Hit>(entity: H, axis: usize) -> int {
    entity.bounds(0, 0)->Some_0.min_on(axis)
}

/// Orders two entities by the least corner of their boxes on `axis`, the
/// boxes taken at the moment 0. Both must have a box.
pub fn hit_compare<H: Hit>(a: &H, b: &H, axis: usize) -> (o: Ordering)
    requires
        axis < 3,
        a.bounds(0, 0) is Some,
        b.bounds(0, 0) is Some,
    ensures
        resting_key(*a, axis) < resting_key(*b, axis) <==> o == Ordering::Less,
        resting_key(*a, axis) > resting_key(*b, axis) <==> o == Ordering::Greater,
        resting_key(*a, axis) == resting_key(*b, axis) <==> o == Ordering::Equal,
{
    let mut box_a = AABB::default();
    let mut box_b = AABB::default();
    a.bounding_box(0, 0, &mut box_a);
    b.bounding_box(0, 0, &mut box_b);
    aabb_compare(box_a, box_b, axis)
}

} // verus!
