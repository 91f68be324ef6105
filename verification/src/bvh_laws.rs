//! What holds of every hierarchy: its boxes are the least around what is
//! below them, and its traversal finds what a scan of the whole list finds.

use vstd::prelude::*;
use crate::aabb::{lemma_contains_antisymmetric, lemma_union_least, AABB};
use crate::bvh::{boxes_of, index_span, BVHNode, BvhChild};
use crate::hit::{
    candidates, is_nearest, lemma_scan_is_nearest, lemma_union_of_least, scan, union_of, well_behaved, Hit, HitRecord,
    Ray,
};
use crate::scalar::Scalar;

verus! {

/// No two of the entities `among` are struck at the same parameter.
pub open spec fn no_ties(cands: Seq<Option<HitRecord>>, among: Set<usize>) -> bool {
    forall|a: usize, b: usize|
        among.contains(a) && among.contains(b) && a < cands.len() && b < cands.len() && a != b && (
        #[trigger] cands[a as int]) is Some && (#[trigger] cands[b as int]) is Some ==> cands[a as int]->Some_0.t
            != cands[b as int]->Some_0.t
}

/// Two nearest strikes among the same entities have the same parameter, and
/// are the same strike where no two entities are struck at once.
pub proof fn lemma_nearest_is_unique(
    one: Option<HitRecord>,
    other: Option<HitRecord>,
    cands: Seq<Option<HitRecord>>,
    among: Set<usize>,
)
    requires
        is_nearest(one, cands, among),
        is_nearest(other, cands, among),
    ensures
        one is Some <==> other is Some,
        one is Some ==> one->Some_0.t == other->Some_0.t,
        no_ties(cands, among) ==> one == other,
{
    if one is Some {
        let a = choose|id: usize| among.contains(id) && id < cands.len() && #[trigger] cands[id as int] == one;
        assert(cands[a as int] is Some);
        if other is Some {
            let b = choose|id: usize| among.contains(id) && id < cands.len() && #[trigger] cands[id as int] == other;
            assert(cands[b as int] is Some);
        }
    } else if other is Some {
        let b = choose|id: usize| among.contains(id) && id < cands.len() && #[trigger] cands[id as int] == other;
        assert(cands[b as int] is Some);
    }
}

impl BvhChild {
    /// A tree whose boxes hold what is below them is pruned soundly by
    /// every test that gives up no box which holds the box of a struck entity.
    pub proof fn lemma_prunes_soundly<H: Hit, F: Fn(AABB, Ray, Scalar, Scalar) -> bool>(
        self,
        objects: Seq<H>,
        boxes: Seq<AABB>,
        crosses: F,
        ray: Ray,
    )
        requires
            self.bounded(boxes),
            boxes.len() == objects.len(),
            cautious(objects, boxes, crosses, ray),
        ensures
            self.prunes_soundly(objects, crosses, ray),
        decreases self,
    {
        match self {
            BvhChild::Leaf(_) => {},
            BvhChild::Node(node) => {
                node.lemma_prunes_soundly(objects, boxes, crosses, ray);
            },
        }
    }
}

/// `crosses` never says that `ray` misses a box within an interval in which
/// it strikes an entity whose own box, from `boxes`, lies within that box.
pub open spec fn cautious<H: Hit, F: Fn(AABB, Ray, Scalar, Scalar) -> bool>(
    objects: Seq<H>,
    boxes: Seq<AABB>,
    crosses: F,
    ray: Ray,
) -> bool {
    forall|around: AABB, t_min: Scalar, t_max: Scalar, id: usize|
        id < objects.len() && around.contains(boxes[id as int]) && (#[trigger] objects[id as int].strike(
            ray,
            t_min,
            t_max,
        )) is Some ==> !#[trigger] call_ensures(crosses, (around, ray, t_min, t_max), false)
}

impl BVHNode {
    /// A node whose boxes hold what is below them is pruned soundly by every
    /// test that gives up no box which holds the box of a struck entity.
    pub proof fn lemma_prunes_soundly<H: Hit, F: Fn(AABB, Ray, Scalar, Scalar) -> bool>(
        self,
        objects: Seq<H>,
        boxes: Seq<AABB>,
        crosses: F,
        ray: Ray,
    )
        requires
            self.bounded(boxes),
            boxes.len() == objects.len(),
            cautious(objects, boxes, crosses, ray),
        ensures
            self.prunes_soundly(objects, crosses, ray),
        decreases self,
    {
        self.left.lemma_prunes_soundly(objects, boxes, crosses, ray);
        self.right.lemma_prunes_soundly(objects, boxes, crosses, ray);
        self.lemma_bounds_cover(boxes);
        assert forall|t_min: Scalar, t_max: Scalar, id: usize|
            self.entities().contains(id) && id < objects.len() && (#[trigger] objects[id as int].strike(
                ray,
                t_min,
                t_max,
            )) is Some implies !call_ensures(crosses, (self.bounds, ray, t_min, t_max), false) by {
            assert(self.bounds.contains(boxes[id as int]));
        }
    }

    /// Traversal and linear scan find the same strike. Take entities that
    /// are steady and consistent for `ray`, a hierarchy over all of them
    /// whose boxes hold what is below them, and a box test that gives up no
    /// box around a struck entity. Then what the traversal reports, being
    /// the nearest strike among the entities of the hierarchy, has the
    /// parameter of what the scan of the list reports; and where no two
    /// entities are struck at the same parameter, the two reports are the
    /// same strike: parameter, point, material and all.
    pub proof fn lemma_traversal_agrees_with_scan<H: Hit, F: Fn(AABB, Ray, Scalar, Scalar) -> bool>(
        self,
        objects: Seq<H>,
        boxes: Seq<AABB>,
        crosses: F,
        ray: Ray,
        t_min: Scalar,
        t_max: Scalar,
        traversed: Option<HitRecord>,
    )
        requires
            objects.len() <= usize::MAX,
            well_behaved(objects, ray),
            boxes.len() == objects.len(),
            self.bounded(boxes),
            self.entities() == index_span(0, objects.len() as usize),
            cautious(objects, boxes, crosses, ray),
            self.prunes_soundly(objects, crosses, ray) ==> is_nearest(
                traversed,
                candidates(objects, ray, t_min, t_max),
                self.entities(),
            ),
        ensures
            traversed is Some <==> scan(objects, ray, t_min, t_max, objects.len()) is Some,
            traversed is Some ==> traversed->Some_0.t == scan(objects, ray, t_min, t_max, objects.len())->Some_0.t,
            no_ties(candidates(objects, ray, t_min, t_max), self.entities()) ==> traversed == scan(
                objects,
                ray,
                t_min,
                t_max,
                objects.len(),
            ),
    {
        self.lemma_prunes_soundly(objects, boxes, crosses, ray);
        lemma_scan_is_nearest(objects, ray, t_min, t_max, objects.len());
        assert(Set::new(|id: usize| id < objects.len()) =~= self.entities());
        lemma_nearest_is_unique(
            traversed,
            scan(objects, ray, t_min, t_max, objects.len()),
            candidates(objects, ray, t_min, t_max),
            self.entities(),
        );
    }
}

impl BvhChild {
    /// The box of a child lies within every box that holds the boxes of all
    /// entities below the child.
    pub proof fn lemma_bounds_least(self, boxes: Seq<AABB>, outer: AABB)
        requires
            self.bounded(boxes),
            forall|id: usize| self.entities().contains(id) ==> outer.contains(#[trigger] boxes[id as int]),
        ensures
            outer.contains(self.bounds(boxes)),
        decreases self,
    {
        match self {
            BvhChild::Leaf(id) => {
                assert(self.entities().contains(id));
            },
            BvhChild::Node(node) => {
                node.lemma_bounds_least(boxes, outer);
            },
        }
    }
}

impl BVHNode {
    /// The box of a node is the least box around its entities: it lies
    /// within every box that holds the boxes of all entities below the node.
    pub proof fn lemma_bounds_least(self, boxes: Seq<AABB>, outer: AABB)
        requires
            self.bounded(boxes),
            forall|id: usize| self.entities().contains(id) ==> outer.contains(#[trigger] boxes[id as int]),
        ensures
            outer.contains(self.bounds),
        decreases self,
    {
        self.left.lemma_bounds_least(boxes, outer);
        self.right.lemma_bounds_least(boxes, outer);
        lemma_union_least(self.left.bounds(boxes), self.right.bounds(boxes), outer);
    }

    /// The box at the root of a hierarchy over all members of a list is the
    /// box of the list: both are the union of the members' boxes.
    pub proof fn lemma_root_box_is_list_box(self, bounds: Seq<Option<AABB>>)
        requires
            0 < bounds.len() <= usize::MAX,
            self.bounded(boxes_of(bounds)),
            self.entities() == index_span(0, bounds.len() as usize),
            union_of(bounds, bounds.len()) is Some,
        ensures
            self.bounds == union_of(bounds, bounds.len())->Some_0,
    {
        let boxes = boxes_of(bounds);
        let whole = union_of(bounds, bounds.len())->Some_0;
        lemma_union_of_least(bounds, bounds.len());
        self.lemma_bounds_cover(boxes);
        assert forall|id: usize| self.entities().contains(id) implies whole.contains(#[trigger] boxes[id as int]) by {
            assert(bounds[id as int] is Some);
        }
        self.lemma_bounds_least(boxes, whole);
        assert forall|i: int| 0 <= i < bounds.len() implies (#[trigger] bounds[i]) is Some && self.bounds.contains(
            bounds[i]->Some_0,
        ) by {
            assert(self.entities().contains(i as usize));
            assert(boxes[i as usize as int] == bounds[i]->Some_0);
        }
        assert(self.bounds.contains(whole));
        lemma_contains_antisymmetric(self.bounds, whole);
    }
}

} // verus!
