//! The bounding-volume hierarchy: a binary tree over the boxes of a scene's
//! entities, built once and then used to skip most of them for a given ray.
//!
//! Entities are named by their index in the list they come from. The tree
//! holds indices at its leaves and a box at every node.

use vstd::prelude::*;
use vstd::seq_lib::*;
use crate::aabb::{aabb_compare, lemma_contains_transitive, lemma_union_contains, surrounding_box, AABB};
use crate::hit::{
    candidates, is_nearest, later_or, lemma_nearest_of_two_searches, member_bounds, outcome, tightened, well_behaved, Hit,
    HitList, HitRecord, Ray,
};
use crate::rand::randidx;
use crate::scalar::Scalar;

verus! {

/// What hangs below a node: a single entity, or a further node.
pub enum BvhChild {
    Leaf(usize),
    Node(Box<BVHNode>),
}

/// A node of the hierarchy.
pub struct BVHNode {
    pub left: BvhChild,
    pub right: BvhChild,
    pub bounds: AABB,
}

/// The key by which entity `id` is ordered on `axis`: the least corner of its box.
pub open spec fn min_key(boxes: Seq<AABB>, id: usize, axis: usize) -> int {
    boxes[id as int].min_on(axis)
}

/// The entities at positions `start..end` of `order`.
pub open spec fn span_set(order: Seq<usize>, start: int, end: int) -> Set<usize> {
    order.subrange(start, end).to_set()
}

/// On `axis`, no entity of `left` has a greater key than any entity of `right`.
pub open spec fn separates(boxes: Seq<AABB>, axis: usize, left: Set<usize>, right: Set<usize>) -> bool {
    forall|l: usize, r: usize|
        left.contains(l) && right.contains(r) ==> min_key(boxes, l, axis) <= min_key(boxes, r, axis)
}

impl BvhChild {
    /// The entities at or below this child.
    pub open spec fn entities(self) -> Set<usize>
        decreases self,
    {
        match self {
            BvhChild::Leaf(id) => set![id],
            BvhChild::Node(node) => node.entities(),
        }
    }

    /// The box of this child: the entity's own, or the node's.
    pub open spec fn bounds(self, boxes: Seq<AABB>) -> AABB {
        match self {
            BvhChild::Leaf(id) => boxes[id as int],
            BvhChild::Node(node) => node.bounds,
        }
    }

    /// Every leaf below names an entity of `boxes`, and every node below
    /// holds the union of its children's boxes.
    pub open spec fn bounded(self, boxes: Seq<AABB>) -> bool
        decreases self,
    {
        match self {
            BvhChild::Leaf(id) => id < boxes.len(),
            BvhChild::Node(node) => node.bounded(boxes),
        }
    }

    /// Every node below splits its entities along some axis.
    pub open spec fn partitioned(self, boxes: Seq<AABB>) -> bool
        decreases self,
    {
        match self {
            BvhChild::Leaf(_) => true,
            BvhChild::Node(node) => node.partitioned(boxes),
        }
    }

    /// Every leaf below names one of the first `count` entities.
    pub open spec fn addresses(self, count: nat) -> bool
        decreases self,
    {
        match self {
            BvhChild::Leaf(id) => id < count,
            BvhChild::Node(node) => node.addresses(count),
        }
    }

    /// Below this child `crosses` gives up no node under which `ray` strikes.
    pub open spec fn prunes_soundly<H: Hit, F: Fn(AABB, Ray, Scalar, Scalar) -> bool>(
        self,
        objects: Seq<H>,
        crosses: F,
        ray: Ray,
    ) -> bool
        decreases self,
    {
        match self {
            BvhChild::Leaf(_) => true,
            BvhChild::Node(node) => node.prunes_soundly(objects, crosses, ray),
        }
    }

    /// The shape that a child standing for `span` entities has.
    pub open spec fn shaped(self, span: nat) -> bool
        decreases self,
    {
        match self {
            BvhChild::Leaf(_) => false,
            BvhChild::Node(node) => node.shaped(span),
        }
    }
}

impl BVHNode {
    /// The entities below this node.
    pub open spec fn entities(self) -> Set<usize>
        decreases self,
    {
        self.left.entities().union(self.right.entities())
    }

    /// This node and all below it hold the union of their children's boxes,
    /// and every leaf names an entity of `boxes`.
    pub open spec fn bounded(self, boxes: Seq<AABB>) -> bool
        decreases self,
    {
        &&& self.left.bounded(boxes)
        &&& self.right.bounded(boxes)
        &&& self.bounds == self.left.bounds(boxes).union(self.right.bounds(boxes))
    }

    /// Every leaf below this node names one of the first `count` entities.
    pub open spec fn addresses(self, count: nat) -> bool
        decreases self,
    {
        self.left.addresses(count) && self.right.addresses(count)
    }

    /// At this node and at all below it, `crosses` never says that `ray`
    /// misses the node's box within an interval in which it strikes an
    /// entity below the node.
    pub open spec fn prunes_soundly<H: Hit, F: Fn(AABB, Ray, Scalar, Scalar) -> bool>(
        self,
        objects: Seq<H>,
        crosses: F,
        ray: Ray,
    ) -> bool
        decreases self,
    {
        &&& self.left.prunes_soundly(objects, crosses, ray)
        &&& self.right.prunes_soundly(objects, crosses, ray)
        &&& forall|t_min: Scalar, t_max: Scalar, id: usize|
            self.entities().contains(id) && id < objects.len() && (#[trigger] objects[id as int].strike(
                ray,
                t_min,
                t_max,
            )) is Some ==> !call_ensures(crosses, (self.bounds, ray, t_min, t_max), false)
    }

    /// At this node and at all below it there is an axis on which no entity
    /// on the left has a greater key than any entity on the right.
    pub open spec fn partitioned(self, boxes: Seq<AABB>) -> bool
        decreases self,
    {
        &&& self.left.partitioned(boxes)
        &&& self.right.partitioned(boxes)
        &&& exists|axis: usize|
            axis < 3 && #[trigger] separates(boxes, axis, self.left.entities(), self.right.entities())
    }

    /// The shape of a tree built over `span` entities: two leaves where
    /// `span` is 1 or 2, else a node over the first `span / 2` of them and a
    /// node over the rest.
    pub open spec fn shaped(self, span: nat) -> bool
        decreases self,
    {
        if span == 0 {
            false
        } else if span <= 2 {
            self.left is Leaf && self.right is Leaf
        } else {
            &&& self.left.shaped(span / 2)
            &&& self.right.shaped((span - span / 2) as nat)
        }
    }
}

/// Positions `start..end` of `order` name entities of `boxes`.
pub open spec fn names_entities(order: Seq<usize>, boxes: Seq<AABB>, start: usize, end: usize) -> bool {
    forall|i: int| start <= i < end ==> #[trigger] order[i] < boxes.len()
}

/// Along positions `start..end` of `order` the keys on `axis` never fall.
pub open spec fn sorted_span(order: Seq<usize>, boxes: Seq<AABB>, axis: usize, start: usize, end: usize) -> bool {
    forall|i: int, j: int|
        start <= i <= j < end ==> min_key(boxes, #[trigger] order[i], axis) <= min_key(boxes, #[trigger] order[j], axis)
}

/// `after` is `before` with positions `start..end` put in another order and
/// nothing else touched.
pub open spec fn rearranged(before: Seq<usize>, after: Seq<usize>, start: usize, end: usize) -> bool {
    &&& after.len() == before.len()
    &&& forall|i: int| 0 <= i < before.len() && !(start <= i < end) ==> #[trigger] after[i] == before[i]
    &&& after.subrange(start as int, end as int).to_multiset() == before.subrange(start as int, end as int).to_multiset()
}

/// Calls `sort_unstable_by` of `std` on the slice `order[start..end]`, with a
/// comparator that orders two entities by `aabb_compare` of their boxes on
/// `axis`. `std` documents that the slice is sorted by the comparator in
/// place, and that equal elements may change places: so the span holds what
/// it held, in an order in which the keys never fall, and the rest of the
/// vector is as it was.
#[verifier::external_body]
fn sort_span(order: &mut Vec<usize>, start: usize, end: usize, boxes: &Vec<AABB>, axis: usize)
    requires
        start <= end <= old(order).len(),
        axis < 3,
        names_entities(old(order)@, boxes@, start, end),
    ensures
        rearranged(old(order)@, final(order)@, start, end),
        sorted_span(final(order)@, boxes@, axis, start, end),
{
    order[start..end].sort_unstable_by(|a, b| aabb_compare(boxes[*a], boxes[*b], axis));
}

/// Whether entity `a` does not come after entity `b` on `axis`.
fn comes_first(boxes: &Vec<AABB>, a: usize, b: usize, axis: usize) -> (r: bool)
    requires
        a < boxes.len(),
        b < boxes.len(),
        axis < 3,
    ensures
        r == (min_key(boxes@, a, axis) <= min_key(boxes@, b, axis)),
{
    match aabb_compare(boxes[a], boxes[b], axis) {
        std::cmp::Ordering::Greater => false,
        _ => true,
    }
}

/// Two sequences with the same multiset hold the same values.
proof fn lemma_same_members(a: Seq<usize>, b: Seq<usize>)
    requires
        a.to_multiset() == b.to_multiset(),
    ensures
        forall|v: usize| a.contains(v) <==> b.contains(v),
        a.to_set() == b.to_set(),
{
    assert forall|v: usize| a.contains(v) <==> b.contains(v) by {
        to_multiset_contains(a, v);
        to_multiset_contains(b, v);
    }
    assert(a.to_set() =~= b.to_set());
}

proof fn lemma_rearranged_names(before: Seq<usize>, after: Seq<usize>, boxes: Seq<AABB>, start: usize, end: usize)
    requires
        start <= end <= before.len(),
        rearranged(before, after, start, end),
        names_entities(before, boxes, start, end),
    ensures
        names_entities(after, boxes, start, end),
        span_set(after, start as int, end as int) == span_set(before, start as int, end as int),
{
    let b = before.subrange(start as int, end as int);
    let a = after.subrange(start as int, end as int);
    lemma_same_members(a, b);
    assert forall|i: int| start <= i < end implies #[trigger] after[i] < boxes.len() by {
        assert(a[i - start] == after[i]);
        assert(a.contains(a[i - start]));
        assert(b.contains(after[i]));
        let j = choose|j: int| 0 <= j < b.len() && b[j] == after[i];
        assert(before[j + start] == after[i]);
    }
}

proof fn lemma_span_split(order: Seq<usize>, start: int, mid: int, end: int)
    requires
        0 <= start <= mid <= end <= order.len(),
    ensures
        span_set(order, start, end) == span_set(order, start, mid).union(span_set(order, mid, end)),
{
    let l = order.subrange(start, mid);
    let r = order.subrange(mid, end);
    assert(order.subrange(start, end) =~= l + r);
    seq_to_set_distributes_over_add(l, r);
}

proof fn lemma_sorted_separates(order: Seq<usize>, boxes: Seq<AABB>, axis: usize, start: usize, mid: usize, end: usize)
    requires
        start <= mid <= end <= order.len(),
        sorted_span(order, boxes, axis, start, end),
    ensures
        separates(boxes, axis, span_set(order, start as int, mid as int), span_set(order, mid as int, end as int)),
{
    let l = order.subrange(start as int, mid as int);
    let r = order.subrange(mid as int, end as int);
    assert forall|x: usize, y: usize| l.to_set().contains(x) && r.to_set().contains(y) implies min_key(boxes, x, axis)
        <= min_key(boxes, y, axis) by {
        let i = choose|i: int| 0 <= i < l.len() && l[i] == x;
        let j = choose|j: int| 0 <= j < r.len() && r[j] == y;
        assert(order[i + start] == x);
        assert(order[j + mid] == y);
    }
}

/// Builds the node over the entities at positions `start..end` of `order`,
/// putting those positions in another order on the way.
fn build(boxes: &Vec<AABB>, order: &mut Vec<usize>, start: usize, end: usize) -> (node: BVHNode)
    requires
        start < end <= old(order).len(),
        names_entities(old(order)@, boxes@, start, end),
    ensures
        rearranged(old(order)@, final(order)@, start, end),
        node.shaped((end - start) as nat),
        node.bounded(boxes@),
        node.partitioned(boxes@),
        node.entities() == span_set(old(order)@, start as int, end as int),
    decreases end - start,
{
    let axis = randidx(0, 3);
    let object_span = end - start;
    let ghost before = order@;
    if object_span == 1 {
        let id = order[start];
        let bounds = surrounding_box(boxes[id], boxes[id]);
        let node = BVHNode { left: BvhChild::Leaf(id), right: BvhChild::Leaf(id), bounds };
        proof {
            assert(before.subrange(start as int, end as int) =~= seq![id]);
            assert(seq![id].to_set() =~= set![id]) by {
                assert(seq![id][0] == id);
            }
            assert(node.entities() =~= set![id]);
            assert(separates(boxes@, axis, node.left.entities(), node.right.entities()));
        }
        node
    } else if object_span == 2 {
        let a = order[start];
        let b = order[start + 1];
        let node = if comes_first(boxes, a, b, axis) {
            BVHNode {
                left: BvhChild::Leaf(a),
                right: BvhChild::Leaf(b),
                bounds: surrounding_box(boxes[a], boxes[b]),
            }
        } else {
            BVHNode {
                left: BvhChild::Leaf(b),
                right: BvhChild::Leaf(a),
                bounds: surrounding_box(boxes[b], boxes[a]),
            }
        };
        proof {
            assert(before.subrange(start as int, end as int) =~= seq![a, b]);
            assert(seq![a, b].to_set() =~= set![a].union(set![b])) by {
                assert(seq![a, b][0] == a);
                assert(seq![a, b][1] == b);
            }
            assert(node.entities() =~= set![a].union(set![b]));
            assert(separates(boxes@, axis, node.left.entities(), node.right.entities()));
        }
        node
    } else {
        sort_span(order, start, end, boxes, axis);
        let ghost sorted = order@;
        let mid = start + object_span / 2;
        proof {
            lemma_rearranged_names(before, sorted, boxes@, start, end);
            lemma_span_split(sorted, start as int, mid as int, end as int);
            lemma_sorted_separates(sorted, boxes@, axis, start, mid, end);
        }
        let left = build(boxes, order, start, mid);
        let ghost halfway = order@;
        proof {
            assert(halfway.subrange(mid as int, end as int) =~= sorted.subrange(mid as int, end as int));
        }
        let right = build(boxes, order, mid, end);
        proof {
            let done = order@;
            assert(done.subrange(start as int, mid as int) =~= halfway.subrange(start as int, mid as int));
            assert(done.subrange(start as int, end as int) =~= done.subrange(start as int, mid as int)
                + done.subrange(mid as int, end as int));
            assert(sorted.subrange(start as int, end as int) =~= sorted.subrange(start as int, mid as int)
                + sorted.subrange(mid as int, end as int));
            lemma_multiset_commutative(
                done.subrange(start as int, mid as int),
                done.subrange(mid as int, end as int),
            );
            lemma_multiset_commutative(
                sorted.subrange(start as int, mid as int),
                sorted.subrange(mid as int, end as int),
            );
            assert(rearranged(before, done, start, end));
        }
        let bounds = surrounding_box(left.bounds, right.bounds);
        let node = BVHNode { left: BvhChild::Node(Box::new(left)), right: BvhChild::Node(Box::new(right)), bounds };
        proof {
            assert(separates(boxes@, axis, node.left.entities(), node.right.entities()));
        }
        node
    }
}

/// Why a hierarchy could not be built.
#[derive(Debug, Copy, Clone, PartialEq, Eq, Structural)]
pub enum SceneError {
    /// The entity at this index has no bounding box.
    Unbounded { entity: usize },
}

/// The boxes of `bounds`, with the point at the origin where there is none.
pub open spec fn boxes_of(bounds: Seq<Option<AABB>>) -> Seq<AABB> {
    Seq::new(
        bounds.len(),
        |i: int|
            match bounds[i] {
                Some(b) => b,
                None => crate::hit::origin_box(),
            },
    )
}

/// The least index in `start..end` at which `bounds` has no box, if there is one.
pub open spec fn first_unbounded(bounds: Seq<Option<AABB>>, start: int, end: int) -> Option<int>
    decreases end - start,
{
    if start >= end {
        None
    } else if bounds[start] is None {
        Some(start)
    } else {
        first_unbounded(bounds, start + 1, end)
    }
}

/// The indices from `start` up to `end`.
pub open spec fn index_span(start: usize, end: usize) -> Set<usize> {
    Set::new(|i: usize| start <= i < end)
}

impl BvhChild {
    /// A tree that is bounded by `boxes` names none but entities of `boxes`,
    /// and its box holds the box of every entity below it.
    pub proof fn lemma_bounds_cover(self, boxes: Seq<AABB>)
        requires
            self.bounded(boxes),
        ensures
            self.addresses(boxes.len()),
            forall|id: usize| self.entities().contains(id) ==> self.bounds(boxes).contains(#[trigger] boxes[id as int]),
        decreases self,
    {
        match self {
            BvhChild::Leaf(_) => {},
            BvhChild::Node(node) => {
                node.lemma_bounds_cover(boxes);
            },
        }
    }

    fn hit<H: Hit, F: Fn(AABB, Ray, Scalar, Scalar) -> bool>(
        &self,
        objects: &Vec<H>,
        crosses: &F,
        ray: Ray,
        t_min: Scalar,
        t_max: Scalar,
        hitrec: &mut HitRecord,
    ) -> (struck: bool)
        requires
            self.addresses(objects@.len()),
            forall|b: AABB, r: Ray, lo: Scalar, hi: Scalar| call_requires(*crosses, (b, r, lo, hi)),
        ensures
            struck ==> t_min <= final(hitrec).t <= t_max,
            !struck ==> *final(hitrec) == *old(hitrec),
            well_behaved(objects@, ray) && self.prunes_soundly(objects@, *crosses, ray) ==> is_nearest(
                outcome(struck, *final(hitrec)),
                candidates(objects@, ray, t_min, t_max),
                self.entities(),
            ),
        decreases self,
    {
        match self {
            BvhChild::Leaf(id) => {
                let struck = objects[*id].hit(ray, t_min, t_max, hitrec);
                proof {
                    if well_behaved(objects@, ray) {
                        let cands = candidates(objects@, ray, t_min, t_max);
                        assert(objects@[*id as int].steady());
                        assert(cands[*id as int] == outcome(struck, *hitrec));
                        assert(self.entities().contains(*id));
                    }
                }
                struck
            },
            BvhChild::Node(node) => node.hit(objects, crosses, ray, t_min, t_max, hitrec),
        }
    }
}

impl BVHNode {
    /// A node that is bounded by `boxes` names none but entities of `boxes`,
    /// and its box holds the box of every entity below it, however deep.
    pub proof fn lemma_bounds_cover(self, boxes: Seq<AABB>)
        requires
            self.bounded(boxes),
        ensures
            self.addresses(boxes.len()),
            forall|id: usize| self.entities().contains(id) ==> self.bounds.contains(#[trigger] boxes[id as int]),
        decreases self,
    {
        self.left.lemma_bounds_cover(boxes);
        self.right.lemma_bounds_cover(boxes);
        let l = self.left.bounds(boxes);
        let r = self.right.bounds(boxes);
        lemma_union_contains(l, r);
        assert forall|id: usize| self.entities().contains(id) implies self.bounds.contains(
            #[trigger] boxes[id as int],
        ) by {
            if self.left.entities().contains(id) {
                lemma_contains_transitive(self.bounds, l, boxes[id as int]);
            } else {
                lemma_contains_transitive(self.bounds, r, boxes[id as int]);
            }
        }
    }

    /// Builds the hierarchy over the entities `start..end`, whose boxes are
    /// `boxes[start..end]`. Each node draws an axis at random. One entity
    /// gives a node with that entity on both sides; two give a node with the
    /// lesser on the left; more are sorted by their key on the axis and split
    /// in the middle, and each half is built in the same way.
    pub fn from_boxes(boxes: &Vec<AABB>, start: usize, end: usize) -> (node: BVHNode)
        requires
            start < end <= boxes.len(),
        ensures
            node.shaped((end - start) as nat),
            node.bounded(boxes@),
            node.partitioned(boxes@),
            node.addresses(boxes@.len()),
            node.entities() == index_span(start, end),
    {
        let mut order: Vec<usize> = Vec::new();
        let mut i: usize = 0;
        while i < end
            invariant
                i <= end,
                order@.len() == i,
                forall|k: int| 0 <= k < i ==> order@[k] == k,
            decreases end - i,
        {
            order.push(i);
            i += 1;
        }
        let ghost before = order@;
        let node = build(boxes, &mut order, start, end);
        proof {
            node.lemma_bounds_cover(boxes@);
            let span = before.subrange(start as int, end as int);
            assert(span.to_set() =~= index_span(start, end)) by {
                assert forall|v: usize| index_span(start, end).contains(v) implies span.contains(v) by {
                    assert(span[v - start] == v);
                }
            }
        }
        node
    }

    /// Builds the hierarchy over members `start..end` of `src_objects`, from
    /// the boxes that they have between the moments `time0` and `time1`. A
    /// member of that span without a box cannot stand in a hierarchy: the
    /// first such member is reported, and nothing is built.
    pub fn from_vec<H: Hit>(src_objects: &Vec<H>, start: usize, end: usize, time0: Scalar, time1: Scalar) -> (built:
        Result<BVHNode, SceneError>)
        requires
            start < end <= src_objects.len(),
        ensures
            match built {
                Ok(node) => {
                    &&& first_unbounded(member_bounds(src_objects@, time0, time1), start as int, end as int) is None
                    &&& node.shaped((end - start) as nat)
                    &&& node.bounded(boxes_of(member_bounds(src_objects@, time0, time1)))
                    &&& node.partitioned(boxes_of(member_bounds(src_objects@, time0, time1)))
                    &&& node.addresses(src_objects@.len())
                    &&& node.entities() == index_span(start, end)
                },
                Err(SceneError::Unbounded { entity }) => first_unbounded(
                    member_bounds(src_objects@, time0, time1),
                    start as int,
                    end as int,
                ) == Some(entity as int),
            },
    {
        let ghost bounds = member_bounds(src_objects@, time0, time1);
        let n = src_objects.len();
        let mut boxes: Vec<AABB> = Vec::new();
        let mut i: usize = 0;
        while i < n
            invariant
                i <= n,
                start < end <= n,
                n == src_objects@.len(),
                bounds == member_bounds(src_objects@, time0, time1),
                boxes@.len() == i,
                forall|k: int| 0 <= k < i ==> boxes@[k] == boxes_of(bounds)[k],
                first_unbounded(bounds, start as int, end as int) == first_unbounded(
                    bounds,
                    if i < start { start as int } else if i < end { i as int } else { end as int },
                    end as int,
                ),
            decreases n - i,
        {
            let mut slot = AABB::default();
            assert(bounds[i as int] == src_objects@[i as int].bounds(time0, time1));
            if !src_objects[i].bounding_box(time0, time1, &mut slot) {
                if start <= i && i < end {
                    return Err(SceneError::Unbounded { entity: i });
                }
                slot = AABB::default();
            }
            boxes.push(slot);
            i += 1;
        }
        assert(boxes@ =~= boxes_of(bounds));
        Ok(BVHNode::from_boxes(&boxes, start, end))
    }

    /// Builds the hierarchy over all members of `list`.
    pub fn from_hitlist<H: Hit>(list: &HitList<H>, time0: Scalar, time1: Scalar) -> (built: Result<
        BVHNode,
        SceneError,
    >)
        requires
            list.objects@.len() > 0,
        ensures
            match built {
                Ok(node) => {
                    &&& first_unbounded(list.member_bounds(time0, time1), 0, list.objects@.len() as int) is None
                    &&& node.shaped(list.objects@.len())
                    &&& node.bounded(boxes_of(list.member_bounds(time0, time1)))
                    &&& node.partitioned(boxes_of(list.member_bounds(time0, time1)))
                    &&& node.addresses(list.objects@.len())
                    &&& node.entities() == index_span(0, list.objects@.len() as usize)
                },
                Err(SceneError::Unbounded { entity }) => first_unbounded(
                    list.member_bounds(time0, time1),
                    0,
                    list.objects@.len() as int,
                ) == Some(entity as int),
            },
    {
        BVHNode::from_vec(&list.objects, 0, list.objects.len(), time0, time1)
    }

    /// Tests `ray` against the entities below this node, which are members of
    /// `objects`. `crosses` says whether a ray passes through a box within an
    /// interval of its parameter. A node whose box the ray does not cross is
    /// given up at once. Otherwise the left side is tested, then the right
    /// side with the left strike, if there was one, as its upper bound, so
    /// that the strike reported is the nearer of the two.
    pub fn hit<H: Hit, F: Fn(AABB, Ray, Scalar, Scalar) -> bool>(
        &self,
        objects: &Vec<H>,
        crosses: &F,
        ray: Ray,
        t_min: Scalar,
        t_max: Scalar,
        hitrec: &mut HitRecord,
    ) -> (struck: bool)
        requires
            self.addresses(objects@.len()),
            forall|b: AABB, r: Ray, lo: Scalar, hi: Scalar| call_requires(*crosses, (b, r, lo, hi)),
        ensures
            struck ==> t_min <= final(hitrec).t <= t_max,
            !struck ==> *final(hitrec) == *old(hitrec),
            well_behaved(objects@, ray) && self.prunes_soundly(objects@, *crosses, ray) ==> is_nearest(
                outcome(struck, *final(hitrec)),
                candidates(objects@, ray, t_min, t_max),
                self.entities(),
            ),
        decreases self,
    {
        if !crosses(self.bounds, ray, t_min, t_max) {
            proof {
                if well_behaved(objects@, ray) && self.prunes_soundly(objects@, *crosses, ray) {
                    let cands = candidates(objects@, ray, t_min, t_max);
                    assert forall|id: usize| self.entities().contains(id) && id < cands.len() implies (
                    #[trigger] cands[id as int]) is None by {
                        if cands[id as int] is Some {
                            assert(objects@[id as int].strike(ray, t_min, t_max) is Some);
                        }
                    }
                }
            }
            return false;
        }
        let hit_left = self.left.hit(objects, crosses, ray, t_min, t_max, hitrec);
        let ghost first = outcome(hit_left, *hitrec);
        let bound = if hit_left { hitrec.t } else { t_max };
        let hit_right = self.right.hit(objects, crosses, ray, t_min, bound, hitrec);
        proof {
            if well_behaved(objects@, ray) && self.prunes_soundly(objects@, *crosses, ray) {
                let second = outcome(hit_right, *hitrec);
                assert(bound == tightened(first, t_max));
                lemma_nearest_of_two_searches(
                    objects@,
                    ray,
                    t_min,
                    t_max,
                    first,
                    second,
                    self.left.entities(),
                    self.right.entities(),
                );
                assert(later_or(first, second) == outcome(hit_left || hit_right, *hitrec));
            }
        }
        hit_left || hit_right
    }

    /// The box of the node, which holds everything below it.
    pub fn bounding_box(&self, aabb: &mut AABB) -> (bounded: bool)
        ensures
            bounded,
            *final(aabb) == self.bounds,
    {
        *aabb = self.bounds;
        true
    }
}

} // verus!
