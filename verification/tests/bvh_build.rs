use raytracer::aabb::AABB;
use raytracer::bvh::{BVHNode, BvhChild, SceneError};
use raytracer::hit::{hit_compare, Hit, HitList, HitRecord, Ray};
use std::cmp::Ordering;
use raytracer::vec3::Vec3;

/// An entity that a ray strikes at one fixed parameter, with a box of its own.
struct Marker {
    t: i64,
    bounds: Option<AABB>,
    tag: usize,
}

impl Hit for Marker {
    fn hit(&self, _ray: Ray, t_min: i64, t_max: i64, hitrec: &mut HitRecord) -> bool {
        if t_min <= self.t && self.t <= t_max {
            hitrec.t = self.t;
            hitrec.material = Some(self.tag);
            true
        } else {
            false
        }
    }

    fn bounding_box(&self, _time0: i64, _time1: i64, aabb: &mut AABB) -> bool {
        match self.bounds {
            Some(b) => {
                *aabb = b;
                true
            }
            None => false,
        }
    }

    fn bounds(&self, _time0: i64, _time1: i64) -> Option<AABB> {
        self.bounds
    }

    fn steady(&self) -> bool {
        true
    }

    fn strike(&self, ray: Ray, t_min: i64, t_max: i64) -> Option<HitRecord> {
        let mut rec = HitRecord::default();
        if self.hit(ray, t_min, t_max, &mut rec) {
            Some(rec)
        } else {
            None
        }
    }
}

fn cube(lo: i64, hi: i64) -> AABB {
    AABB::new(Vec3::new(lo, lo, lo), Vec3::new(hi, hi, hi))
}

fn marker(t: i64, lo: i64, hi: i64, tag: usize) -> Marker {
    Marker { t, bounds: Some(cube(lo, hi)), tag }
}

fn leaves(child: &BvhChild, out: &mut Vec<usize>) {
    match child {
        BvhChild::Leaf(id) => out.push(*id),
        BvhChild::Node(node) => {
            leaves(&node.left, out);
            leaves(&node.right, out);
        }
    }
}

#[test]
fn one_entity_stands_on_both_sides() {
    let boxes = vec![cube(1, 2)];
    let node = BVHNode::from_boxes(&boxes, 0, 1);
    assert!(matches!(node.left, BvhChild::Leaf(0)));
    assert!(matches!(node.right, BvhChild::Leaf(0)));
    assert_eq!(node.bounds, cube(1, 2));
}

#[test]
fn two_entities_put_the_lesser_left() {
    let boxes = vec![cube(5, 6), cube(1, 2)];
    for _ in 0..20 {
        let node = BVHNode::from_boxes(&boxes, 0, 2);
        assert!(matches!(node.left, BvhChild::Leaf(1)));
        assert!(matches!(node.right, BvhChild::Leaf(0)));
        assert_eq!(node.bounds, cube(1, 6));
    }
}

#[test]
fn many_entities_are_split_in_the_middle() {
    let boxes: Vec<AABB> = (0..7).map(|i| cube(10 * (6 - i), 10 * (6 - i) + 3)).collect();
    let node = BVHNode::from_boxes(&boxes, 0, 7);
    assert_eq!(node.bounds, cube(0, 63));
    let mut left = Vec::new();
    let mut right = Vec::new();
    leaves(&node.left, &mut left);
    leaves(&node.right, &mut right);
    // 7 entities: 3 on the left, 4 on the right; a half of one entity names it twice
    left.sort();
    left.dedup();
    right.sort();
    right.dedup();
    assert_eq!(left, vec![4, 5, 6]);
    assert_eq!(right, vec![0, 1, 2, 3]);
}

#[test]
fn a_span_leaves_the_rest_out() {
    let boxes = vec![cube(0, 1), cube(10, 11), cube(20, 21), cube(30, 31), cube(40, 41)];
    let node = BVHNode::from_boxes(&boxes, 1, 4);
    assert_eq!(node.bounds, cube(10, 31));
    let mut all = Vec::new();
    leaves(&node.left, &mut all);
    leaves(&node.right, &mut all);
    all.sort();
    all.dedup();
    assert_eq!(all, vec![1, 2, 3]);
}

#[test]
fn an_unbounded_member_is_reported() {
    let mut list: HitList<Marker> = HitList::new();
    list.add(marker(5, 0, 1, 0));
    list.add(Marker { t: 3, bounds: None, tag: 1 });
    list.add(Marker { t: 4, bounds: None, tag: 2 });
    let built = BVHNode::from_hitlist(&list, 0, 0);
    assert!(matches!(built, Err(SceneError::Unbounded { entity: 1 })));
    // outside the span an unbounded member does no harm
    let built = BVHNode::from_vec(&list.objects, 0, 1, 0, 0);
    assert!(built.is_ok());
}

#[test]
fn traversal_reports_the_nearest_strike() {
    let mut list: HitList<Marker> = HitList::new();
    let ts = [50, 30, 90, 10, 70, 20, 60];
    for (i, t) in ts.iter().enumerate() {
        list.add(marker(*t, i as i64, i as i64 + 1, i));
    }
    let node = BVHNode::from_hitlist(&list, 0, 0).unwrap();
    let always = |_b: AABB, _r: Ray, _lo: i64, _hi: i64| true;
    let mut rec = HitRecord::default();
    assert!(node.hit(&list.objects, &always, Ray::default(), 0, 1000, &mut rec));
    assert_eq!(rec.t, 10);
    assert_eq!(rec.material, Some(3));
    let mut scan = HitRecord::default();
    assert!(list.hit(Ray::default(), 0, 1000, &mut scan));
    assert_eq!(scan, rec);
    // nothing within the interval
    let mut none = HitRecord::default();
    assert!(!node.hit(&list.objects, &always, Ray::default(), 0, 9, &mut none));
    assert_eq!(none, HitRecord::default());
    // a box that the ray does not cross hides what is below it
    let never = |_b: AABB, _r: Ray, _lo: i64, _hi: i64| false;
    assert!(!node.hit(&list.objects, &never, Ray::default(), 0, 1000, &mut none));
}

#[test]
fn list_box_is_the_union_of_its_members() {
    let mut list: HitList<Marker> = HitList::new();
    let mut b = cube(7, 7);
    assert!(list.bounding_box(0, 0, &mut b));
    assert_eq!(b, cube(0, 0));
    list.add(marker(1, 3, 4, 0));
    list.add(marker(1, -2, 1, 1));
    assert!(list.bounding_box(0, 0, &mut b));
    assert_eq!(b, cube(-2, 4));
    list.add(Marker { t: 1, bounds: None, tag: 2 });
    assert!(!list.bounding_box(0, 0, &mut b));
}

#[test]
fn entities_compare_by_the_least_corner_of_their_boxes() {
    let a = Marker { t: 0, bounds: Some(AABB::new(Vec3::new(1, 9, 5), Vec3::new(2, 10, 6))), tag: 0 };
    let b = Marker { t: 0, bounds: Some(AABB::new(Vec3::new(3, 4, 5), Vec3::new(9, 9, 9))), tag: 1 };
    assert_eq!(hit_compare(&a, &b, 0), Ordering::Less);
    assert_eq!(hit_compare(&a, &b, 1), Ordering::Greater);
    assert_eq!(hit_compare(&a, &b, 2), Ordering::Equal);
    assert_eq!(hit_compare(&b, &a, 0), Ordering::Greater);
}
