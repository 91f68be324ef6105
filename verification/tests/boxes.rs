use raytracer::aabb::{aabb_compare, crosses, surrounding_box, Slab, AABB};
use raytracer::hit::{in_interval, nearest_root};
use raytracer::medium::clip_to_interval;
use raytracer::scalar::{encode, le, lt, nan, INFINITY, MINUS_ZERO, ZERO};
use raytracer::vec3::{Vec3, NEAR_ZERO};
use std::cmp::Ordering;

fn key(x: f64) -> i64 {
    encode(x.to_bits())
}

fn bx(min: [i64; 3], max: [i64; 3]) -> AABB {
    AABB::new(Vec3::from_array(min), Vec3::from_array(max))
}

#[test]
fn vec3_builders_and_setters() {
    let v = Vec3::new(1, -2, 3);
    assert_eq!((v.x, v.y, v.z), (1, -2, 3));
    assert_eq!(Vec3::from_array([4, 5, 6]), Vec3::new(4, 5, 6));
    assert_eq!(v.as_array(), [1, -2, 3]);
    assert_eq!((v.component(0), v.component(1), v.component(2)), (1, -2, 3));
    let mut w = Vec3::default();
    assert_eq!(w, Vec3::new(0, 0, 0));
    w.copy(v);
    assert_eq!(w, v);
    w.set(7, 8, 9);
    assert_eq!(w, Vec3::new(7, 8, 9));
    assert_eq!(v.neg(), Vec3::new(-2, 1, -4));
    assert_eq!(v.neg().neg(), v);
}

#[test]
fn surrounding_box_takes_the_extremes() {
    let a = bx([0, 5, -3], [2, 9, 4]);
    let b = bx([-1, 6, -2], [1, 12, 3]);
    assert_eq!(surrounding_box(a, b), bx([-1, 5, -3], [2, 12, 4]));
    assert_eq!(surrounding_box(a, a), a);
    assert_eq!(AABB::default(), bx([0, 0, 0], [0, 0, 0]));
}

#[test]
fn surrounding_box_is_commutative_and_associative() {
    let boxes = [
        bx([0, 5, -3], [2, 9, 4]),
        bx([-1, 6, -2], [1, 12, 3]),
        bx([10, 10, 10], [11, 11, 11]),
        bx([i64::MIN, 0, 0], [i64::MAX, 0, 0]),
    ];
    for a in boxes {
        for b in boxes {
            let u = surrounding_box(a, b);
            assert_eq!(u, surrounding_box(b, a));
            for (inner, outer) in [(a, u), (b, u)] {
                assert!(outer.min.x <= inner.min.x && inner.max.x <= outer.max.x);
                assert!(outer.min.y <= inner.min.y && inner.max.y <= outer.max.y);
                assert!(outer.min.z <= inner.min.z && inner.max.z <= outer.max.z);
            }
            for c in boxes {
                assert_eq!(surrounding_box(surrounding_box(a, b), c), surrounding_box(a, surrounding_box(b, c)));
            }
        }
    }
}

#[test]
fn boxes_compare_by_their_least_corner() {
    let a = bx([0, 5, -3], [2, 9, 4]);
    let b = bx([-1, 6, -3], [100, 12, 3]);
    assert_eq!(aabb_compare(a, b, 0), Ordering::Greater);
    assert_eq!(aabb_compare(a, b, 1), Ordering::Less);
    assert_eq!(aabb_compare(a, b, 2), Ordering::Equal);
    assert_eq!(aabb_compare(b, a, 0), Ordering::Less);
}

#[test]
fn near_zero_means_every_component_within_a_hundred_millionth() {
    assert_eq!(NEAR_ZERO, key(1e-8));
    let samples = [0.0, -0.0, 5e-324, 9.9e-9, -9.9e-9, 1e-8, -1e-8, 1.1e-8, -1.1e-8, 1.0, -1.0, f64::INFINITY, f64::NAN];
    for x in samples {
        for y in samples {
            for z in samples {
                let expected = x.abs() < 1e-8 && y.abs() < 1e-8 && z.abs() < 1e-8;
                assert_eq!(Vec3::new(key(x), key(y), key(z)).near_zero(), expected, "{} {} {}", x, y, z);
            }
        }
    }
}

#[test]
fn a_stretch_is_clipped_to_the_interval() {
    // within the interval: as it is
    assert_eq!(clip_to_interval(key(2.0), key(3.0), key(0.001), key(f64::INFINITY)), Some((key(2.0), key(3.0))));
    // the far end beyond the interval is cut off
    assert_eq!(clip_to_interval(key(2.0), key(30.0), key(0.001), key(5.0)), Some((key(2.0), key(5.0))));
    // the near end before the interval is cut off
    assert_eq!(clip_to_interval(key(-4.0), key(3.0), key(0.001), key(5.0)), Some((key(0.001), key(3.0))));
    // a stretch never begins behind the ray's origin
    assert_eq!(
        clip_to_interval(key(-4.0), key(3.0), key(f64::NEG_INFINITY), key(5.0)),
        Some((key(0.0), key(3.0)))
    );
    // nothing left
    assert_eq!(clip_to_interval(key(6.0), key(7.0), key(0.001), key(5.0)), None);
    assert_eq!(clip_to_interval(key(1.0), key(2.0), key(2.0), key(5.0)), None);
    assert_eq!(clip_to_interval(key(3.0), key(3.0), key(0.0), key(5.0)), None);
    assert_eq!(clip_to_interval(key(4.0), key(3.0), key(0.0), key(5.0)), None);
}

const NUMBERS: [f64; 17] = [
    f64::NEG_INFINITY,
    -1.0e300,
    -2.5,
    -1.0,
    -0.001,
    -5e-324,
    -0.0,
    0.0,
    5e-324,
    0.001,
    1.0,
    2.5,
    1.0e300,
    f64::INFINITY,
    f64::NAN,
    -f64::NAN,
    f64::MAX,
];

#[test]
fn keys_compare_as_their_numbers_do() {
    assert_eq!(INFINITY, key(f64::INFINITY));
    assert_eq!(-1 - INFINITY, key(f64::NEG_INFINITY));
    assert_eq!((ZERO, MINUS_ZERO), (key(0.0), key(-0.0)));
    for a in NUMBERS {
        assert_eq!(nan(key(a)), a.is_nan());
        for b in NUMBERS {
            assert_eq!(lt(key(a), key(b)), a < b, "{} < {}", a, b);
            assert_eq!(le(key(a), key(b)), a <= b, "{} <= {}", a, b);
        }
    }
    assert!(nan(i64::MAX) && nan(i64::MIN) && nan(INFINITY + 1) && !nan(INFINITY) && !nan(-1 - INFINITY));
}

/// The slab test in plain floating point.
fn crosses_in_floats(slabs: [(f64, f64, f64); 3], t_min: f64, t_max: f64) -> bool {
    let (mut t_min, mut t_max) = (t_min, t_max);
    for (t0, t1, inv_d) in slabs {
        let (mut t0, mut t1) = (t0, t1);
        if inv_d < 0.0 {
            std::mem::swap(&mut t0, &mut t1);
        }
        t_min = if t0 > t_min { t0 } else { t_min };
        t_max = if t1 < t_max { t1 } else { t_max };
        if t_max <= t_min {
            return false;
        }
    }
    true
}

#[test]
fn the_slab_test_tightens_the_interval_axis_by_axis() {
    let slab = |t0: f64, t1: f64, inv_d: f64| Slab { t0: key(t0), t1: key(t1), inv_d: key(inv_d) };
    // through all three slabs between 2 and 3
    assert!(crosses([slab(1.0, 4.0, 1.0), slab(2.0, 5.0, 1.0), slab(0.0, 3.0, 1.0)], key(0.001), INFINITY));
    // the third slab is left before the second is entered
    assert!(!crosses([slab(1.0, 4.0, 1.0), slab(3.0, 5.0, 1.0), slab(0.0, 2.0, 1.0)], key(0.001), INFINITY));
    // a ray against the axis meets the planes in the other order
    assert!(crosses([slab(4.0, 1.0, -1.0), slab(5.0, 2.0, -0.5), slab(3.0, 0.0, -2.0)], key(0.001), INFINITY));
    assert!(!crosses([slab(4.0, 1.0, 1.0), slab(2.0, 5.0, 1.0), slab(0.0, 3.0, 1.0)], key(0.001), INFINITY));
    // the interval asked about ends before the box begins
    assert!(!crosses([slab(1.0, 4.0, 1.0), slab(2.0, 5.0, 1.0), slab(0.0, 3.0, 1.0)], key(0.001), key(1.5)));
    // a box without thickness is never crossed
    assert!(!crosses([slab(1.0, 4.0, 1.0), slab(2.0, 2.0, 1.0), slab(0.0, 3.0, 1.0)], key(0.001), INFINITY));
}

#[test]
fn the_slab_test_decides_as_floating_point_does() {
    let mut agreed_true = 0;
    let n = NUMBERS.len();
    let mut seed = 12345u64;
    let mut next = move || {
        seed = seed.wrapping_mul(6364136223846793005).wrapping_add(1442695040888963407);
        (seed >> 33) as usize
    };
    for _ in 0..200_000 {
        let mut pick = || NUMBERS[next() % n];
        let slabs = [(pick(), pick(), pick()), (pick(), pick(), pick()), (pick(), pick(), pick())];
        let (t_min, t_max) = (pick(), pick());
        let expected = crosses_in_floats(slabs, t_min, t_max);
        let by_keys = crosses(slabs.map(|(t0, t1, inv_d)| Slab { t0: key(t0), t1: key(t1), inv_d: key(inv_d) }), key(t_min), key(t_max));
        assert_eq!(by_keys, expected, "{:?} {} {}", slabs, t_min, t_max);
        if expected {
            agreed_true += 1;
        }
    }
    assert!(agreed_true > 100);
}

#[test]
fn the_nearer_crossing_counts_if_it_lies_in_the_interval() {
    assert!(in_interval(5, 5, 9) && in_interval(9, 5, 9) && in_interval(7, 5, 9));
    assert!(!in_interval(4, 5, 9) && !in_interval(10, 5, 9) && !in_interval(7, 9, 5));
    assert_eq!(nearest_root(key(2.0), key(4.0), key(0.001), INFINITY), Some(key(2.0)));
    assert_eq!(nearest_root(key(-2.0), key(4.0), key(0.001), INFINITY), Some(key(4.0)));
    assert_eq!(nearest_root(key(-4.0), key(-2.0), key(0.001), INFINITY), None);
    assert_eq!(nearest_root(key(2.0), key(4.0), key(0.001), key(1.0)), None);
    assert_eq!(nearest_root(key(2.0), key(4.0), key(0.001), key(3.0)), Some(key(2.0)));
    assert_eq!(nearest_root(key(2.0), key(4.0), key(3.0), key(5.0)), Some(key(4.0)));
    assert_eq!(nearest_root(key(2.0), key(4.0), key(2.5), key(3.5)), None);
}

/// The clipping in plain floating point.
fn clip_in_floats(entry: f64, exit: f64, t_min: f64, t_max: f64) -> Option<(f64, f64)> {
    let entry = if entry < t_min { t_min } else { entry };
    let exit = if exit > t_max { t_max } else { exit };
    if entry < exit {
        Some((if entry < 0.0 { 0.0 } else { entry }, exit))
    } else {
        None
    }
}

#[test]
fn a_stretch_is_clipped_as_floating_point_clips_it() {
    for entry in NUMBERS {
        for exit in NUMBERS {
            for t_min in NUMBERS {
                for t_max in NUMBERS {
                    let expected = clip_in_floats(entry, exit, t_min, t_max).map(|(a, b)| (a.to_bits(), b.to_bits()));
                    let clipped = clip_to_interval(key(entry), key(exit), key(t_min), key(t_max))
                        .map(|(a, b)| (raytracer::scalar::decode(a), raytracer::scalar::decode(b)));
                    assert_eq!(clipped, expected, "{} {} {} {}", entry, exit, t_min, t_max);
                }
            }
        }
    }
}
