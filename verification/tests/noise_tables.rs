use raytracer::perlin::{exchange, perlin_generate_perm, permute, PerlinNoise, POINT_COUNT};
use raytracer::rand::randidx;
use raytracer::vec3::Vec3;

#[test]
fn randidx_stays_in_its_range() {
    let mut seen = [false; 5];
    for _ in 0..2000 {
        let r = randidx(3, 8);
        assert!((3..8).contains(&r));
        seen[r - 3] = true;
    }
    assert!(seen.iter().all(|s| *s));
    for _ in 0..100 {
        assert_eq!(randidx(41, 42), 41);
    }
}

#[test]
fn exchange_swaps_two_values() {
    let mut p = vec![10, 20, 30, 40];
    exchange(&mut p, 1, 3);
    assert_eq!(p, vec![10, 40, 30, 20]);
    exchange(&mut p, 2, 2);
    assert_eq!(p, vec![10, 40, 30, 20]);
}

#[test]
fn permute_keeps_what_the_vector_holds() {
    for _ in 0..50 {
        let mut p: Vec<usize> = vec![7, 7, 3, 9, 11, 2, 5];
        permute(&mut p);
        assert_eq!(p.len(), 7);
        assert_eq!(p[6], 5);
        let mut sorted = p.clone();
        sorted.sort();
        assert_eq!(sorted, vec![2, 3, 5, 7, 7, 9, 11]);
    }
}

#[test]
fn permute_leaves_short_vectors_alone() {
    let mut one = vec![4];
    permute(&mut one);
    assert_eq!(one, vec![4]);
    let mut two = vec![4, 5];
    permute(&mut two);
    assert_eq!(two, vec![4, 5]);
    // of three values only the first two can change places, and they always do
    let mut three = vec![4, 5, 6];
    permute(&mut three);
    assert_eq!(three, vec![5, 4, 6]);
}

#[test]
fn permute_moves_something() {
    let mut moved = false;
    for _ in 0..20 {
        let mut p: Vec<usize> = (0..64).collect();
        permute(&mut p);
        if p != (0..64).collect::<Vec<usize>>() {
            moved = true;
        }
    }
    assert!(moved);
}

#[test]
fn a_table_holds_every_coordinate_once() {
    let p = perlin_generate_perm();
    assert_eq!(p.len(), POINT_COUNT);
    assert_eq!(p.len(), 256);
    assert_eq!(p[255], 255);
    let mut sorted = p.clone();
    sorted.sort();
    assert_eq!(sorted, (0..256).collect::<Vec<usize>>());
    assert_ne!(p, sorted);
}

fn gradients() -> Vec<Vec3> {
    (0..256).map(|i| Vec3::new(i, 2 * i, -i)).collect()
}

#[test]
fn corners_select_by_the_three_tables() {
    let noise = PerlinNoise::new(gradients());
    assert_eq!(noise.ranvec, gradients());
    let wrap = |v: i64| v.rem_euclid(256) as usize;
    for (i, j, k) in [(0, 0, 0), (3, 250, 255), (-1, -256, -257), (i32::MAX, i32::MIN, 1000), (255, 255, 255)] {
        let c = noise.corners(i, j, k);
        for di in 0..2i64 {
            for dj in 0..2i64 {
                for dk in 0..2i64 {
                    let index = noise.perm_x[wrap(i as i64 + di)]
                        ^ noise.perm_y[wrap(j as i64 + dj)]
                        ^ noise.perm_z[wrap(k as i64 + dk)];
                    assert!(index < 256);
                    assert_eq!(c[(4 * di + 2 * dj + dk) as usize], noise.ranvec[index]);
                    assert_eq!(noise.gradient_at(i as i64 + di, j as i64 + dj, k as i64 + dk), noise.ranvec[index]);
                }
            }
        }
    }
}

#[test]
fn corners_agree_with_the_low_bits_of_the_coordinate() {
    let noise = PerlinNoise::new(gradients());
    for (i, j, k) in [(-5i32, 7i32, -300i32), (1 << 20, -(1 << 20), 12345)] {
        let c = noise.corners(i, j, k);
        let index = noise.perm_x[i as usize & 255] ^ noise.perm_y[j as usize & 255] ^ noise.perm_z[k as usize & 255];
        assert_eq!(c[0], noise.ranvec[index]);
    }
}
