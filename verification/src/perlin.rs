//! The tables of the gradient-noise texture: three random permutations of
//! the lattice coordinates and a table of gradient vectors that they select
//! from.

use vstd::prelude::*;
use vstd::seq_lib::*;
use crate::rand::randidx;
use crate::vec3::Vec3;

verus! {

/// The number of entries of each table.
pub const POINT_COUNT: usize = 256;

/// `s` with the values at `i` and `j` exchanged.
pub open spec fn swapped(s: Seq<usize>, i: int, j: int) -> Seq<usize> {
    s.update(i, s[j]).update(j, s[i])
}

/// The numbers from 0 up to `n`, in order.
pub open spec fn identity(n: nat) -> Seq<usize> {
    Seq::new(n, |i: int| i as usize)
}

/// What the shuffle makes of `s` once it has dealt with the positions from
/// the last but one down to `lo`, exchanging each position `i` with
/// `targets[i]`. The last position is never dealt with.
pub open spec fn shuffled_down_to(s: Seq<usize>, targets: Seq<usize>, lo: int) -> Seq<usize>
    decreases s.len() - lo,
{
    if lo >= s.len() - 1 {
        s
    } else {
        swapped(shuffled_down_to(s, targets, lo + 1), lo, targets[lo] as int)
    }
}

/// `targets` names, for every position from 1 up to the last but one, a
/// position below it.
pub open spec fn draws_below(targets: Seq<usize>, len: nat) -> bool {
    &&& targets.len() == len
    &&& forall|i: int| 1 <= i < len - 1 ==> #[trigger] targets[i] < i
}

/// Exchanges the values at `i` and `j`.
pub fn exchange(p: &mut Vec<usize>, i: usize, j: usize)
    requires
        i < old(p).len(),
        j < old(p).len(),
    ensures
        final(p)@ == swapped(old(p)@, i as int, j as int),
{
    let a = p[i];
    let b = p[j];
    p.set(i, b);
    p.set(j, a);
}

/// Exchanging two values of a sequence keeps what it holds.
pub proof fn lemma_swapped_permutes(s: Seq<usize>, i: int, j: int)
    requires
        0 <= i < s.len(),
        0 <= j < s.len(),
    ensures
        swapped(s, i, j).to_multiset() == s.to_multiset(),
        swapped(s, i, j).len() == s.len(),
{
    broadcast use to_multiset_update;
    broadcast use vstd::multiset::group_multiset_axioms;
    to_multiset_contains(s, s[i]);
    to_multiset_contains(s, s[j]);
    assert(s.contains(s[i]) && s.contains(s[j]));
    let mid = s.update(i, s[j]);
    assert(mid.to_multiset() == s.to_multiset().insert(s[j]).remove(s[i]));
    assert(mid[j] == if i == j { s[j] } else { s[j] });
    assert(swapped(s, i, j).to_multiset() == mid.to_multiset().insert(s[i]).remove(mid[j]));
    assert(swapped(s, i, j).to_multiset() =~= s.to_multiset());
}

/// The steps from `lo` on do not look at the targets below `lo`.
proof fn lemma_shuffle_ignores_lower(s: Seq<usize>, a: Seq<usize>, b: Seq<usize>, lo: int)
    requires
        a.len() == b.len(),
        forall|i: int| lo <= i < a.len() ==> a[i] == b[i],
        0 <= lo,
        a.len() == s.len(),
    ensures
        shuffled_down_to(s, a, lo) == shuffled_down_to(s, b, lo),
    decreases s.len() - lo,
{
    if lo < s.len() - 1 {
        lemma_shuffle_ignores_lower(s, a, b, lo + 1);
    }
}

/// Shuffles `p` in place. The positions from the last but one down to 1 are
/// each exchanged with a position drawn uniformly from those below it; the
/// last position and, but through such an exchange, the first are left alone.
/// Whatever is drawn, `p` holds afterwards what it held before.
pub fn permute(p: &mut Vec<usize>)
    requires
        old(p).len() >= 1,
    ensures
        final(p)@.len() == old(p)@.len(),
        final(p)@.to_multiset() == old(p)@.to_multiset(),
        final(p)@.last() == old(p)@.last(),
        exists|targets: Seq<usize>|
            draws_below(targets, old(p)@.len()) && final(p)@ == #[trigger] shuffled_down_to(old(p)@, targets, 1),
{
    let n = p.len() - 1;
    let ghost before = p@;
    let ghost mut targets: Seq<usize> = Seq::new(p@.len(), |i: int| 0usize);
    let mut i: usize = n;
    while i > 1
        invariant
            1 <= i <= n || (n == 0 && i == 0),
            n == before.len() - 1,
            p@.len() == before.len(),
            targets.len() == before.len(),
            forall|k: int| i <= k < n ==> #[trigger] targets[k] < k,
            p@ == shuffled_down_to(before, targets, i as int),
            p@.to_multiset() == before.to_multiset(),
            p@.last() == before.last(),
        decreases i,
    {
        i -= 1;
        let target = randidx(0, i);
        proof {
            let earlier = targets;
            targets = targets.update(i as int, target);
            lemma_shuffle_ignores_lower(before, earlier, targets, i + 1);
            lemma_swapped_permutes(p@, i as int, target as int);
        }
        exchange(p, i, target);
    }
    proof {
        if n >= 1 {
            assert(i == 1);
        } else {
            assert(shuffled_down_to(before, targets, 1) == before);
            assert(shuffled_down_to(before, targets, 0) == before);
        }
        assert(draws_below(targets, before.len()));
        assert(p@ == shuffled_down_to(before, targets, 1));
    }
}

/// `s` is a permutation table: the lattice coordinates, each of them once.
pub open spec fn is_table(s: Seq<usize>) -> bool {
    &&& s.len() == POINT_COUNT
    &&& s.to_multiset() == identity(POINT_COUNT as nat).to_multiset()
}

/// Every entry of a permutation table is a lattice coordinate.
pub proof fn lemma_table_in_range(s: Seq<usize>)
    requires
        is_table(s),
    ensures
        forall|i: int| 0 <= i < s.len() ==> #[trigger] s[i] < POINT_COUNT,
{
    let id = identity(POINT_COUNT as nat);
    assert forall|i: int| 0 <= i < s.len() implies #[trigger] s[i] < POINT_COUNT by {
        to_multiset_contains(s, s[i]);
        to_multiset_contains(id, s[i]);
        assert(s.contains(s[i]));
        let k = choose|k: int| 0 <= k < id.len() && id[k] == s[i];
        assert(id[k] == k);
    }
}

/// A permutation table: the lattice coordinates in order, then shuffled by
/// `permute`. The last coordinate always stays in its place.
pub fn perlin_generate_perm() -> (p: Vec<usize>)
    ensures
        is_table(p@),
        p@.last() == POINT_COUNT - 1,
        exists|targets: Seq<usize>|
            draws_below(targets, POINT_COUNT as nat) && p@ == #[trigger] shuffled_down_to(
                identity(POINT_COUNT as nat),
                targets,
                1,
            ),
{
    let mut p: Vec<usize> = Vec::with_capacity(POINT_COUNT);
    let mut i: usize = 0;
    while i < POINT_COUNT
        invariant
            i <= POINT_COUNT,
            p@.len() == i,
            forall|k: int| 0 <= k < i ==> p@[k] == k,
        decreases POINT_COUNT - i,
    {
        p.push(i);
        i += 1;
    }
    assert(p@ =~= identity(POINT_COUNT as nat));
    permute(&mut p);
    p
}

/// A lattice coordinate brought into the table: its remainder by the
/// table's size, which is never negative.
pub open spec fn wrap(v: int) -> int {
    v % (POINT_COUNT as int)
}

/// The exclusive-or of three table entries.
pub open spec fn mix(a: usize, b: usize, c: usize) -> usize {
    ((a as u64) ^ (b as u64) ^ (c as u64)) as usize
}

/// The tables of the noise.
pub struct PerlinNoise {
    pub ranvec: Vec<Vec3>,
    pub perm_x: Vec<usize>,
    pub perm_y: Vec<usize>,
    pub perm_z: Vec<usize>,
}

fn wrap_coordinate(v: i64) -> (r: usize)
    requires
        i32::MIN <= v <= i32::MAX + 1,
    ensures
        r == wrap(v as int),
{
    let lifted: u64 = (v + 0x8000_0000) as u64;
    (lifted % 256) as usize
}

fn mix_entries(a: usize, b: usize, c: usize) -> (r: usize)
    requires
        a < POINT_COUNT,
        b < POINT_COUNT,
        c < POINT_COUNT,
    ensures
        r == mix(a, b, c),
        r < POINT_COUNT,
{
    let x: u64 = a as u64;
    let y: u64 = b as u64;
    let z: u64 = c as u64;
    assert(x < 256 && y < 256 && z < 256 ==> (x ^ y ^ z) < 256) by (bit_vector);
    (x ^ y ^ z) as usize
}

impl PerlinNoise {
    /// There is a gradient for every lattice coordinate, and each of the
    /// three tables is a permutation of the coordinates.
    pub open spec fn wf(&self) -> bool {
        &&& self.ranvec@.len() == POINT_COUNT
        &&& is_table(self.perm_x@)
        &&& is_table(self.perm_y@)
        &&& is_table(self.perm_z@)
    }

    /// The position in the gradient table that the lattice point
    /// `(i, j, k)` selects.
    pub open spec fn lattice_index(&self, i: int, j: int, k: int) -> usize {
        mix(self.perm_x@[wrap(i)], self.perm_y@[wrap(j)], self.perm_z@[wrap(k)])
    }

    /// The gradient at the lattice point `(i, j, k)`.
    pub open spec fn gradient(&self, i: int, j: int, k: int) -> Vec3 {
        self.ranvec@[self.lattice_index(i, j, k) as int]
    }

    /// The tables over the gradients `ranvec`, one for each lattice
    /// coordinate, with three freshly drawn permutations.
    pub fn new(ranvec: Vec<Vec3>) -> (noise: PerlinNoise)
        requires
            ranvec@.len() == POINT_COUNT,
        ensures
            noise.wf(),
            noise.ranvec@ == ranvec@,
    {
        let perm_x = perlin_generate_perm();
        let perm_y = perlin_generate_perm();
        let perm_z = perlin_generate_perm();
        PerlinNoise { ranvec, perm_x, perm_y, perm_z }
    }

    /// The gradient at the lattice point `(i, j, k)`.
    pub fn gradient_at(&self, i: i64, j: i64, k: i64) -> (g: Vec3)
        requires
            self.wf(),
            i32::MIN <= i <= i32::MAX + 1,
            i32::MIN <= j <= i32::MAX + 1,
            i32::MIN <= k <= i32::MAX + 1,
        ensures
            g == self.gradient(i as int, j as int, k as int),
            self.lattice_index(i as int, j as int, k as int) < POINT_COUNT,
    {
        proof {
            lemma_table_in_range(self.perm_x@);
            lemma_table_in_range(self.perm_y@);
            lemma_table_in_range(self.perm_z@);
        }
        let a = self.perm_x[wrap_coordinate(i)];
        let b = self.perm_y[wrap_coordinate(j)];
        let c = self.perm_z[wrap_coordinate(k)];
        self.ranvec[mix_entries(a, b, c)]
    }

    /// The gradients at the eight corners of the lattice cell whose least
    /// corner is `(i, j, k)`. The corner that lies `di`, `dj` and `dk` steps
    /// on, each 0 or 1, stands at position `4 * di + 2 * dj + dk`.
    pub fn corners(&self, i: i32, j: i32, k: i32) -> (c: [Vec3; 8])
        requires
            self.wf(),
        ensures
            forall|di: int, dj: int, dk: int|
                0 <= di < 2 && 0 <= dj < 2 && 0 <= dk < 2 ==> #[trigger] c@[4 * di + 2 * dj + dk] == self.gradient(
                    i + di,
                    j + dj,
                    k + dk,
                ),
    {
        let i0: i64 = i as i64;
        let j0: i64 = j as i64;
        let k0: i64 = k as i64;
        let c = [
            self.gradient_at(i0, j0, k0),
            self.gradient_at(i0, j0, k0 + 1),
            self.gradient_at(i0, j0 + 1, k0),
            self.gradient_at(i0, j0 + 1, k0 + 1),
            self.gradient_at(i0 + 1, j0, k0),
            self.gradient_at(i0 + 1, j0, k0 + 1),
            self.gradient_at(i0 + 1, j0 + 1, k0),
            self.gradient_at(i0 + 1, j0 + 1, k0 + 1),
        ];
        c
    }
}

} // verus!
