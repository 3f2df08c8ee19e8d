use crate::bvh::indices;
use crate::random::random_upto;
use vstd::prelude::*;
use vstd::seq_lib::*;

verus! {

broadcast use group_to_multiset_ensures;

/// Number of lattice points along each axis of the noise tables.
pub const POINT_COUNT: usize = 256;

/// Mask that wraps a lattice coordinate into `0..POINT_COUNT`.
pub const POINT_MASK: u32 = 255;

/// The permutation tables of Perlin noise: three random orderings of
/// `0..POINT_COUNT`, one per axis, which hash a lattice point to one of the
/// noise generator's gradient vectors.
#[derive(Debug)]
pub struct PerlinPerm {
    pub perm_x: Vec<usize>,
    pub perm_y: Vec<usize>,
    pub perm_z: Vec<usize>,
}

/// `p` holds each of `0..POINT_COUNT` exactly once.
pub open spec fn is_point_perm(p: Seq<usize>) -> bool {
    p.to_multiset() == indices(POINT_COUNT as nat).to_multiset()
}

/// Low eight bits of a lattice coordinate: the coordinate wrapped into the
/// tables, negative coordinates included.
pub open spec fn wrap_spec(i: i32) -> int {
    (i as u32 & POINT_MASK) as int
}

/// Swapping two entries keeps what a sequence holds.
proof fn lemma_swap_multiset(s: Seq<usize>, i: int, j: int)
    requires
        0 <= i < s.len(),
        0 <= j < s.len(),
    ensures
        s.update(i, s[j]).update(j, s[i]).to_multiset() == s.to_multiset(),
{
    let s1 = s.update(i, s[j]);
    assert(s1[j] == if i == j { s[i] } else { s[j] });
    assert(s1.to_multiset() == s.to_multiset().insert(s[j]).remove(s[i]));
    assert(s1.update(j, s[i]).to_multiset() == s1.to_multiset().insert(s[i]).remove(s1[j]));
    assert(s.to_multiset().count(s[i]) > 0);
    assert(s1.update(j, s[i]).to_multiset() =~= s.to_multiset());
}

/// `s` with the entries at `i` and `j` exchanged.
pub open spec fn swapped(s: Seq<usize>, i: int, j: int) -> Seq<usize> {
    s.update(i, s[j]).update(j, s[i])
}

/// `s` after the Fisher-Yates swaps at the positions from its last down to
/// `i`, the entry at position `k` being exchanged with the one at `draws[k]`.
pub open spec fn shuffled(s: Seq<usize>, draws: Seq<usize>, i: int) -> Seq<usize>
    decreases s.len() - i,
{
    if i < 0 || i >= s.len() {
        s
    } else {
        swapped(shuffled(s, draws, i + 1), i, draws[i] as int)
    }
}

/// Shuffles `p` in place with the drawn positions `draws`: from the last
/// entry down, the entry at position `i` is exchanged with the one at
/// `draws[i]`, which lies at or before it.
pub fn permute_with(p: &mut Vec<usize>, draws: &Vec<usize>)
    requires
        draws@.len() == old(p)@.len(),
        forall|i: int| 0 <= i < draws@.len() ==> draws@[i] <= i,
    ensures
        final(p)@ == shuffled(old(p)@, draws@, 0),
        final(p)@.len() == old(p)@.len(),
        final(p)@.to_multiset() == old(p)@.to_multiset(),
{
    let mut i: usize = p.len();
    while i > 0
        invariant
            i <= p@.len(),
            p@.len() == old(p)@.len(),
            draws@.len() == old(p)@.len(),
            forall|k: int| 0 <= k < draws@.len() ==> draws@[k] <= k,
            p@ == shuffled(old(p)@, draws@, i as int),
            p@.to_multiset() == old(p)@.to_multiset(),
        decreases i,
    {
        i = i - 1;
        let target = draws[i];
        let ghost s = p@;
        let a = p[i];
        let b = p[target];
        p.set(i, b);
        p.set(target, a);
        proof {
            lemma_swap_multiset(s, i as int, target as int);
        }
    }
}

/// Shuffles `p` in place: a position at or before each entry is drawn at
/// random, then the entries are exchanged with them from the last down.
fn permute(p: &mut Vec<usize>)
    ensures
        final(p)@.len() == old(p)@.len(),
        final(p)@.to_multiset() == old(p)@.to_multiset(),
{
    let mut draws: Vec<usize> = Vec::new();
    let mut i: usize = 0;
    while i < p.len()
        invariant
            i <= p@.len(),
            draws@.len() == i,
            forall|k: int| 0 <= k < i ==> draws@[k] <= k,
        decreases p@.len() - i,
    {
        draws.push(random_upto(i));
        i = i + 1;
    }
    permute_with(p, &draws);
}

/// A random ordering of `0..POINT_COUNT`.
pub fn perlin_generate_perm() -> (r: Vec<usize>)
    ensures
        r@.len() == POINT_COUNT,
        is_point_perm(r@),
{
    let mut p: Vec<usize> = Vec::new();
    let mut i: usize = 0;
    while i < POINT_COUNT
        invariant
            i <= POINT_COUNT,
            p@ == indices(i as nat),
        decreases POINT_COUNT - i,
    {
        p.push(i);
        i = i + 1;
        assert(p@ =~= indices(i as nat));
    }
    permute(&mut p);
    p
}

/// Every entry of a table that orders `0..POINT_COUNT` is below `POINT_COUNT`.
proof fn lemma_perm_bounded(p: Seq<usize>, k: int)
    requires
        is_point_perm(p),
        0 <= k < p.len(),
    ensures
        p[k] < POINT_COUNT,
{
    assert(p.to_multiset().count(p[k]) > 0);
    let q = indices(POINT_COUNT as nat);
    assert(q.contains(p[k]));
}

impl PerlinPerm {
    /// Each table orders `0..POINT_COUNT`.
    pub open spec fn wf(&self) -> bool {
        &&& self.perm_x@.len() == POINT_COUNT
        &&& self.perm_y@.len() == POINT_COUNT
        &&& self.perm_z@.len() == POINT_COUNT
        &&& is_point_perm(self.perm_x@)
        &&& is_point_perm(self.perm_y@)
        &&& is_point_perm(self.perm_z@)
    }

    /// Three fresh random tables.
    pub fn new() -> (r: PerlinPerm)
        ensures
            r.wf(),
    {
        let perm_x = perlin_generate_perm();
        let perm_y = perlin_generate_perm();
        let perm_z = perlin_generate_perm();
        PerlinPerm { perm_x, perm_y, perm_z }
    }

    /// The gradient slot of lattice point `(i, j, k)`: the three tables'
    /// entries at the wrapped coordinates, combined by exclusive or.
    pub fn hash(&self, i: i32, j: i32, k: i32) -> (r: usize)
        requires
            self.wf(),
        ensures
            r < POINT_COUNT,
            r == self.perm_x@[wrap_spec(i)] ^ self.perm_y@[wrap_spec(j)] ^ self.perm_z@[
                wrap_spec(k)
            ],
    {
        let xi = (i as u32 & POINT_MASK) as usize;
        let yi = (j as u32 & POINT_MASK) as usize;
        let zi = (k as u32 & POINT_MASK) as usize;
        assert(xi < 256 && yi < 256 && zi < 256) by (bit_vector)
            requires
                xi == (i as u32 & 255u32) as usize,
                yi == (j as u32 & 255u32) as usize,
                zi == (k as u32 & 255u32) as usize,
        ;
        let a = self.perm_x[xi];
        let b = self.perm_y[yi];
        let c = self.perm_z[zi];
        proof {
            lemma_perm_bounded(self.perm_x@, xi as int);
            lemma_perm_bounded(self.perm_y@, yi as int);
            lemma_perm_bounded(self.perm_z@, zi as int);
        }
        assert(a ^ b ^ c < 256) by (bit_vector)
            requires
                a < 256,
                b < 256,
                c < 256,
        ;
        a ^ b ^ c
    }
}

} // verus!
