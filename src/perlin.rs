use vstd::prelude::*;

use crate::rng::shuffle;

verus! {

/// The number of lattice gradients, and the length of each permutation.
/// It is a power of two, so reducing a lattice coordinate modulo it is a mask.
pub const POINT_COUNT: usize = 256;

/// `0, 1, ..., n - 1`.
pub open spec fn range_seq(n: nat) -> Seq<usize> {
    Seq::new(n, |k: int| k as usize)
}

/// Whether `p` holds each of `0..n` exactly once.
pub open spec fn is_perm_of_range(p: Seq<usize>, n: nat) -> bool {
    p.to_multiset() == range_seq(n).to_multiset()
}

/// The hashing half of Perlin noise: three random permutations of
/// `0..POINT_COUNT`, one per axis. A lattice point `(i, j, k)` is hashed to
/// `perm_x[i] ^ perm_y[j] ^ perm_z[k]`, the index of its gradient.
#[derive(Debug)]
pub struct PerlinHash {
    pub perm_x: Vec<usize>,
    pub perm_y: Vec<usize>,
    pub perm_z: Vec<usize>,
}

/// The gradient index of lattice point `(i, j, k)`: each coordinate is
/// reduced modulo `POINT_COUNT` (two's complement masking, so negative
/// coordinates wrap around) and looked up in its axis's permutation.
pub open spec fn corner_of(px: Seq<usize>, py: Seq<usize>, pz: Seq<usize>, i: i64, j: i64, k: i64) -> usize {
    px[(i & 255i64) as int] ^ py[(j & 255i64) as int] ^ pz[(k & 255i64) as int]
}

impl PerlinHash {
    /// Each table is a permutation of `0..POINT_COUNT`.
    pub open spec fn wf(&self) -> bool {
        &&& is_perm_of_range(self.perm_x@, POINT_COUNT as nat)
        &&& is_perm_of_range(self.perm_y@, POINT_COUNT as nat)
        &&& is_perm_of_range(self.perm_z@, POINT_COUNT as nat)
    }

    /// A random permutation of `0..n`: the identity, shuffled.
    pub fn generate_perm(n: usize, rng: &mut rand::rngs::StdRng) -> (r: Vec<usize>)
        ensures
            is_perm_of_range(r@, n as nat),
    {
        let mut p: Vec<usize> = Vec::new();
        let mut k: usize = 0;
        while k < n
            invariant
                k <= n,
                p@ == range_seq(k as nat),
            decreases n - k,
        {
            p.push(k);
            assert(p@ =~= range_seq((k + 1) as nat));
            k = k + 1;
        }
        shuffle(&mut p, rng);
        p
    }

    /// Three fresh permutations, drawn in the order x, y, z.
    pub fn new(rng: &mut rand::rngs::StdRng) -> (r: PerlinHash)
        ensures
            r.wf(),
    {
        let perm_x = PerlinHash::generate_perm(POINT_COUNT, rng);
        let perm_y = PerlinHash::generate_perm(POINT_COUNT, rng);
        let perm_z = PerlinHash::generate_perm(POINT_COUNT, rng);
        PerlinHash { perm_x, perm_y, perm_z }
    }

    /// The gradient index of lattice point `(i, j, k)`; always below
    /// `POINT_COUNT`.
    pub fn corner(&self, i: i64, j: i64, k: i64) -> (r: usize)
        requires
            self.wf(),
        ensures
            r == corner_of(self.perm_x@, self.perm_y@, self.perm_z@, i, j, k),
            r < POINT_COUNT,
    {
        let a = i & 255i64;
        let b = j & 255i64;
        let c = k & 255i64;
        assert(0 <= a < 256 && 0 <= b < 256 && 0 <= c < 256) by (bit_vector)
            requires
                a == i & 255i64,
                b == j & 255i64,
                c == k & 255i64,
        ;
        proof {
            lemma_perm_bounded(self.perm_x@, POINT_COUNT as nat);
            lemma_perm_bounded(self.perm_y@, POINT_COUNT as nat);
            lemma_perm_bounded(self.perm_z@, POINT_COUNT as nat);
        }
        let x = self.perm_x[a as usize];
        let y = self.perm_y[b as usize];
        let z = self.perm_z[c as usize];
        assert(x ^ y ^ z < 256) by (bit_vector)
            requires
                x < 256usize,
                y < 256usize,
                z < 256usize,
        ;
        x ^ y ^ z
    }
}

/// A permutation of `0..n` has length `n` and only entries below `n`.
pub proof fn lemma_perm_bounded(p: Seq<usize>, n: nat)
    requires
        is_perm_of_range(p, n),
    ensures
        p.len() == n,
        forall|q: int| 0 <= q < p.len() ==> #[trigger] p[q] < n,
{
    broadcast use vstd::seq_lib::group_to_multiset_ensures;

    assert(p.len() == p.to_multiset().len());
    assert(range_seq(n).len() == range_seq(n).to_multiset().len());
    assert forall|q: int| 0 <= q < p.len() implies #[trigger] p[q] < n by {
        assert(p.contains(p[q]));
        assert(p.to_multiset().count(p[q]) > 0);
        assert(range_seq(n).contains(p[q]));
        let w = choose|w: int| 0 <= w < range_seq(n).len() && range_seq(n)[w] == p[q];
    }
}

} // verus!
