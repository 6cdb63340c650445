use vstd::prelude::*;

use crate::rng::gen_index_upto;

verus! {

/// The layout of a bounding volume hierarchy over primitives `0..n` of a
/// scene, each named by its index. The boxes themselves belong to the
/// primitives; the layout says which node holds which primitives.
#[derive(Debug)]
pub enum BVHNode {
    /// A node over a single primitive.
    One(usize),
    /// A node whose two children are primitives (left, right).
    Two(usize, usize),
    /// A node whose two children are nodes (left, right).
    Split(Box<BVHNode>, Box<BVHNode>),
}

/// The key of primitive `o` along `axis`: the rank of the minimum corner of
/// its bounding box along that axis among all the scene's primitives (equal
/// corners have equal keys).
pub open spec fn key_of(keys: Seq<[u64; 3]>, o: usize, axis: int) -> u64 {
    keys[o as int]@[axis]
}

/// Whether every primitive of `s` has a key.
pub open spec fn keyed(s: Seq<usize>, keys: Seq<[u64; 3]>) -> bool {
    forall|q: int| 0 <= q < s.len() ==> #[trigger] s[q] < keys.len()
}

/// Whether `s` is in non-decreasing key order along `axis`.
pub open spec fn sorted_on(s: Seq<usize>, keys: Seq<[u64; 3]>, axis: int) -> bool {
    forall|a: int, b: int|
        0 <= a < b < s.len() ==> key_of(keys, #[trigger] s[a], axis) <= key_of(
            keys,
            #[trigger] s[b],
            axis,
        )
}

/// Whether, along `axis`, no primitive of `l` has a larger key than any
/// primitive of `r`.
pub open spec fn ordered_on(l: Seq<usize>, r: Seq<usize>, keys: Seq<[u64; 3]>, axis: int) -> bool {
    forall|a: usize, b: usize|
        #[trigger] l.contains(a) && #[trigger] r.contains(b) ==> key_of(keys, a, axis) <= key_of(
            keys,
            b,
            axis,
        )
}

impl BVHNode {
    /// The primitives under this node, left to right.
    pub open spec fn leaves(self) -> Seq<usize>
        decreases self,
    {
        match self {
            BVHNode::One(a) => seq![a],
            BVHNode::Two(a, b) => seq![a, b],
            BVHNode::Split(l, r) => l.leaves() + r.leaves(),
        }
    }

    /// The shape that construction produces: a node over three or more
    /// primitives splits them at one axis into a lower half of
    /// `n / 2` primitives (left) and an upper half (right), and so on down.
    pub open spec fn well_built(self, keys: Seq<[u64; 3]>) -> bool
        decreases self,
    {
        match self {
            BVHNode::One(_) => true,
            BVHNode::Two(_, _) => true,
            BVHNode::Split(l, r) => {
                let n = l.leaves().len() + r.leaves().len();
                &&& n >= 3
                &&& l.leaves().len() == n / 2
                &&& l.well_built(keys)
                &&& r.well_built(keys)
                &&& (ordered_on(l.leaves(), r.leaves(), keys, 0) || ordered_on(
                    l.leaves(),
                    r.leaves(),
                    keys,
                    1,
                ) || ordered_on(l.leaves(), r.leaves(), keys, 2))
            },
        }
    }
}

/// Inserting `x` at the first position whose key exceeds `x`'s keeps a
/// sorted sequence sorted.
proof fn lemma_insert_keeps_sorted(s0: Seq<usize>, p: int, x: usize, keys: Seq<[u64; 3]>, axis: int)
    requires
        0 <= p <= s0.len(),
        sorted_on(s0, keys, axis),
        forall|q: int| 0 <= q < p ==> key_of(keys, #[trigger] s0[q], axis) <= key_of(keys, x, axis),
        p < s0.len() ==> key_of(keys, x, axis) < key_of(keys, s0[p], axis),
    ensures
        sorted_on(s0.insert(p, x), keys, axis),
{
    let s = s0.insert(p, x);
    assert forall|a: int, b: int| 0 <= a < b < s.len() implies key_of(
        keys,
        #[trigger] s[a],
        axis,
    ) <= key_of(keys, #[trigger] s[b], axis) by {
        if b > p {
            assert(s[b] == s0[b - 1]);
            if a > p {
                assert(s[a] == s0[a - 1]);
            } else {
                assert(key_of(keys, s0[p], axis) <= key_of(keys, s0[b - 1], axis));
                if a < p {
                    assert(s[a] == s0[a]);
                }
            }
        } else if b == p {
            assert(s[a] == s0[a]);
        } else {
            assert(s[a] == s0[a]);
            assert(s[b] == s0[b]);
        }
    }
}

/// Inserting `x` into a sequence adds one `x` to its multiset.
proof fn lemma_insert_multiset(s0: Seq<usize>, p: int, x: usize)
    requires
        0 <= p <= s0.len(),
    ensures
        s0.insert(p, x).to_multiset() == s0.to_multiset().insert(x),
{
    broadcast use vstd::seq_lib::group_to_multiset_ensures;
    broadcast use vstd::multiset::group_multiset_axioms;

    let s = s0.insert(p, x);
    assert(s.remove(p) =~= s0);
    assert(s[p] == x);
    assert(s0.to_multiset() =~= s.to_multiset().remove(x));
    assert(s.to_multiset() =~= s0.to_multiset().insert(x));
}

/// Inserts `x` into `sorted` after every element whose key is not larger
/// (so equal keys keep their order of arrival).
fn insert_sorted(sorted: &mut Vec<usize>, x: usize, keys: &Vec<[u64; 3]>, axis: usize)
    requires
        axis < 3,
        x < keys@.len(),
        keyed(old(sorted)@, keys@),
        sorted_on(old(sorted)@, keys@, axis as int),
    ensures
        keyed(final(sorted)@, keys@),
        sorted_on(final(sorted)@, keys@, axis as int),
        final(sorted)@.to_multiset() == old(sorted)@.to_multiset().insert(x),
{
    let kx = keys[x][axis];
    let mut p: usize = 0;
    while p < sorted.len() && keys[sorted[p]][axis] <= kx
        invariant
            axis < 3,
            p <= sorted@.len(),
            sorted@ == old(sorted)@,
            keyed(sorted@, keys@),
            kx == key_of(keys@, x, axis as int),
            forall|q: int| 0 <= q < p ==> key_of(keys@, #[trigger] sorted@[q], axis as int) <= kx,
        decreases sorted@.len() - p,
    {
        p = p + 1;
    }
    let ghost s0 = sorted@;
    proof {
        lemma_insert_keeps_sorted(s0, p as int, x, keys@, axis as int);
        lemma_insert_multiset(s0, p as int, x);
    }
    sorted.insert(p, x);
    assert(sorted@ == s0.insert(p as int, x));
}

/// A stable sort of `objects` by key along `axis`.
fn sort_on(objects: &Vec<usize>, keys: &Vec<[u64; 3]>, axis: usize) -> (r: Vec<usize>)
    requires
        axis < 3,
        keyed(objects@, keys@),
    ensures
        keyed(r@, keys@),
        sorted_on(r@, keys@, axis as int),
        r@.to_multiset() == objects@.to_multiset(),
{
    let mut r: Vec<usize> = Vec::new();
    let mut k: usize = 0;
    proof {
        broadcast use vstd::seq_lib::group_to_multiset_ensures;

        assert(objects@.take(0) =~= r@);
    }
    while k < objects.len()
        invariant
            axis < 3,
            k <= objects@.len(),
            keyed(objects@, keys@),
            keyed(r@, keys@),
            sorted_on(r@, keys@, axis as int),
            r@.to_multiset() == objects@.take(k as int).to_multiset(),
        decreases objects@.len() - k,
    {
        insert_sorted(&mut r, objects[k], keys, axis);
        proof {
            broadcast use vstd::seq_lib::group_to_multiset_ensures;

            assert(objects@.take(k + 1) =~= objects@.take(k as int).push(objects@[k as int]));
        }
        k = k + 1;
    }
    assert(objects@.take(k as int) =~= objects@);
    r
}

/// Halves of a sorted sequence are ordered against each other: whatever
/// `lo` and `hi` hold came from before and after the cut.
proof fn lemma_halves_ordered(
    sorted: Seq<usize>,
    cut: int,
    lo: Seq<usize>,
    hi: Seq<usize>,
    keys: Seq<[u64; 3]>,
    axis: int,
)
    requires
        0 <= cut <= sorted.len(),
        sorted_on(sorted, keys, axis),
        lo.to_multiset() == sorted.subrange(0, cut).to_multiset(),
        hi.to_multiset() == sorted.subrange(cut, sorted.len() as int).to_multiset(),
    ensures
        ordered_on(lo, hi, keys, axis),
{
    broadcast use vstd::seq_lib::group_to_multiset_ensures;

    let sl = sorted.subrange(0, cut);
    let sh = sorted.subrange(cut, sorted.len() as int);
    assert forall|a: usize, b: usize| #[trigger] lo.contains(a) && #[trigger] hi.contains(b) implies key_of(
        keys,
        a,
        axis,
    ) <= key_of(keys, b, axis) by {
        assert(lo.to_multiset().count(a) > 0);
        assert(hi.to_multiset().count(b) > 0);
        assert(sl.contains(a));
        assert(sh.contains(b));
        let qa = choose|qa: int| 0 <= qa < sl.len() && sl[qa] == a;
        let qb = choose|qb: int| 0 <= qb < sh.len() && sh[qb] == b;
        assert(sorted[qa] == a);
        assert(sorted[cut + qb] == b);
    }
}

impl BVHNode {
    /// Builds the hierarchy over `objects` (at least one primitive). One
    /// primitive makes a single node; two make a node over both; more are
    /// sorted along an axis drawn at random from `rng` and split into a
    /// lower half of `n / 2` and an upper half, each built in turn.
    pub fn new(objects: Vec<usize>, keys: &Vec<[u64; 3]>, rng: &mut rand::rngs::StdRng) -> (r: BVHNode)
        requires
            objects@.len() >= 1,
            keyed(objects@, keys@),
        ensures
            r.leaves().to_multiset() == objects@.to_multiset(),
            r.well_built(keys@),
            objects@.len() == 1 ==> r == BVHNode::One(objects@[0]),
            objects@.len() == 2 ==> r == BVHNode::Two(objects@[1], objects@[0]),
            objects@.len() >= 3 ==> r is Split,
            objects@.len() <= 2 ==> *final(rng) == *old(rng),
        decreases objects@.len(),
    {
        broadcast use vstd::seq_lib::group_to_multiset_ensures;

        let n = objects.len();
        if n == 1 {
            let r = BVHNode::One(objects[0]);
            assert(r.leaves() =~= objects@);
            r
        } else if n == 2 {
            let r = BVHNode::Two(objects[1], objects[0]);
            proof {
                broadcast use vstd::multiset::group_multiset_axioms;

                assert(objects@ =~= seq![objects@[0]].push(objects@[1]));
                assert(r.leaves() =~= seq![objects@[1]].push(objects@[0]));
                assert(seq![objects@[0]] =~= Seq::<usize>::empty().push(objects@[0]));
                assert(seq![objects@[1]] =~= Seq::<usize>::empty().push(objects@[1]));
                assert(r.leaves().to_multiset() =~= objects@.to_multiset());
            }
            r
        } else {
            let axis = gen_index_upto(rng, 2);
            let mut lower = sort_on(&objects, keys, axis);
            let ghost sorted = lower@;
            assert(sorted.len() == sorted.to_multiset().len());
            assert(objects@.len() == objects@.to_multiset().len());
            let upper = lower.split_off(n / 2);
            proof {
                assert forall|q: int| 0 <= q < lower@.len() implies #[trigger] lower@[q] < keys@.len() by {
                    assert(lower@[q] == sorted[q]);
                }
                assert forall|q: int| 0 <= q < upper@.len() implies #[trigger] upper@[q] < keys@.len() by {
                    assert(upper@[q] == sorted[n / 2 + q]);
                }
            }
            let ghost lower_s = lower@;
            let ghost upper_s = upper@;
            let left = BVHNode::new(lower, keys, rng);
            let right = BVHNode::new(upper, keys, rng);
            proof {
                lemma_halves_ordered(sorted, (n / 2) as int, left.leaves(), right.leaves(), keys@, axis as int);
                vstd::seq_lib::lemma_multiset_commutative(left.leaves(), right.leaves());
                vstd::seq_lib::lemma_multiset_commutative(lower_s, upper_s);
                assert(lower_s + upper_s =~= sorted);
                assert(left.leaves().len() == left.leaves().to_multiset().len());
                assert(right.leaves().len() == right.leaves().to_multiset().len());
            }
            BVHNode::Split(Box::new(left), Box::new(right))
        }
    }
}

/// A layout built over distinct primitives holds each of them in exactly one
/// leaf and holds nothing else: a traversal that reaches every leaf whose
/// boxes a ray meets tests each primitive once.
pub proof fn lemma_each_primitive_once(node: BVHNode, objects: Seq<usize>)
    requires
        node.leaves().to_multiset() == objects.to_multiset(),
        objects.no_duplicates(),
    ensures
        node.leaves().no_duplicates(),
        forall|o: usize| node.leaves().contains(o) <==> objects.contains(o),
{
    broadcast use vstd::seq_lib::group_to_multiset_ensures;
    broadcast use vstd::multiset::group_multiset_axioms;

    let s = node.leaves();
    objects.lemma_multiset_has_no_duplicates();
    assert forall|o: usize| s.contains(o) <==> objects.contains(o) by {
        assert(s.contains(o) <==> s.to_multiset().count(o) > 0);
        assert(objects.contains(o) <==> objects.to_multiset().count(o) > 0);
    }
    assert forall|a: int, b: int| 0 <= a < s.len() && 0 <= b < s.len() && a != b implies s[a]
        != s[b] by {
        if s[a] == s[b] {
            let rest = s.remove(a);
            assert(rest.to_multiset() == s.to_multiset().remove(s[a]));
            let k = if b < a { b } else { b - 1 };
            assert(rest[k] == s[b]);
            assert(rest.contains(s[b]));
            assert(rest.to_multiset().count(s[b]) > 0);
            assert(s.to_multiset().count(s[a]) >= 2);
            assert(objects.to_multiset().contains(s[a]));
        }
    }
}

} // verus!
