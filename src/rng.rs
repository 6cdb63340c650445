use vstd::prelude::*;

verus! {

/// The random number generator of scene construction, `rand::rngs::StdRng`.
#[verifier::external_type_specification]
#[verifier::external_body]
pub struct ExStdRng(rand::rngs::StdRng);

/// Relies on `rand::Rng::gen_range` over `0..=hi`: the result lies in that
/// inclusive range (the range is never empty here, so it does not panic).
#[verifier::external_body]
pub(crate) fn gen_index_upto(rng: &mut rand::rngs::StdRng, hi: usize) -> (r: usize)
    ensures
        r <= hi,
{
    rand::Rng::gen_range(rng, 0..=hi)
}

/// Relies on `rand::seq::SliceRandom::shuffle`: it reorders the slice in
/// place by swaps only, so the same elements remain, each as often.
#[verifier::external_body]
pub(crate) fn shuffle(v: &mut Vec<usize>, rng: &mut rand::rngs::StdRng)
    ensures
        final(v)@.to_multiset() == old(v)@.to_multiset(),
{
    rand::seq::SliceRandom::shuffle(v.as_mut_slice(), rng)
}

} // verus!
