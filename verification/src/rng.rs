//! Randomness at the server: the emission order of encoding symbols is a
//! fresh uniform permutation per GET, so that repeated losses do not strike
//! the same symbols.

use rand::seq::SliceRandom;
use vstd::prelude::*;

verus! {

/// Relies on rand's `SliceRandom::shuffle`: an in-place permutation of the
/// slice, picked uniformly at random.  Which order comes out is unknowable;
/// that the elements are only rearranged is what callers build on.
#[verifier::external_body]
pub(crate) fn shuffle_u16(v: &mut Vec<u16>)
    ensures
        final(v)@.to_multiset() == old(v)@.to_multiset(),
        final(v)@.len() == old(v)@.len(),
{
    v.shuffle(&mut rand::rng());
}

} // verus!
