//! The library's only source of randomness, behind trusted wrappers.

use vstd::prelude::*;

verus! {

use crate::catalog::WeatherOptions;

/// Relies on rand::Rng::random_range over `0..bound`: the result is a
/// uniformly drawn value of the range, so in particular below `bound`;
/// the range is nonempty, so the call does not panic.
#[verifier::external_body]
pub(crate) fn random_below(bound: u64) -> (r: u64)
    requires
        bound >= 1,
    ensures
        r < bound,
{
    rand::Rng::random_range(&mut rand::rng(), 0..bound)
}

/// Relies on rand::seq::SliceRandom::shuffle: it permutes the slice in
/// place, so the new contents are the old contents in some order.
#[verifier::external_body]
pub(crate) fn shuffle_options(v: &mut Vec<WeatherOptions>)
    ensures
        final(v)@.to_multiset() == old(v)@.to_multiset(),
        final(v)@.len() == old(v)@.len(),
{
    rand::seq::SliceRandom::shuffle(v.as_mut_slice(), &mut rand::rng());
}

} // verus!
