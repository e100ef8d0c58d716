use vstd::prelude::*;

use rand::seq::IndexedRandom;
use rand::Rng;
use rand_xorshift::XorShiftRng;

use crate::career::Action;

verus! {

/// The random number generator that drives a career: rand_xorshift's
/// `XorShiftRng`. Its internal state is not visible to the proofs.
#[verifier::external_type_specification]
#[verifier::external_body]
pub struct ExXorShiftRng(XorShiftRng);

/// Calls `Rng::random_range(rng, 0..bound)` of the rand crate, which panics
/// on an empty range and otherwise returns a value of that range. Which value
/// comes out depends on the generator's state and is not stated.
#[verifier::external_body]
pub(crate) fn random_below(rng: &mut XorShiftRng, bound: u32) -> (r: u32)
    requires
        bound > 0,
    ensures
        r < bound,
{
    rng.random_range(0..bound)
}

/// Calls `Rng::random_ratio(rng, numerator, denominator)` of the rand crate:
/// `true` with probability `numerator / denominator`. Its documentation
/// guarantees `true` when the two are equal and `false` when the numerator
/// is zero; it panics when the denominator is zero or below the numerator.
/// Beyond those two cases the outcome depends on the generator's state and
/// is not stated.
#[verifier::external_body]
pub(crate) fn random_ratio(rng: &mut XorShiftRng, numerator: u32, denominator: u32) -> (r: bool)
    requires
        0 < denominator,
        numerator <= denominator,
    ensures
        numerator == denominator ==> r,
        numerator == 0 ==> !r,
{
    rng.random_ratio(numerator, denominator)
}

/// Calls `IndexedRandom::choose(items, rng)` of the rand crate: `None` for an
/// empty slice, otherwise a reference to one of its elements. Which element
/// depends on the generator's state and is not stated.
#[verifier::external_body]
pub(crate) fn choose_action<'a>(rng: &mut XorShiftRng, items: &'a [Action]) -> (r: Option<&'a Action>)
    ensures
        r is None <==> items@.len() == 0,
        r matches Some(a) ==> items@.contains(*a),
{
    items.choose(rng)
}

} // verus!
