//! The random source of the operators.
//!
//! Every draw is made by the `rand` crate. Nothing is known of a draw but the
//! range it falls in, so whatever the operators promise holds of every outcome.

use rand::rngs::ThreadRng;
use rand::seq::IteratorRandom;
use rand::Rng;
use vstd::prelude::*;

verus! {

/// The thread-local generator of `rand`, carried through as an opaque value.
#[verifier::external_type_specification]
#[verifier::external_body]
pub struct ExThreadRng(ThreadRng);

/// Returns a random number generator.
///
/// Calls `rand::thread_rng`, which hands out the generator of the current
/// thread. Nothing is claimed of it.
#[verifier::external_body]
pub fn get_random_generator() -> ThreadRng {
    rand::thread_rng()
}

/// A uniformly drawn index below `bound`.
///
/// Calls `Rng::gen_range` on the half-open range `0..bound`. The claim is that
/// the draw lies in that range; the call panics on an empty range, which the
/// precondition leaves out.
#[verifier::external_body]
pub(crate) fn random_below(rng: &mut ThreadRng, bound: usize) -> (index: usize)
    requires
        bound > 0,
    ensures
        index < bound,
{
    rng.gen_range(0..bound)
}

/// A uniformly drawn index up to `bound`, the bound included.
///
/// Calls `Rng::gen_range` on the closed range `0..=bound`, which is never
/// empty. The claim is that the draw lies in that range.
#[verifier::external_body]
pub(crate) fn random_up_to(rng: &mut ThreadRng, bound: usize) -> (index: usize)
    ensures
        index <= bound,
{
    rng.gen_range(0..=bound)
}

/// A biased coin that shows `true` with probability `numerator / denominator`.
///
/// Calls `Rng::gen_ratio`, which documents that a numerator of zero always
/// gives `false` and a numerator equal to the denominator always gives `true`.
/// It panics on a zero denominator and on a numerator above the denominator,
/// which the precondition leaves out.
#[verifier::external_body]
pub(crate) fn random_ratio(rng: &mut ThreadRng, numerator: u32, denominator: u32) -> (hit: bool)
    requires
        0 < denominator,
        numerator <= denominator,
    ensures
        numerator == 0 ==> !hit,
        numerator == denominator ==> hit,
{
    rng.gen_ratio(numerator, denominator)
}

/// One of the given candidates, uniformly drawn.
///
/// Calls `IteratorRandom::choose` on the candidates in order. It documents
/// that `None` comes back if and only if there is no candidate; otherwise the
/// choice is one of them.
#[verifier::external_body]
pub(crate) fn random_choice(rng: &mut ThreadRng, candidates: &Vec<usize>) -> (choice: Option<usize>)
    ensures
        choice.is_none() <==> candidates@.len() == 0,
        choice.is_some() ==> candidates@.contains(choice.unwrap()),
{
    candidates.iter().copied().choose(rng)
}

} // verus!
