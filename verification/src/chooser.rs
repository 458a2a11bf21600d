//! The source of randomness for food placement.
use rand::rngs::ThreadRng;
use rand::seq::SliceRandom;
use vstd::prelude::*;

verus! {

/// `rand::rngs::ThreadRng`, the handle to the generator of the running
/// thread. Nothing is known of what it holds.
#[verifier::external_type_specification]
#[verifier::external_body]
pub struct ExThreadRng(ThreadRng);

/// `rand::thread_rng` hands out the generator of the running thread, which
/// the system seeds on first use. Nothing is claimed of the generator. The
/// call fails only where the system has no entropy to seed it with.
pub assume_specification[ rand::thread_rng ]() -> (rng: ThreadRng)
;

/// Draws one candidate with `rand::seq::SliceRandom::choose`.
///
/// Believed, not proved: the draw is `None` exactly when there is no
/// candidate, and otherwise it is one of the candidates. Which one is left
/// open: it depends on the generator.
#[verifier::external_body]
pub(crate) fn choose_cell(candidates: &Vec<u8>, rng: &mut ThreadRng) -> (pick: Option<u8>)
    ensures
        pick is None <==> candidates@.len() == 0,
        pick matches Some(c) ==> candidates@.contains(c),
{
    candidates.choose(rng).copied()
}

} // verus!
