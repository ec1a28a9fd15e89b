//! The source of random draws. Nothing can be promised of a draw, so the
//! functions here carry no postcondition: whatever uses a draw is verified
//! for either outcome.

use rand::Rng;
use rand::rngs::ThreadRng;
use vstd::prelude::*;

verus! {

/// `rand::rngs::ThreadRng`, the handle to the calling thread's random number
/// generator. The verifier does not look inside it.
#[verifier::external_type_specification]
#[verifier::external_body]
pub struct ExThreadRng(ThreadRng);

/// `rand::thread_rng`: the handle to the calling thread's generator, which
/// the operating system seeds when the thread first asks for it. Nothing is
/// claimed of the handle. The call panics if the operating system cannot
/// supply a seed.
#[verifier::external_body]
pub(crate) fn thread_generator() -> (generator: ThreadRng) {
    rand::thread_rng()
}

/// `Rng::gen::<bool>`: one random truth value from the generator. Nothing is
/// claimed of the value, nor of the generator afterwards.
#[verifier::external_body]
pub(crate) fn draw(generator: &mut ThreadRng) -> (outcome: bool) {
    generator.gen()
}

} // verus!
