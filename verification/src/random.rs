//! The random source: the thread-local generator of the `rand` crate.
//!
//! Nothing here is proved. Each contract states what `rand` documents
//! of the call, for every outcome.

use vstd::prelude::*;
use rand::Rng;
use rand::rngs::ThreadRng;

verus! {

/// `rand::rngs::ThreadRng`, a handle to the thread-local generator.
/// Its state is hidden from the verifier.
#[verifier::external_type_specification]
#[verifier::external_body]
pub struct ExThreadRng(ThreadRng);

/// `rand::thread_rng` hands out the handle; nothing is claimed of it.
/// (It panics only where the operating system cannot seed the
/// generator. The same holds of each draw below: the generator reseeds
/// itself from the operating system from time to time.)
pub assume_specification[ rand::thread_rng ]() -> (rng: ThreadRng);

/// `Rng::gen_range` on an inclusive range of `u32`: the sample lies in
/// the range. The call panics on an empty range, which `requires` rules
/// out.
#[verifier::external_body]
pub(crate) fn random_in_range(rng: &mut ThreadRng, low: u32, high: u32) -> (r: u32)
    requires
        low <= high,
    ensures
        low <= r <= high,
{
    rng.gen_range(low..=high)
}

/// `Rng::gen_ratio`: true with probability `numerator / denominator`.
/// The crate documents that the result is certainly false for a zero
/// numerator and certainly true when numerator and denominator are
/// equal. The call panics on a zero denominator or a numerator above the
/// denominator, which `requires` rules out.
#[verifier::external_body]
pub(crate) fn random_ratio(rng: &mut ThreadRng, numerator: u32, denominator: u32) -> (r: bool)
    requires
        denominator > 0,
        numerator <= denominator,
    ensures
        numerator == 0 ==> !r,
        numerator == denominator ==> r,
{
    rng.gen_ratio(numerator, denominator)
}

} // verus!
