//! Trusted boundary to the random number generator. Junction choices are
//! drawn from a caller-supplied `StdRng`, so a seeded generator makes
//! every branch decision, and therefore every train path, reproducible.

use vstd::prelude::*;

verus! {

#[verifier::external_type_specification]
#[verifier::external_body]
pub struct ExStdRng(rand::rngs::StdRng);

/// Relies on rand's `Rng::gen_range` over the range `0..n`: it returns a
/// uniformly distributed value of the range, and panics only on an empty
/// range, which the precondition rules out. Nothing more is assumed of
/// the value drawn.
#[verifier::external_body]
pub(crate) fn rng_below(rng: &mut rand::rngs::StdRng, n: usize) -> (r: usize)
    requires
        n >= 1,
    ensures
        r < n,
{
    rand::Rng::gen_range(rng, 0..n)
}

} // verus!
