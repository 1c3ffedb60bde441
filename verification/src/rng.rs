//! The random source used by the species update rules.
//!
//! Randomness comes from `fastrand::Rng`, an explicit, seedable generator
//! that callers pass into every stochastic operation, so that ticks are
//! reproducible under a fixed seed.  The generator is opaque to the
//! verifier; the wrappers below state only what holds of every outcome:
//! a draw from a non-empty range lands inside that range.

use vstd::prelude::*;

verus! {

/// `fastrand::Rng`, declared so that it can travel through verified
/// signatures; its state stays opaque.
#[verifier::external_type_specification]
#[verifier::external_body]
pub struct ExRng(fastrand::Rng);

/// Relies on `fastrand::Rng::i64`: a draw over the inclusive range
/// `low..=high` is a value of that range; the call panics only when the
/// range is empty, which the precondition rules out.
#[verifier::external_body]
pub(crate) fn random_i64(rng: &mut fastrand::Rng, low: i64, high: i64) -> (r: i64)
    requires
        low <= high,
    ensures
        low <= r <= high,
{
    rng.i64(low..=high)
}

/// Relies on `fastrand::Rng::u8`: a draw over the inclusive range
/// `low..=high` is a value of that range; the call panics only when the
/// range is empty, which the precondition rules out.
#[verifier::external_body]
pub(crate) fn random_u8(rng: &mut fastrand::Rng, low: u8, high: u8) -> (r: u8)
    requires
        low <= high,
    ensures
        low <= r <= high,
{
    rng.u8(low..=high)
}

} // verus!
