//! The random source of the simulations: `rand`'s `SmallRng`, reached only
//! through the trusted items below. Nothing is known of the values they
//! produce beyond the ranges stated; the simulations are verified for every
//! value that can come back.
use rand::rngs::SmallRng;
use rand::seq::SliceRandom;
use rand::Rng;
use rand::SeedableRng;
use vstd::prelude::*;

verus! {

/// `rand::rngs::SmallRng`, the seeded generator that drives every random
/// choice of a simulation. Its state is opaque to the proofs.
#[verifier::external_type_specification]
#[verifier::external_body]
pub struct ExSmallRng(SmallRng);

/// Calls `SmallRng::seed_from_u64`. Nothing is stated of the generator it
/// returns; its stream is fixed by the seed, which the tests check.
#[verifier::external_body]
pub(crate) fn seeded_rng(seed: u64) -> (rng: SmallRng) {
    SmallRng::seed_from_u64(seed)
}

/// Calls `Rng::fill` on a byte slice: every byte is overwritten with a random
/// value. Only the length is stated: it is kept.
#[verifier::external_body]
pub(crate) fn fill_random(rng: &mut SmallRng, buf: &mut [u8])
    ensures
        final(buf)@.len() == old(buf)@.len(),
{
    rng.fill(buf)
}

/// Calls `Rng::gen_range(0..n)` on `usize`: a value below `n`. The call
/// panics on an empty range, which `requires` leaves out.
#[verifier::external_body]
pub(crate) fn below_usize(rng: &mut SmallRng, n: usize) -> (r: usize)
    requires
        0 < n,
    ensures
        r < n,
{
    rng.gen_range(0..n)
}

/// Calls `Rng::gen_range(0..n)` on `u32`: a value below `n`. The call panics
/// on an empty range, which `requires` leaves out.
#[verifier::external_body]
pub(crate) fn below_u32(rng: &mut SmallRng, n: u32) -> (r: u32)
    requires
        0 < n,
    ensures
        r < n,
{
    rng.gen_range(0..n)
}

/// Calls `Rng::gen::<bool>()`: a fair coin. Nothing is stated of the result.
#[verifier::external_body]
pub(crate) fn coin(rng: &mut SmallRng) -> (r: bool) {
    rng.gen::<bool>()
}

/// Calls `Rng::gen_ratio(numerator, denominator)`: `true` with probability
/// `numerator / denominator`. Its documentation promises `false` when the
/// numerator is zero and `true` when it equals the denominator; it panics
/// when the denominator is zero or below the numerator, which `requires`
/// leaves out.
#[verifier::external_body]
pub(crate) fn gen_ratio(rng: &mut SmallRng, numerator: u32, denominator: u32) -> (r: bool)
    requires
        0 < denominator,
        numerator <= denominator,
    ensures
        numerator == 0 ==> !r,
        numerator == denominator ==> r,
{
    rng.gen_ratio(numerator, denominator)
}

/// Calls `SliceRandom::shuffle` on the vector's elements: they are put in a
/// random order, so the result is a permutation of the input.
#[verifier::external_body]
pub(crate) fn shuffle(rng: &mut SmallRng, v: &mut Vec<usize>)
    ensures
        final(v)@.len() == old(v)@.len(),
        final(v)@.to_multiset() == old(v)@.to_multiset(),
{
    v.shuffle(rng)
}

} // verus!
