//! The random draws the engines make on integers, and the seeds of the streams
//! they draw from.
//!
//! Every stream is a `StdRng` of rand. Work that may run on several threads
//! never shares a stream: each worker gets one of its own, seeded by a pure
//! function of the run's seed, an offset and the worker's index.

use rand::rngs::StdRng;
use rand::Rng;
use rand::SeedableRng;
use rand_distr::{Distribution, Uniform};
use vstd::prelude::*;

verus! {

/// `StdRng` of rand, the generator behind every stream. It is carried about
/// and drawn from; nothing is known here of what is inside.
#[verifier::external_type_specification]
#[verifier::external_body]
pub struct ExStdRng(StdRng);

/// The generator that `SeedableRng::seed_from_u64` of rand makes of a seed,
/// on `StdRng`. The seed is stretched to the generator's key by arithmetic on
/// the seed alone, and the generator is made of the key alone, so one seed
/// gives one generator: nothing but the seed goes into it.
pub uninterp spec fn stream_of(seed: u64) -> StdRng;

/// `SeedableRng::seed_from_u64` of rand, on `StdRng`: a fresh generator made
/// from `seed`. All that is claimed is that it is the generator of that seed:
/// nothing of what it will draw.
#[verifier::external_body]
pub(crate) fn seeded(seed: u64) -> (rng: StdRng)
    ensures
        rng == stream_of(seed),
{
    StdRng::seed_from_u64(seed)
}

/// `Uniform::new(low, high)`, which rand_distr hands on from rand, sampled
/// once with `Distribution::sample`: some index of the half-open range. The
/// constructor panics on an empty range, which the precondition leaves out.
#[verifier::external_body]
pub(crate) fn uniform_index(rng: &mut StdRng, low: usize, high: usize) -> (r: usize)
    requires
        low < high,
    ensures
        low <= r < high,
{
    Uniform::new(low, high).sample(rng)
}

/// `Uniform::new(low, high)` on 64-bit integers, sampled once with
/// `Distribution::sample`: some number of the half-open range. The
/// constructor panics on an empty range, which the precondition leaves out.
#[verifier::external_body]
pub(crate) fn uniform_u64(rng: &mut StdRng, low: u64, high: u64) -> (r: u64)
    requires
        low < high,
    ensures
        low <= r < high,
{
    Uniform::new(low, high).sample(rng)
}

/// `rand::seq::index::sample`, which the slice method `choose_multiple` of
/// rand draws its positions from, turned into a vector with
/// `IndexVec::into_vec`: exactly `amount` indices below `length`, no two
/// alike, in random order. It panics when asked for more indices than there
/// are, and above 2 to the 32 positions its checked builds panic when asked
/// for all of them; the precondition leaves both out.
#[verifier::external_body]
pub(crate) fn distinct_indices(rng: &mut StdRng, length: usize, amount: usize) -> (r: Vec<usize>)
    requires
        amount <= length,
        length > 0xFFFF_FFFF ==> amount < length,
    ensures
        r.len() == amount,
        forall|i: int| 0 <= i < r.len() ==> r[i] < length,
        forall|i: int, j: int| 0 <= i < j < r.len() ==> r[i] != r[j],
{
    rand::seq::index::sample(rng, length, amount).into_vec()
}

/// `Rng::gen::<bool>` of rand: one fair coin flip.
#[verifier::external_body]
pub(crate) fn fair_coin(rng: &mut StdRng) -> (r: bool) {
    rng.gen::<bool>()
}

/// The sum of a seed and two offsets, wrapped to 64 bits.
pub open spec fn derived_seed(seed: u64, offset: usize, index: usize) -> u64 {
    ((seed as int + offset as int + index as int) % 0x1_0000_0000_0000_0000) as u64
}

/// The seed of the stream that worker `index` draws from once `offset`
/// evaluations have been made: a function of the three numbers alone, so the
/// order in which workers run changes nothing.
pub fn worker_seed(seed: u64, offset: usize, index: usize) -> (r: u64)
    ensures
        r == derived_seed(seed, offset, index),
{
    let a: u64 = seed.wrapping_add(offset as u64);
    let r: u64 = a.wrapping_add(index as u64);
    r
}

/// The stream of worker `index` at `offset`: the generator of the seed that
/// is derived for the worker, fresh, with nothing drawn from it yet.
pub fn worker_rng(seed: u64, offset: usize, index: usize) -> (rng: StdRng)
    ensures
        rng == stream_of(derived_seed(seed, offset, index)),
{
    seeded(worker_seed(seed, offset, index))
}

} // verus!
