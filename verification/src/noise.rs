//! The coherent-noise field behind the materials: how it is set up, and
//! how its samples, in thousandths, are layered into octaves. Sampling
//! works on floating point and is left to the caller.

use vstd::prelude::*;
use fastnoise_lite::{FastNoiseLite, NoiseType};
use crate::geometry::{div_floor, lemma_mul_bound};

verus! {

/// The noise field of the `fastnoise_lite` crate. Nothing of what it
/// holds is visible here.
#[verifier::external_type_specification]
#[verifier::external_body]
pub struct ExFastNoiseLite(FastNoiseLite);

/// The noise algorithms of the `fastnoise_lite` crate.
#[verifier::external_type_specification]
#[verifier::external_body]
pub struct ExNoiseType(NoiseType);

/// The noise field that `FastNoiseLite::with_seed` makes for a seed: the
/// crate's default field, which uses the OpenSimplex2 algorithm, with that
/// seed in place of the default one.
pub uninterp spec fn seeded_field(seed: i32) -> FastNoiseLite;

/// `FastNoiseLite::with_seed` takes the crate's default field and sets
/// its seed. What it returns depends on the seed alone, so it is named.
pub assume_specification[ FastNoiseLite::with_seed ](seed: i32) -> (noise: FastNoiseLite)
    ensures
        noise == seeded_field(seed),
;

/// `FastNoiseLite::set_noise_type` selects the algorithm, or the crate's
/// default algorithm, OpenSimplex2, when given nothing. A field fresh from
/// `with_seed` has that algorithm already, and the coordinate transform
/// that goes with it, so that naming no algorithm leaves it as it is.
/// Nothing is claimed of any other call.
pub assume_specification[ FastNoiseLite::set_noise_type ](
    noise: &mut FastNoiseLite,
    noise_type: Option<NoiseType>,
)
    ensures
        forall|seed: i32|
            noise_type is None && *old(noise) == #[trigger] seeded_field(seed) ==> *final(noise)
                == seeded_field(seed),
;

/// The seed of the noise field, fixed once and for all.
pub const NOISE_SEED: i32 = 1337;

/// The noise field that all materials sample: the field that the crate
/// makes for `NOISE_SEED`, with the OpenSimplex2 algorithm, which is the
/// one the field has from the start and falls back to when none is named.
/// Two fields made here are the same field.
pub fn create_noise() -> (noise: FastNoiseLite)
    ensures
        noise == seeded_field(NOISE_SEED),
{
    let mut noise = FastNoiseLite::with_seed(NOISE_SEED);
    noise.set_noise_type(None);
    noise
}

/// The weight of octave `i` in millionths: one whole for the first
/// octave, and six tenths of the previous weight for each further one.
pub open spec fn amplitude(i: nat) -> int
    decreases i,
{
    if i == 0 {
        1_000_000
    } else {
        amplitude((i - 1) as nat) * 6 / 10
    }
}

/// The sum of the first `n` samples, each multiplied by its octave's weight.
pub open spec fn weighted_sum(samples: Seq<i32>, n: nat) -> int
    decreases n,
{
    if n == 0 {
        0
    } else {
        weighted_sum(samples, (n - 1) as nat) + samples[n - 1] * amplitude((n - 1) as nat)
    }
}

/// The sum of the weights of the first `n` octaves.
pub open spec fn amplitude_sum(n: nat) -> int
    decreases n,
{
    if n == 0 {
        0
    } else {
        amplitude_sum((n - 1) as nat) + amplitude((n - 1) as nat)
    }
}

/// Fractal Brownian motion over one sample per octave: the weighted sum
/// of the samples, in thousandths, rounded down.
pub open spec fn fbm(samples: Seq<i32>) -> int {
    weighted_sum(samples, samples.len()) / 1_000_000
}

/// The weights fall, stay positive or zero, and all of them together
/// never exceed two and a half wholes.
pub proof fn lemma_amplitudes(n: nat)
    ensures
        0 <= amplitude(n) <= 1_000_000,
        2 * amplitude_sum(n) + 5 * amplitude(n) <= 5_000_000,
        amplitude_sum(n) >= 0,
    decreases n,
{
    if n > 0 {
        lemma_amplitudes((n - 1) as nat);
    }
}

/// A weighted sum is bounded by the largest sample size times the sum of
/// the weights.
pub proof fn lemma_weighted_sum_bound(samples: Seq<i32>, n: nat)
    requires
        n <= samples.len(),
    ensures
        -(0x8000_0000 * amplitude_sum(n)) <= weighted_sum(samples, n) <= 0x8000_0000
            * amplitude_sum(n),
    decreases n,
{
    if n > 0 {
        lemma_weighted_sum_bound(samples, (n - 1) as nat);
        lemma_amplitudes((n - 1) as nat);
        lemma_mul_bound(
            samples[n - 1] as int,
            amplitude((n - 1) as nat),
            0x8000_0000,
            amplitude((n - 1) as nat),
        );
        assert(0x8000_0000 * (amplitude_sum((n - 1) as nat) + amplitude((n - 1) as nat))
            == 0x8000_0000 * amplitude_sum((n - 1) as nat) + 0x8000_0000 * amplitude(
            (n - 1) as nat,
        )) by (nonlinear_arith);
    }
}

/// Layers the samples of successive octaves, the first with full weight
/// and each further one with six tenths of the weight before it.
pub fn fbm_noise(samples: &[i32]) -> (value: i64)
    ensures
        value == fbm(samples@),
        -5_368_709_120 <= value <= 5_368_709_120,
{
    let n: usize = samples.len();
    let mut sum: i128 = 0;
    let mut amp: i64 = 1_000_000;
    let mut i: usize = 0;
    proof {
        lemma_amplitudes(0);
    }
    while i < n
        invariant
            i <= n,
            n == samples@.len(),
            amp == amplitude(i as nat),
            sum == weighted_sum(samples@, i as nat),
            0 <= amp <= 1_000_000,
            0 <= amplitude_sum(i as nat) <= 2_500_000,
        decreases n - i,
    {
        proof {
            lemma_weighted_sum_bound(samples@, i as nat);
            lemma_weighted_sum_bound(samples@, (i + 1) as nat);
            lemma_amplitudes(i as nat);
            lemma_amplitudes((i + 1) as nat);
            lemma_mul_bound(samples@[i as int] as int, amp as int, 0x8000_0000, 1_000_000);
            lemma_mul_bound(0x8000_0000, amplitude_sum(i as nat), 0x8000_0000, 2_500_000);
            lemma_mul_bound(0x8000_0000, amplitude_sum((i + 1) as nat), 0x8000_0000, 2_500_000);
        }
        sum = sum + (samples[i] as i128) * (amp as i128);
        amp = amp * 6 / 10;
        i = i + 1;
    }
    proof {
        lemma_weighted_sum_bound(samples@, n as nat);
        lemma_amplitudes(n as nat);
        lemma_mul_bound(0x8000_0000, amplitude_sum(n as nat), 0x8000_0000, 2_500_000);
        vstd::arithmetic::div_mod::lemma_div_is_ordered(
            -5_368_709_120_000_000int,
            sum as int,
            1_000_000,
        );
        vstd::arithmetic::div_mod::lemma_div_is_ordered(
            sum as int,
            5_368_709_120_000_000int,
            1_000_000,
        );
    }
    let q: i128 = div_floor(sum, 1_000_000);
    q as i64
}

} // verus!
