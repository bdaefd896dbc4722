//! The injectable randomness source: a seedable linear congruential
//! generator producing fixed-point samples in `[0, 1)`, and rejection
//! sampling of points inside the unit sphere.

use vstd::prelude::*;

use crate::fx::ONE;
use crate::vec3::{bounded, sqr_magn_s, Vec3, V3, MAGN_LIM};

verus! {

/// Relies on `rand::random`: a fresh unpredictable seed drawn from the
/// thread-local generator. Nothing can be promised of a random value.
pub assume_specification<T>[ rand::random::<T> ]() -> (r: T)
    where
        rand::distributions::Standard: rand::distributions::Distribution<T>,
;

/// The next state of the linear congruential generator, with Knuth's
/// multiplier, taken modulo 2^64.
pub open spec fn lcg_next_s(s: int) -> int {
    (s * 6364136223846793005 + 1442695040888963407) % 0x1_0000_0000_0000_0000
}

/// The fixed-point sample drawn from a generator state: its top 16 bits.
pub open spec fn lcg_out_s(s: int) -> int {
    s / 0x1_0000_0000_0000
}

/// The number of rejection rounds the unit-sphere sampler attempts.
pub const SAMPLE_TRIES: u32 = 64;

/// The candidate point mapped from three consecutive draws of the
/// generator: each sample in `[0, 1)` is sent to `[-1, 1)`.
#[verifier::opaque]
pub open spec fn sample_candidate_s(s: int) -> V3 {
    let s1 = lcg_next_s(s);
    let s2 = lcg_next_s(s1);
    let s3 = lcg_next_s(s2);
    V3 {
        x: 2 * lcg_out_s(s1) - ONE as int,
        y: 2 * lcg_out_s(s2) - ONE as int,
        z: 2 * lcg_out_s(s3) - ONE as int,
    }
}

/// The generator state after the three draws of one candidate.
#[verifier::opaque]
pub open spec fn sample_step_s(s: int) -> int {
    lcg_next_s(lcg_next_s(lcg_next_s(s)))
}

/// The rejection scan from state `s`: the first candidate strictly inside
/// the unit sphere within `tries` rounds, paired with the state reached; the
/// center, with the state as it stands, if every round rejects.
pub open spec fn sample_scan_s(s: int, tries: nat) -> (V3, int)
    decreases tries,
{
    if tries == 0 {
        (V3 { x: 0, y: 0, z: 0 }, s)
    } else {
        let c = sample_candidate_s(s);
        if sqr_magn_s(c) < ONE as int {
            (c, sample_step_s(s))
        } else {
            sample_scan_s(sample_step_s(s), (tries - 1) as nat)
        }
    }
}

/// A deterministic, seedable pseudo-random source of fixed-point values in
/// `[0, 1)`. Callers that need reproducibility construct it from a seed of
/// their own; `from_entropy` draws the seed from the operating environment.
pub struct Prng {
    /// The generator state; the next sample is a function of it alone.
    pub state: u64,
}

impl Prng {
    /// A generator starting from the given seed.
    pub fn new(seed: u64) -> (r: Prng)
        ensures
            r.state == seed,
    {
        Prng { state: seed }
    }

    /// A generator seeded from the operating environment.
    pub fn from_entropy() -> Prng {
        Prng { state: rand::random::<u64>() }
    }

    /// Draws the next sample: a raw fixed-point value in `[0, 1)`, a pure
    /// function of the generator state.
    pub fn next_unit(&mut self) -> (r: i64)
        ensures
            final(self).state as int == lcg_next_s(old(self).state as int),
            r as int == lcg_out_s(final(self).state as int),
            0 <= r < ONE as int,
    {
        let w: u128 = (self.state as u128) * 6364136223846793005 + 1442695040888963407;
        let s: u64 = (w % 0x1_0000_0000_0000_0000) as u64;
        self.state = s;
        let r: u64 = s / 0x1_0000_0000_0000;
        assert(s as int / 0x1_0000_0000_0000 < 65536) by (nonlinear_arith)
            requires
                0 <= (s as int) < 0x1_0000_0000_0000_0000,
        ;
        r as i64
    }
}

/// One rejection-sampling round: three draws mapped from `[0, 1)` to
/// `[-1, 1)`.
fn draw_candidate(rng: &mut Prng) -> (c: Vec3)
    ensures
        c@ == sample_candidate_s(old(rng).state as int),
        final(rng).state as int == sample_step_s(old(rng).state as int),
        bounded(c@, ONE as int),
{
    proof {
        reveal(sample_candidate_s);
        reveal(sample_step_s);
    }
    let x: i64 = 2 * rng.next_unit() - ONE;
    let y: i64 = 2 * rng.next_unit() - ONE;
    let z: i64 = 2 * rng.next_unit() - ONE;
    Vec3::new(x, y, z)
}

/// A rejection-sampled point strictly inside the unit sphere: three samples
/// are mapped from `[0, 1)` to `[-1, 1)` and kept when the squared magnitude
/// is below one. The result and the generator state reached are exactly the
/// rejection scan of the entry state, so a seeded generator reproduces the
/// point; if every round rejects, the center is returned.
#[verifier::rlimit(60)]
pub fn random_point_in_unit_sphere(rng: &mut Prng) -> (p: Vec3)
    ensures
        sqr_magn_s(p@) < ONE as int,
        bounded(p@, ONE as int),
        p@ == sample_scan_s(old(rng).state as int, SAMPLE_TRIES as nat).0,
        final(rng).state as int == sample_scan_s(old(rng).state as int, SAMPLE_TRIES as nat).1,
{
    let ghost s0: int = rng.state as int;
    let mut tries: u32 = SAMPLE_TRIES;
    while tries > 0
        invariant
            s0 == old(rng).state as int,
            sample_scan_s(s0, SAMPLE_TRIES as nat) == sample_scan_s(
                rng.state as int,
                tries as nat,
            ),
        decreases tries,
    {
        let ghost scur: int = rng.state as int;
        let ghost told: u32 = tries;
        tries = tries - 1;
        let cand: Vec3 = draw_candidate(rng);
        let sm: i64 = cand.sqr_magn();
        if sm < ONE {
            proof {
                assert(sample_scan_s(scur, told as nat) == (cand@, rng.state as int));
            }
            return cand;
        }
        proof {
            assert(sample_scan_s(scur, told as nat) == sample_scan_s(
                rng.state as int,
                tries as nat,
            ));
        }
    }
    let center: Vec3 = Vec3::zero();
    assert(sqr_magn_s(center@) == 0);
    assert(sample_scan_s(rng.state as int, 0) == (center@, rng.state as int));
    center
}

} // verus!
