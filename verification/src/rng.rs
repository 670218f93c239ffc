use vstd::prelude::*;

verus! {

/// A capability that yields uniform integers in a bounded range. The
/// production source draws from the operating system; a seeded source exists
/// for reproducible runs. Nothing beyond the range of each draw is promised.
pub trait RandomSource {
    /// A value drawn from `[0, n)`.
    fn next_below(&mut self, n: u32) -> (r: u32)
        requires
            1 <= n,
        ensures
            r < n,
    ;
}

/// Relies on rand's thread_rng and Rng::gen_range: a uniform draw from the
/// half-open range `0..n`, which panics only on an empty range.
#[verifier::external_body]
fn thread_rand_below(n: u32) -> (r: u32)
    requires
        1 <= n,
    ensures
        r < n,
{
    rand::Rng::gen_range(&mut rand::thread_rng(), 0..n)
}

/// The process-wide source, seeded from the operating system.
pub struct OsRandom {}

impl OsRandom {
    pub fn new() -> OsRandom {
        OsRandom {  }
    }
}

impl RandomSource for OsRandom {
    fn next_below(&mut self, n: u32) -> (r: u32) {
        thread_rand_below(n)
    }
}

/// One step of the splitmix64 generator on the 64-bit state.
pub open spec fn splitmix_next(state: u64) -> u64 {
    let s1 = state.wrapping_add(0x9E3779B97F4A7C15);
    let z0 = s1 ^ (s1 >> 30);
    let z1 = z0.wrapping_mul(0xBF58476D1CE4E5B9);
    let z2 = z1 ^ (z1 >> 27);
    let z3 = z2.wrapping_mul(0x94D049BB133111EB);
    z3 ^ (z3 >> 31)
}

/// A deterministic source: the splitmix64 stream of a fixed seed, reduced to
/// the requested range. Two sources built from the same seed yield the same
/// draws in the same order.
pub struct SeededRandom {
    pub state: u64,
}

impl SeededRandom {
    pub fn from_seed(seed: u64) -> (r: SeededRandom)
        ensures
            r.state == seed,
    {
        SeededRandom { state: seed }
    }
}

impl RandomSource for SeededRandom {
    fn next_below(&mut self, n: u32) -> (r: u32)
        ensures
            final(self).state == splitmix_next(old(self).state),
            r == (splitmix_next(old(self).state) % (n as u64)) as u32,
    {
        let s1 = self.state.wrapping_add(0x9E3779B97F4A7C15);
        let z0 = s1 ^ (s1 >> 30);
        let z1 = z0.wrapping_mul(0xBF58476D1CE4E5B9);
        let z2 = z1 ^ (z1 >> 27);
        let z3 = z2.wrapping_mul(0x94D049BB133111EB);
        let mixed = z3 ^ (z3 >> 31);
        self.state = mixed;
        (mixed % (n as u64)) as u32
    }
}

} // verus!
