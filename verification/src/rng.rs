//! The worker's pseudo random number generator (a xorshift), and the
//! input mutator built on it.

use vstd::prelude::*;

verus! {

/// The xorshift step of the generator.
pub open spec fn spec_rng_next(s: u64) -> u64 {
    let a = s ^ (s << 13);
    let b = a ^ (a >> 17);
    b ^ (b << 43)
}

/// A splittable xorshift pseudo random number generator.
pub struct Rng(pub u64);

impl Rng {
    /// Create a new random number generator from a seed (the host draws
    /// the seed, typically from its cycle counter).
    pub fn new(seed: u64) -> (r: Rng)
        ensures
            r.0 == 0x8644d6eb17b7ab1a ^ seed,
    {
        Rng(0x8644d6eb17b7ab1a ^ seed)
    }

    /// Generate a random number: the current state, advancing the state by
    /// one xorshift round.
    pub fn rand(&mut self) -> (r: usize)
        ensures
            r == old(self).0 as usize,
            final(self).0 == spec_rng_next(old(self).0),
    {
        let val = self.0;
        let a = self.0 ^ (self.0 << 13);
        let b = a ^ (a >> 17);
        self.0 = b ^ (b << 43);
        val as usize
    }
}

/// Corrupt up to 127 bytes of the input at generator-chosen positions with
/// generator-chosen values; the length never changes, and an empty input
/// stays empty.
pub fn mutate_input(input: &mut Vec<u8>, rng: &mut Rng)
    ensures
        final(input)@.len() == old(input)@.len(),
{
    if input.len() > 0 {
        let rounds = rng.rand() % 128;
        let mut i: usize = 0;
        while i < rounds
            invariant
                input@.len() == old(input)@.len(),
                input@.len() > 0,
            decreases rounds - i,
        {
            let sel = rng.rand() % input.len();
            let val = (rng.rand() % 256) as u8;
            input[sel] = val;
            i += 1;
        }
    }
}

} // verus!
