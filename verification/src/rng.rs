use vstd::prelude::*;
use vstd::wrapping::u64_specs;

verus! {

/// A deterministic linear-congruential generator used to seed demo data
/// reproducibly. Not a source of secrets.
#[derive(Debug, Clone, Copy, PartialEq, Eq, Structural)]
pub struct MockRng {
    pub state: u64,
}

/// One step of the generator's recurrence, with wrap-around.
pub open spec fn mock_rng_step(s: u64) -> u64 {
    u64_specs::wrapping_add(u64_specs::wrapping_mul(s, 6364136223846793005), 1)
}

impl MockRng {
    pub fn new(seed: u64) -> (r: MockRng)
        ensures
            r.state == seed,
    {
        MockRng { state: seed }
    }

    /// Advance the state and hand out its upper half.
    pub fn next_u32(&mut self) -> (r: u32)
        ensures
            final(self).state == mock_rng_step(old(self).state),
            r == (final(self).state >> 32u64) as u32,
    {
        self.state = self.state.wrapping_mul(6364136223846793005).wrapping_add(1);
        let s = self.state;
        proof {
            assert(forall|x: u64| #[trigger] (x >> 32u64) <= u32::MAX as u64) by (bit_vector);
        }
        (s >> 32) as u32
    }
}

} // verus!
