//! Source of uniform random numbers handed to the path network growth.
use vstd::prelude::*;

verus! {

/// Owns the pseudo-random generator that the network growth draws from. The
/// generator is passed explicitly rather than kept in global state.
pub struct RandomF64<R> {
    rng: R,
}

impl<R> RandomF64<R> {
    /// The generator held.
    pub closed spec fn generator(&self) -> R {
        self.rng
    }

    /// Wraps a generator.
    pub fn new(rng: R) -> (r: RandomF64<R>)
        ensures
            r.generator() == rng,
    {
        RandomF64 { rng }
    }

    /// Lends the generator out for a draw.
    pub fn generator_mut(&mut self) -> (r: &mut R)
        ensures
            *r == old(self).generator(),
            final(self).generator() == *final(r),
    {
        &mut self.rng
    }
}

} // verus!
