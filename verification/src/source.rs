//! Where the draw samples come from. The pool itself is deterministic once
//! the sample is fixed, so the sampler is injected: the game runs on a real
//! random source, tests on a scripted one.

use vstd::prelude::*;
use rand::Rng;

verus! {

/// A source of draw samples: each call yields a number below the given
/// positive bound.
pub trait CardSource {
    /// The next sample, strictly below `bound`.
    fn next_below(&mut self, bound: u8) -> (r: u8)
        requires
            bound > 0,
        ensures
            r < bound,
    ;
}

/// The process-wide random generator as a card source.
pub struct ThreadRngSource {}

/// Relies on rand::Rng::gen_range over the range `0..bound`: it panics only
/// on an empty range, which `bound > 0` rules out, and returns a value
/// inside the range, hence below `bound`.
#[verifier::external_body]
fn random_below(bound: u8) -> (r: u8)
    requires
        bound > 0,
    ensures
        r < bound,
{
    rand::thread_rng().gen_range(0..bound)
}

impl CardSource for ThreadRngSource {
    fn next_below(&mut self, bound: u8) -> (r: u8) {
        random_below(bound)
    }
}

/// A scripted card source for deterministic play: it hands out the listed
/// samples in order, replacing one that is out of range — or anything past
/// the end of the list — by zero.
pub struct ScriptedSource {
    pub samples: Vec<u8>,
    pub position: usize,
}

impl ScriptedSource {
    /// A source that will hand out the given samples in order.
    pub fn new(samples: Vec<u8>) -> (r: ScriptedSource)
        ensures
            r.samples == samples,
            r.position == 0,
    {
        ScriptedSource { samples, position: 0 }
    }
}

impl CardSource for ScriptedSource {
    fn next_below(&mut self, bound: u8) -> (r: u8)
        ensures
            final(self).samples == old(self).samples,
            final(self).position == if old(self).position < old(self).samples@.len() {
                old(self).position + 1
            } else {
                old(self).position as int
            },
            r == if old(self).position < old(self).samples@.len() && old(self).samples@[old(
                self,
            ).position as int] < bound {
                old(self).samples@[old(self).position as int]
            } else {
                0u8
            },
    {
        let mut v: u8 = 0;
        if self.position < self.samples.len() {
            v = self.samples[self.position];
            self.position = self.position + 1;
        }
        if v < bound {
            v
        } else {
            0
        }
    }
}

} // verus!
