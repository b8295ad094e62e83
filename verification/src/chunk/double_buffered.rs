//! The double buffer holding the two copies of the occupancy masks.

use vstd::prelude::*;

use crate::chunk::masks::LiquidTickMasks;

verus! {

/// Two copies of a value: the front copy is the stable state readers see,
/// the back copy is the write target of the running tick.
pub struct DoubleBuffered<T> {
    pub front: T,
    pub back: T,
}

/// Copies the words of `src` into a fresh vector.
fn copy_words(src: &Vec<u64>) -> (r: Vec<u64>)
    ensures
        r@ == src@,
{
    let mut r: Vec<u64> = Vec::new();
    let mut i: usize = 0;
    while i < src.len()
        invariant
            i <= src.len(),
            r@ == src@.subrange(0, i as int),
        decreases src.len() - i,
    {
        r.push(src[i]);
        i = i + 1;
    }
    assert(r@ =~= src@);
    r
}

impl DoubleBuffered<LiquidTickMasks> {
    /// At the end of a tick the back buffer holds the new authoritative
    /// state; this publishes it by overwriting the front buffer with it.
    pub fn copy_back_to_front(&mut self)
        ensures
            final(self).back == old(self).back,
            final(self).front.some_mask@ == old(self).back.some_mask@,
            final(self).front.liquid_mask@ == old(self).back.liquid_mask@,
    {
        let some = copy_words(&self.back.some_mask);
        let liquid = copy_words(&self.back.liquid_mask);
        self.front = LiquidTickMasks { some_mask: some, liquid_mask: liquid };
    }
}

} // verus!
