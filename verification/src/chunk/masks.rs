//! The per-column occupancy masks and their bulk update operations.

use vstd::prelude::*;

pub use crate::bits::PAD_MASK;
use crate::bits::{lemma_clear_bit, lemma_set_bit};
use crate::chunk::double_buffered::DoubleBuffered;
use crate::chunk::{mask_bit, Voxel};
use crate::index::{
    lemma_cell_compose, lemma_cell_decomp, spec_bit_of, spec_cell, spec_i_2d, spec_word_of, AREA,
    LEN,
};

verus! {

/// One buffer of masks: for every (y, z) column a word of the occupied
/// cells and a word of the liquid cells along x.
pub struct LiquidTickMasks {
    pub some_mask: Vec<u64>,
    pub liquid_mask: Vec<u64>,
}

impl LiquidTickMasks {
    /// Both planes have one word per column.
    pub open spec fn wf(&self) -> bool {
        &&& self.some_mask@.len() == AREA
        &&& self.liquid_mask@.len() == AREA
    }
}

/// A vector of one all-zero word per column.
fn zero_words() -> (r: Vec<u64>)
    ensures
        r@.len() == AREA,
        forall|i: int| 0 <= i < AREA ==> r@[i] == 0u64,
{
    let mut r: Vec<u64> = Vec::new();
    let mut i: usize = 0;
    while i < AREA
        invariant
            i <= AREA,
            r@.len() == i,
            forall|j: int| 0 <= j < i ==> r@[j] == 0u64,
        decreases AREA - i,
    {
        r.push(0u64);
        i = i + 1;
    }
    r
}

impl Default for LiquidTickMasks {
    /// An empty buffer: no cell occupied, no cell liquid.
    fn default() -> (r: Self)
        ensures
            r.wf(),
            forall|i: int| 0 <= i < AREA ==> r.some_mask@[i] == 0u64,
            forall|i: int| 0 <= i < AREA ==> r.liquid_mask@[i] == 0u64,
    {
        LiquidTickMasks { some_mask: zero_words(), liquid_mask: zero_words() }
    }
}

/// The double-buffered masks of a chunk.
pub struct Masks {
    pub dblt_masks: DoubleBuffered<LiquidTickMasks>,
}

/// The word `w` with bit `x` set or cleared according to `on`.
pub open spec fn word_with(w: u64, x: u64, on: bool) -> u64 {
    if on {
        w | (1u64 << x)
    } else {
        w & !(1u64 << x)
    }
}

/// Updating one bit of one column word changes exactly one cell of the
/// mask plane.
pub proof fn lemma_mask_bit_update(m: Seq<u64>, i_2d: int, x: u64, on: bool, c: int)
    requires
        m.len() == AREA,
        0 <= i_2d < AREA,
        x < 64,
        0 <= c < crate::index::VOL,
    ensures
        mask_bit(m.update(i_2d, word_with(m[i_2d], x, on)), c) == if c == spec_cell(
            i_2d,
            x as int,
        ) {
            on
        } else {
            mask_bit(m, c)
        },
{
    lemma_cell_decomp(c);
    lemma_cell_compose(i_2d, x as int);
    let w = spec_word_of(c);
    let b = spec_bit_of(c) as u64;
    if on {
        lemma_set_bit(m[i_2d], x, b);
    } else {
        lemma_clear_bit(m[i_2d], x, b);
    }
}

impl Masks {
    /// Both buffers are fully sized.
    pub open spec fn wf(&self) -> bool {
        &&& self.dblt_masks.front.wf()
        &&& self.dblt_masks.back.wf()
    }

    /// The front buffer's occupancy words, the plane the mesher and the
    /// raycaster read between ticks.
    pub fn some_mask(&self) -> (r: &Vec<u64>)
        ensures
            r@ == self.dblt_masks.front.some_mask@,
    {
        &self.dblt_masks.front.some_mask
    }

    /// Writes the mask bits of the single cell (x, y, z) in both buffers:
    /// occupied iff `v` is some value, liquid iff that value is liquid.
    pub fn set(&mut self, x: usize, y: usize, z: usize, v: Option<Voxel>)
        requires
            old(self).wf(),
            x < LEN,
            y < LEN,
            z < LEN,
        ensures
            final(self).wf(),
            final(self).dblt_masks.front.some_mask@ == old(self).dblt_masks.front.some_mask@
                .update(spec_i_2d(y as int, z as int), word_with(old(self).dblt_masks.front.some_mask@[spec_i_2d(y as int, z as int)], x as u64, v is Some)),
            final(self).dblt_masks.front.liquid_mask@ == old(self).dblt_masks.front.liquid_mask@
                .update(spec_i_2d(y as int, z as int), word_with(old(self).dblt_masks.front.liquid_mask@[spec_i_2d(y as int, z as int)], x as u64, v == Some(Voxel::Liquid))),
            final(self).dblt_masks.back.some_mask@ == old(self).dblt_masks.back.some_mask@
                .update(spec_i_2d(y as int, z as int), word_with(old(self).dblt_masks.back.some_mask@[spec_i_2d(y as int, z as int)], x as u64, v is Some)),
            final(self).dblt_masks.back.liquid_mask@ == old(self).dblt_masks.back.liquid_mask@
                .update(spec_i_2d(y as int, z as int), word_with(old(self).dblt_masks.back.liquid_mask@[spec_i_2d(y as int, z as int)], x as u64, v == Some(Voxel::Liquid))),
    {
        let i = crate::index::i_2d(y, z);
        let some_on = v.is_some();
        let liquid_on = matches!(v, Some(Voxel::Liquid));
        let fs = self.dblt_masks.front.some_mask[i];
        self.dblt_masks.front.some_mask.set(i, set_bit_to(fs, x, some_on));
        let fl = self.dblt_masks.front.liquid_mask[i];
        self.dblt_masks.front.liquid_mask.set(i, set_bit_to(fl, x, liquid_on));
        let bs = self.dblt_masks.back.some_mask[i];
        self.dblt_masks.back.some_mask.set(i, set_bit_to(bs, x, some_on));
        let bl = self.dblt_masks.back.liquid_mask[i];
        self.dblt_masks.back.liquid_mask.set(i, set_bit_to(bl, x, liquid_on));
    }

    /// Overwrites the whole column (y, z) in both buffers: every cell
    /// occupied or empty, every cell liquid or not, according to `v`.
    pub fn fill_row(&mut self, y: usize, z: usize, v: Option<Voxel>)
        requires
            old(self).wf(),
            y < LEN,
            z < LEN,
        ensures
            final(self).wf(),
            final(self).dblt_masks.front.some_mask@ == old(self).dblt_masks.front.some_mask@
                .update(spec_i_2d(y as int, z as int), if v is Some { !0u64 } else { 0u64 }),
            final(self).dblt_masks.front.liquid_mask@ == old(self).dblt_masks.front.liquid_mask@
                .update(spec_i_2d(y as int, z as int), if v == Some(Voxel::Liquid) { !0u64 } else { 0u64 }),
            final(self).dblt_masks.back.some_mask@ == old(self).dblt_masks.back.some_mask@
                .update(spec_i_2d(y as int, z as int), if v is Some { !0u64 } else { 0u64 }),
            final(self).dblt_masks.back.liquid_mask@ == old(self).dblt_masks.back.liquid_mask@
                .update(spec_i_2d(y as int, z as int), if v == Some(Voxel::Liquid) { !0u64 } else { 0u64 }),
    {
        let i = crate::index::i_2d(y, z);
        let some_word: u64 = if v.is_some() { !0u64 } else { 0u64 };
        let liquid_word: u64 = if matches!(v, Some(Voxel::Liquid)) { !0u64 } else { 0u64 };
        self.dblt_masks.front.some_mask.set(i, some_word);
        self.dblt_masks.front.liquid_mask.set(i, liquid_word);
        self.dblt_masks.back.some_mask.set(i, some_word);
        self.dblt_masks.back.liquid_mask.set(i, liquid_word);
    }

    /// Writes only the two border bits (x = 0 and x = 63) of the column
    /// (y, z) in both buffers, leaving the interior bits alone.
    pub fn set_row_padding(&mut self, y: usize, z: usize, v: Option<Voxel>)
        requires
            old(self).wf(),
            y < LEN,
            z < LEN,
        ensures
            final(self).wf(),
            final(self).dblt_masks.front.some_mask@ == old(self).dblt_masks.front.some_mask@
                .update(spec_i_2d(y as int, z as int), pad_with(old(self).dblt_masks.front.some_mask@[spec_i_2d(y as int, z as int)], v is Some)),
            final(self).dblt_masks.front.liquid_mask@ == old(self).dblt_masks.front.liquid_mask@
                .update(spec_i_2d(y as int, z as int), pad_with(old(self).dblt_masks.front.liquid_mask@[spec_i_2d(y as int, z as int)], v == Some(Voxel::Liquid))),
            final(self).dblt_masks.back.some_mask@ == old(self).dblt_masks.back.some_mask@
                .update(spec_i_2d(y as int, z as int), pad_with(old(self).dblt_masks.back.some_mask@[spec_i_2d(y as int, z as int)], v is Some)),
            final(self).dblt_masks.back.liquid_mask@ == old(self).dblt_masks.back.liquid_mask@
                .update(spec_i_2d(y as int, z as int), pad_with(old(self).dblt_masks.back.liquid_mask@[spec_i_2d(y as int, z as int)], v == Some(Voxel::Liquid))),
    {
        let i = crate::index::i_2d(y, z);
        let some_on = v.is_some();
        let liquid_on = matches!(v, Some(Voxel::Liquid));
        let fs = self.dblt_masks.front.some_mask[i];
        self.dblt_masks.front.some_mask.set(i, pad_bits_to(fs, some_on));
        let fl = self.dblt_masks.front.liquid_mask[i];
        self.dblt_masks.front.liquid_mask.set(i, pad_bits_to(fl, liquid_on));
        let bs = self.dblt_masks.back.some_mask[i];
        self.dblt_masks.back.some_mask.set(i, pad_bits_to(bs, some_on));
        let bl = self.dblt_masks.back.liquid_mask[i];
        self.dblt_masks.back.liquid_mask.set(i, pad_bits_to(bl, liquid_on));
    }

    /// Whether the cell (x, y, z) is occupied in the front buffer.
    pub fn is_some(&self, x: usize, y: usize, z: usize) -> (r: bool)
        requires
            self.wf(),
            x < LEN,
            y < LEN,
            z < LEN,
        ensures
            r == mask_bit(
                self.dblt_masks.front.some_mask@,
                spec_cell(spec_i_2d(y as int, z as int), x as int),
            ),
    {
        let i = crate::index::i_2d(y, z);
        proof {
            lemma_cell_compose(i as int, x as int);
        }
        self.dblt_masks.front.some_mask[i] & (1u64 << (x as u64)) != 0
    }
}

impl Default for Masks {
    /// Empty masks in both buffers.
    fn default() -> (r: Self)
        ensures
            r.wf(),
            forall|i: int| 0 <= i < AREA ==> r.dblt_masks.front.some_mask@[i] == 0u64,
            forall|i: int| 0 <= i < AREA ==> r.dblt_masks.front.liquid_mask@[i] == 0u64,
            r.dblt_masks.back.some_mask@ == r.dblt_masks.front.some_mask@,
            r.dblt_masks.back.liquid_mask@ == r.dblt_masks.front.liquid_mask@,
    {
        let front = LiquidTickMasks::default();
        let back = LiquidTickMasks::default();
        let r = Masks { dblt_masks: DoubleBuffered { front, back } };
        proof {
            assert(r.dblt_masks.back.some_mask@ =~= r.dblt_masks.front.some_mask@);
            assert(r.dblt_masks.back.liquid_mask@ =~= r.dblt_masks.front.liquid_mask@);
        }
        r
    }
}

/// The word `w` with its two border bits both set (`on`) or both cleared.
pub open spec fn pad_with(w: u64, on: bool) -> u64 {
    if on {
        w | PAD_MASK
    } else {
        w & !PAD_MASK
    }
}

/// Sets or clears one bit of a word.
fn set_bit_to(w: u64, x: usize, on: bool) -> (r: u64)
    requires
        x < 64,
    ensures
        r == word_with(w, x as u64, on),
{
    if on {
        w | (1u64 << (x as u64))
    } else {
        w & !(1u64 << (x as u64))
    }
}

/// Sets or clears the two border bits of a word.
fn pad_bits_to(w: u64, on: bool) -> (r: u64)
    ensures
        r == pad_with(w, on),
{
    if on {
        w | PAD_MASK
    } else {
        w & !PAD_MASK
    }
}

} // verus!
