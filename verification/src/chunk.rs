//! The chunk: a 64x64x64 voxel store together with its double-buffered
//! occupancy masks.
//!
//! The invariant tying the two together: a bit is set in a buffer's
//! `some_mask` exactly where the voxel store holds a value, and in its
//! `liquid_mask` exactly where that value is liquid. Between ticks the two
//! buffers agree; during a tick the front buffer is the stable pre-tick
//! snapshot while the back buffer and the voxel store take the writes.

pub mod double_buffered;
pub mod liquid_tick;
pub mod masks;

use vstd::prelude::*;

use crate::bits::{
    bit_set, lemma_full_word, lemma_pad_bit, lemma_pad_set_bit, lemma_zero_word,
};
use crate::chunk::masks::{lemma_mask_bit_update, word_with, Masks};
use crate::index::{
    border_cell, cell_index, i_2d, i_3d, interior_word, lemma_cell_compose, lemma_cell_decomp,
    spec_bit_of, spec_cell, spec_col_y, spec_col_z, spec_i_2d, spec_i_3d, spec_word_of, AREA, LEN,
    VOL,
};

verus! {

/// The closed set of voxel categories a cell can hold.
#[derive(Debug, Clone, Copy, PartialEq, Eq, Structural, Hash)]
pub enum Voxel {
    Liquid,
    Solid,
}

/// True iff the mask bit for cell `c` is set in the per-column words `m`.
pub open spec fn mask_bit(m: Seq<u64>, c: int) -> bool {
    bit_set(m[spec_word_of(c)], spec_bit_of(c) as u64)
}

/// The mathematical state of a chunk: the voxel store and the four mask
/// planes (front and back, occupancy and liquid).
pub struct GridView {
    pub voxels: Seq<Option<Voxel>>,
    pub fsome: Seq<u64>,
    pub fliq: Seq<u64>,
    pub bsome: Seq<u64>,
    pub bliq: Seq<u64>,
}

impl GridView {
    /// All five planes have the fixed grid dimensions.
    pub open spec fn lens_ok(&self) -> bool {
        &&& self.voxels.len() == VOL
        &&& self.fsome.len() == AREA
        &&& self.fliq.len() == AREA
        &&& self.bsome.len() == AREA
        &&& self.bliq.len() == AREA
    }
}

/// Mask/store consistency: the mask planes `s` (occupancy) and `l` (liquid)
/// record exactly which cells of `v` are occupied and which hold liquid.
pub open spec fn consistent(v: Seq<Option<Voxel>>, s: Seq<u64>, l: Seq<u64>) -> bool {
    forall|c: int|
        #![trigger mask_bit(s, c)]
        #![trigger mask_bit(l, c)]
        #![trigger v[c]]
        0 <= c < VOL ==> {
            &&& mask_bit(s, c) == v[c] is Some
            &&& mask_bit(l, c) == (v[c] == Some(Voxel::Liquid))
        }
}

/// Every border cell is occupied and none of them is liquid, as recorded in
/// the mask planes `s` and `l`.
pub open spec fn border_solid(s: Seq<u64>, l: Seq<u64>) -> bool {
    forall|c: int|
        0 <= c < VOL && border_cell(c) ==> (#[trigger] mask_bit(s, c)) && !mask_bit(l, c)
}

/// The resting state of a chunk, as it stands between ticks: both mask
/// buffers agree and both are consistent with the voxel store.
pub open spec fn chunk_inv(g: GridView) -> bool {
    &&& g.lens_ok()
    &&& g.bsome == g.fsome
    &&& g.bliq == g.fliq
    &&& consistent(g.voxels, g.fsome, g.fliq)
}

/// The number of liquid cells in the voxel store.
pub open spec fn count_liquid(v: Seq<Option<Voxel>>) -> int
    decreases v.len(),
{
    if v.len() == 0 {
        0
    } else {
        count_liquid(v.drop_last()) + if v.last() == Some(Voxel::Liquid) {
            1int
        } else {
            0int
        }
    }
}

/// Replacing one entry of the store changes the liquid count by the
/// difference of the old and new entries.
pub proof fn lemma_count_update(v: Seq<Option<Voxel>>, i: int, x: Option<Voxel>)
    requires
        0 <= i < v.len(),
    ensures
        count_liquid(v.update(i, x)) == count_liquid(v) - (if v[i] == Some(Voxel::Liquid) {
            1int
        } else {
            0int
        }) + (if x == Some(Voxel::Liquid) {
            1int
        } else {
            0int
        }),
    decreases v.len(),
{
    let u = v.update(i, x);
    if i == v.len() - 1 {
        assert(u.drop_last() =~= v.drop_last());
        assert(u.last() == x);
    } else {
        assert(u.drop_last() =~= v.drop_last().update(i, x));
        lemma_count_update(v.drop_last(), i, x);
        assert(u.last() == v.last());
    }
}

/// The chunk: the voxel store plus its double-buffered occupancy masks.
pub struct Chunk {
    pub voxels: Vec<Option<Voxel>>,
    pub masks: Masks,
}

impl Chunk {
    /// Writes one cell: the voxel store entry and the mask bits of both
    /// buffers change together, so the chunk stays consistent.
    #[verifier::loop_isolation(false)]
    pub fn set(&mut self, x: usize, y: usize, z: usize, v: Option<Voxel>)
        requires
            chunk_inv(old(self)@),
            x < LEN,
            y < LEN,
            z < LEN,
        ensures
            chunk_inv(final(self)@),
            final(self)@.voxels == old(self)@.voxels.update(
                spec_i_3d(x as int, y as int, z as int),
                v,
            ),
            forall|c: int|
                0 <= c < VOL ==> mask_bit(final(self)@.fsome, c) == (if c == spec_i_3d(
                    x as int,
                    y as int,
                    z as int,
                ) {
                    v is Some
                } else {
                    mask_bit(old(self)@.fsome, c)
                }),
            forall|c: int|
                0 <= c < VOL ==> mask_bit(final(self)@.fliq, c) == (if c == spec_i_3d(
                    x as int,
                    y as int,
                    z as int,
                ) {
                    v == Some(Voxel::Liquid)
                } else {
                    mask_bit(old(self)@.fliq, c)
                }),
    {
        let ghost g0 = self@;
        let i3 = i_3d(x, y, z);
        proof {
            lemma_cell_compose(spec_i_2d(y as int, z as int), x as int);
            assert(i3 == spec_cell(spec_i_2d(y as int, z as int), x as int));
        }
        self.voxels.set(i3, v);
        self.masks.set(x, y, z, v);
        proof {
            let i2 = spec_i_2d(y as int, z as int);
            let g1 = self@;
            assert forall|c: int| 0 <= c < VOL implies {
                &&& mask_bit(g1.fsome, c) == (if c == i3 {
                    v is Some
                } else {
                    mask_bit(g0.fsome, c)
                })
                &&& mask_bit(g1.fliq, c) == (if c == i3 {
                    v == Some(Voxel::Liquid)
                } else {
                    mask_bit(g0.fliq, c)
                })
            } by {
                lemma_mask_bit_update(g0.fsome, i2, x as u64, v is Some, c);
                lemma_mask_bit_update(g0.fliq, i2, x as u64, v == Some(Voxel::Liquid), c);
                assert(word_with(g0.fsome[i2], x as u64, v is Some) == g1.fsome[i2]);
            }
            assert(g1.bsome == g1.fsome && g1.bliq == g1.fliq);
            assert forall|c: int| 0 <= c < VOL implies {
                &&& (#[trigger] mask_bit(g1.fsome, c)) == g1.voxels[c] is Some
                &&& mask_bit(g1.fliq, c) == (g1.voxels[c] == Some(Voxel::Liquid))
            } by {
                if c != i3 {
                    assert(mask_bit(g0.fsome, c) == g0.voxels[c] is Some);
                }
            }
        }
    }

    /// The category of one cell: the read-only query the mesher and the
    /// raycaster use between ticks.
    pub fn voxel_at(&self, x: usize, y: usize, z: usize) -> (r: Option<Voxel>)
        requires
            self@.lens_ok(),
            x < LEN,
            y < LEN,
            z < LEN,
        ensures
            r == self@.voxels[spec_i_3d(x as int, y as int, z as int)],
    {
        self.voxels[i_3d(x, y, z)]
    }

    /// Overwrites one whole column with `v`, masks and voxels together.
    #[verifier::loop_isolation(false)]
    fn fill_column(&mut self, y: usize, z: usize, v: Option<Voxel>)
        requires
            chunk_inv(old(self)@),
            y < LEN,
            z < LEN,
        ensures
            chunk_inv(final(self)@),
            forall|c: int|
                #![trigger spec_word_of(c)]
                0 <= c < VOL ==> final(self)@.voxels[c] == (if spec_word_of(c) == spec_i_2d(
                    y as int,
                    z as int,
                ) {
                    v
                } else {
                    old(self)@.voxels[c]
                }),
    {
        let ghost g0 = self@;
        let ghost i2s = spec_i_2d(y as int, z as int);
        self.masks.fill_row(y, z, v);
        let i2 = i_2d(y, z);
        let mut x: usize = 0;
        while x < LEN
            invariant
                x <= LEN,
                self@.fsome == g0.fsome.update(i2s, if v is Some {
                    !0u64
                } else {
                    0u64
                }),
                self@.fliq == g0.fliq.update(i2s, if v == Some(Voxel::Liquid) {
                    !0u64
                } else {
                    0u64
                }),
                self@.bsome == self@.fsome,
                self@.bliq == self@.fliq,
                self@.voxels.len() == VOL,
                forall|c: int|
                    0 <= c < VOL ==> self@.voxels[c] == (if spec_word_of(c) == i2s
                        && spec_bit_of(c) < x {
                        v
                    } else {
                        g0.voxels[c]
                    }),
            decreases LEN - x,
        {
            let c3 = cell_index(i2, x);
            self.voxels.set(c3, v);
            proof {
                lemma_cell_compose(i2s, x as int);
                assert forall|c: int| 0 <= c < VOL implies self@.voxels[c] == (if spec_word_of(c)
                    == i2s && spec_bit_of(c) < x + 1 {
                    v
                } else {
                    g0.voxels[c]
                }) by {
                    lemma_cell_decomp(c);
                }
            }
            x = x + 1;
        }
        proof {
            let g1 = self@;
            assert forall|c: int| 0 <= c < VOL implies {
                &&& (#[trigger] mask_bit(g1.fsome, c)) == g1.voxels[c] is Some
                &&& mask_bit(g1.fliq, c) == (g1.voxels[c] == Some(Voxel::Liquid))
            } by {
                lemma_cell_decomp(c);
                let b = spec_bit_of(c) as u64;
                if spec_word_of(c) == i2s {
                    lemma_full_word(b);
                    lemma_zero_word(0u64, b);
                    assert(g1.voxels[c] == v);
                    assert(g1.fsome[i2s] == (if v is Some {
                        !0u64
                    } else {
                        0u64
                    }));
                } else {
                    assert(g1.voxels[c] == g0.voxels[c]);
                    assert(g1.fsome[spec_word_of(c)] == g0.fsome[spec_word_of(c)]);
                    assert(g1.fliq[spec_word_of(c)] == g0.fliq[spec_word_of(c)]);
                    assert(mask_bit(g0.fsome, c) == g0.voxels[c] is Some);
                    assert(mask_bit(g0.fliq, c) == (g0.voxels[c] == Some(Voxel::Liquid)));
                }
            }
        }
    }

    /// Writes only the two border cells (x = 0 and x = 63) of one column,
    /// masks and voxels together.
    #[verifier::loop_isolation(false)]
    fn pad_column(&mut self, y: usize, z: usize, v: Option<Voxel>)
        requires
            chunk_inv(old(self)@),
            y < LEN,
            z < LEN,
        ensures
            chunk_inv(final(self)@),
            forall|c: int|
                #![trigger spec_word_of(c)]
                0 <= c < VOL ==> final(self)@.voxels[c] == (if spec_word_of(c) == spec_i_2d(
                    y as int,
                    z as int,
                ) && (spec_bit_of(c) == 0 || spec_bit_of(c) == 63) {
                    v
                } else {
                    old(self)@.voxels[c]
                }),
    {
        let ghost g0 = self@;
        let ghost i2s = spec_i_2d(y as int, z as int);
        self.masks.set_row_padding(y, z, v);
        let i2 = i_2d(y, z);
        let c0 = cell_index(i2, 0);
        self.voxels.set(c0, v);
        let c63 = cell_index(i2, 63);
        self.voxels.set(c63, v);
        proof {
            lemma_cell_compose(i2s, 0);
            lemma_cell_compose(i2s, 63);
            let g1 = self@;
            assert forall|c: int| 0 <= c < VOL implies {
                &&& (#[trigger] mask_bit(g1.fsome, c)) == g1.voxels[c] is Some
                &&& mask_bit(g1.fliq, c) == (g1.voxels[c] == Some(Voxel::Liquid))
            } by {
                lemma_cell_decomp(c);
                let b = spec_bit_of(c) as u64;
                if spec_word_of(c) == i2s {
                    lemma_pad_set_bit(g0.fsome[i2s], b);
                    lemma_pad_bit(g0.fsome[i2s], b);
                    lemma_pad_set_bit(g0.fliq[i2s], b);
                    lemma_pad_bit(g0.fliq[i2s], b);
                    if spec_bit_of(c) != 0 && spec_bit_of(c) != 63 {
                        assert(mask_bit(g0.fsome, c) == g0.voxels[c] is Some);
                    }
                } else {
                    assert(mask_bit(g0.fsome, c) == g0.voxels[c] is Some);
                }
            }
            assert forall|c: int| 0 <= c < VOL implies g1.voxels[c] == (if spec_word_of(c) == i2s
                && (spec_bit_of(c) == 0 || spec_bit_of(c) == 63) {
                v
            } else {
                g0.voxels[c]
            }) by {
                lemma_cell_decomp(c);
            }
        }
    }

    /// Fills the outermost shell of the grid with `v`: the full border
    /// columns and the two border cells of every interior column. With a
    /// solid `v` this establishes the chunk's solid boundary.
    #[verifier::loop_isolation(false)]
    pub fn fill_padding(&mut self, v: Option<Voxel>)
        requires
            chunk_inv(old(self)@),
        ensures
            chunk_inv(final(self)@),
            forall|c: int|
                #![trigger border_cell(c)]
                0 <= c < VOL ==> final(self)@.voxels[c] == (if border_cell(c) {
                    v
                } else {
                    old(self)@.voxels[c]
                }),
            v is Some && v != Some(Voxel::Liquid) ==> border_solid(
                final(self)@.fsome,
                final(self)@.fliq,
            ),
    {
        let ghost g0 = self@;
        let mut w: usize = 0;
        while w < AREA
            invariant
                w <= AREA,
                chunk_inv(self@),
                forall|c: int|
                    #![trigger spec_word_of(c)]
                    0 <= c < VOL ==> self@.voxels[c] == (if spec_word_of(c) < w && border_cell(c) {
                        v
                    } else {
                        g0.voxels[c]
                    }),
            decreases AREA - w,
        {
            let y = w % 64;
            let z = w / 64;
            proof {
                assert(y == spec_col_y(w as int) && z == spec_col_z(w as int));
                assert(y < 64 && z < 64);
                assert(spec_i_2d(y as int, z as int) == w) by (nonlinear_arith)
                    requires
                        y == w % 64,
                        z == w / 64,
                        w < AREA,
                ;
            }
            let ghost gprev = self@;
            let border_word = y == 0 || y == 63 || z == 0 || z == 63;
            if border_word {
                self.fill_column(y, z, v);
            } else {
                self.pad_column(y, z, v);
            }
            proof {
                assert(border_word == !interior_word(w as int));
                assert forall|c: int| 0 <= c < VOL implies self@.voxels[c] == (if spec_word_of(c)
                    < w + 1 && border_cell(c) {
                    v
                } else {
                    g0.voxels[c]
                }) by {
                    lemma_cell_decomp(c);
                    assert(gprev.voxels[c] == (if spec_word_of(c) < w && border_cell(c) {
                        v
                    } else {
                        g0.voxels[c]
                    }));
                    if spec_word_of(c) == w {
                        assert(border_cell(c) == (spec_bit_of(c) == 0 || spec_bit_of(c) == 63
                            || !interior_word(w as int)));
                    }
                }
            }
            w = w + 1;
        }
        proof {
            if v is Some && v != Some(Voxel::Liquid) {
                let g1 = self@;
                assert forall|c: int| 0 <= c < VOL && border_cell(c) implies (#[trigger] mask_bit(
                    g1.fsome,
                    c,
                )) && !mask_bit(g1.fliq, c) by {
                    assert(g1.voxels[c] == v);
                }
            }
        }
    }
}

impl Default for Chunk {
    /// An empty chunk: no voxels, clear masks, both buffers agreeing.
    #[verifier::loop_isolation(false)]
    fn default() -> (r: Self)
        ensures
            chunk_inv(r@),
            forall|c: int| 0 <= c < VOL ==> r@.voxels[c] is None,
    {
        let mut voxels: Vec<Option<Voxel>> = Vec::new();
        let mut i: usize = 0;
        while i < VOL
            invariant
                i <= VOL,
                voxels@.len() == i,
                forall|c: int| 0 <= c < i ==> voxels@[c] is None,
            decreases VOL - i,
        {
            voxels.push(None);
            i = i + 1;
        }
        let r = Chunk { voxels, masks: Masks::default() };
        proof {
            assert forall|c: int| 0 <= c < VOL implies {
                &&& !(#[trigger] mask_bit(r@.fsome, c))
                &&& !mask_bit(r@.fliq, c)
            } by {
                lemma_cell_decomp(c);
                lemma_zero_word(0u64, spec_bit_of(c) as u64);
            }
        }
        r
    }
}

impl View for Chunk {
    type V = GridView;

    open spec fn view(&self) -> GridView {
        GridView {
            voxels: self.voxels@,
            fsome: self.masks.dblt_masks.front.some_mask@,
            fliq: self.masks.dblt_masks.front.liquid_mask@,
            bsome: self.masks.dblt_masks.back.some_mask@,
            bliq: self.masks.dblt_masks.back.liquid_mask@,
        }
    }
}

} // verus!
