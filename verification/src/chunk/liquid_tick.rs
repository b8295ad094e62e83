//! The per-tick liquid diffusion engine.
//!
//! Each tick walks every interior column of the grid in a fixed order,
//! reads the pre-tick liquid bits from the front mask buffer, and tries the
//! moves of the catalog tier by tier: the unconditional fall first, then
//! the grouped tiers on four pseudorandom bit groups derived from the tick
//! counter. Successful moves commit into the back buffer and the voxel
//! store; collisions are arbitrated with a deterministic priority hash.
//! The engine is verified to compute exactly the state the spec-level
//! mirror in [`model`] describes.

pub mod action;
pub mod hash;
pub mod laws;
pub mod lemmas;
pub mod model;

use vstd::prelude::*;

use crate::bits::PAD_MASK;
use crate::chunk::liquid_tick::action::{
    action_at, delta_ok, down_action, lemma_catalog_ok, prereq_ok, spec_down_delta, Action, PreReq,
};
use crate::chunk::liquid_tick::hash::hash_cell;
use crate::chunk::liquid_tick::laws::{lemma_moves_upto, lemma_tick_effect, lemma_tick_start};
use crate::chunk::liquid_tick::lemmas::{
    lemma_apply_fail, lemma_apply_success, lemma_commit_upto, lemma_dst_word, lemma_elig_words,
    lemma_fail_after_commit, lemma_move_cells, lemma_prereq_word, lemma_resolve_upto,
    lemma_row_upto, lemma_row_upto_zero, lemma_rows_upto, lemma_scan_word, lemma_try_move,
    lemma_try_move_zero, row_fresh,
};
use crate::chunk::liquid_tick::model::{
    apply_fail, apply_success, commit_upto, front_of, group_live, group_mask, inv_shift,
    moves_upto, prereq_mask, prereq_mask_upto, resolve_upto, row_upto, rows_upto, scan_len,
    scan_word, spec_tick, spec_tick_prov, spec_tick_row, spec_try_move, state_of, tick_inv,
    FrontMasks, TickState,
};
use crate::chunk::{border_solid, chunk_inv, consistent, count_liquid, Chunk, Voxel};
use crate::index::{
    cell_index, i_2d, interior_word, lemma_col_compose, spec_i_2d, x_and_i_2d, AREA, VOL,
};

verus! {

/// The front planes of a chunk as the engine reads them mid-tick.
pub open spec fn cur_front(c: Chunk) -> FrontMasks {
    FrontMasks { fsome: c@.fsome, fliq: c@.fliq }
}

/// The write state of a chunk mid-tick, together with the tick's
/// provenance map.
pub open spec fn cur_state(c: Chunk, prov: Seq<usize>) -> TickState {
    TickState { voxels: c@.voxels, bsome: c@.bsome, bliq: c@.bliq, prov }
}

/// Aligns a neighbor column's word with the moving column.
fn inv_shift_word(w: u64, r: isize) -> (out: u64)
    requires
        -63 <= r <= 63,
    ensures
        out == inv_shift(w, r as int),
{
    if r >= 0 {
        w >> (r as u64)
    } else {
        w << ((-r) as u64)
    }
}

/// A column index offset by a signed delta.
fn offset_word(i: usize, off: isize) -> (r: usize)
    requires
        i < AREA,
        -4096 <= off <= 4096,
        0 <= i + off < AREA,
    ensures
        r == i + off,
{
    if off >= 0 {
        i + (off as usize)
    } else {
        i - ((-off) as usize)
    }
}

/// A bit position offset by a signed in-column shift.
fn offset_bit(x: usize, dx: isize) -> (r: usize)
    requires
        x < 64,
        -1 <= dx <= 1,
        0 <= x + dx < 64,
    ensures
        r == x + dx,
{
    if dx >= 0 {
        x + (dx as usize)
    } else {
        x - ((-dx) as usize)
    }
}

/// One of the four pseudorandom groups cut out of the two hash words.
fn group_mask_word(xm: u64, pm: u64, g: usize) -> (r: u64)
    requires
        g < 4,
    ensures
        r == (if g == 0 {
            xm & pm
        } else if g == 1 {
            xm & !pm
        } else if g == 2 {
            !xm & pm
        } else {
            !xm & !pm
        }),
{
    if g == 0 {
        xm & pm
    } else if g == 1 {
        xm & !pm
    } else if g == 2 {
        !xm & pm
    } else {
        !xm & !pm
    }
}

/// A fresh provenance map: no destination claimed.
fn make_prov() -> (r: Vec<usize>)
    ensures
        r@ == Seq::new(VOL as nat, |i: int| VOL),
{
    let mut r: Vec<usize> = Vec::new();
    let mut i: usize = 0;
    while i < VOL
        invariant
            i <= VOL,
            r@.len() == i,
            forall|j: int| 0 <= j < i ==> r@[j] == VOL,
        decreases VOL - i,
    {
        r.push(VOL);
        i = i + 1;
    }
    proof {
        assert(r@ =~= Seq::new(VOL as nat, |i: int| VOL));
    }
    r
}

impl Chunk {
    /// One move attempt on a candidate bit set of one column: computes the
    /// prerequisite and eligibility masks against the front buffer, commits
    /// the uncontested moves, arbitrates the contested ones, and returns
    /// the bits that moved.
    #[verifier::loop_isolation(false)]
    fn try_move_row(
        &mut self,
        prov: &mut Vec<usize>,
        group: u64,
        src_i2d: usize,
        tick: u64,
        act: &Action,
    ) -> (moved: u64)
        requires
            tick_inv(cur_front(*old(self)), cur_state(*old(self), old(prov)@)),
            interior_word(src_i2d as int),
            delta_ok(act.delta),
            forall|k: int| 0 <= k < act.prereqs@.len() ==> prereq_ok(#[trigger] act.prereqs@[k]),
            group_live(
                cur_front(*old(self)),
                cur_state(*old(self), old(prov)@),
                group,
                src_i2d as int,
            ),
        ensures
            ({
                let f = cur_front(*old(self));
                let s = cur_state(*old(self), old(prov)@);
                let r = spec_try_move(f, s, group, src_i2d as int, tick, act.delta, act.prereqs@);
                &&& cur_front(*final(self)) == f
                &&& cur_state(*final(self), final(prov)@) == r.0
                &&& moved == r.1
            }),
    {
        let ghost f = cur_front(*self);
        let ghost s_in = cur_state(*self, prov@);
        let d = act.delta;
        let src = src_i2d;

        // the prerequisite mask: a bit survives where every prerequisite
        // of the move holds in the front buffer
        let mut pm_mask: u64 = !0u64;
        let mut pi: usize = 0;
        while pi < act.prereqs.len()
            invariant
                pi <= act.prereqs.len(),
                pm_mask == prereq_mask_upto(f, src as int, act.prereqs@, pi as int),
            decreases act.prereqs.len() - pi,
        {
            let p = act.prereqs[pi];
            proof {
                lemma_prereq_word(src as int, p);
            }
            let pr = p.delta.x_and_i_2d();
            let widx = offset_word(src, pr.1);
            let m = inv_shift_word(self.masks.dblt_masks.front.some_mask[widx], pr.0);
            pm_mask = if p.not {
                pm_mask & !m
            } else {
                pm_mask & m
            };
            pi = pi + 1;
        }
        assert(pm_mask == prereq_mask(f, src as int, act.prereqs@));

        let dxy = d.x_and_i_2d();
        let d_x = dxy.0;
        proof {
            lemma_dst_word(src as int, d);
        }
        let dw = offset_word(src, dxy.1);

        // eligibility: candidates whose prerequisites hold, whose
        // destination is free in the front buffer, and — for a direct
        // commit — still unclaimed in the back buffer
        let tryw = group & pm_mask & !inv_shift_word(
            self.masks.dblt_masks.front.some_mask[dw],
            d_x,
        );
        let succ = tryw & !inv_shift_word(self.masks.dblt_masks.back.some_mask[dw], d_x);
        let fail = tryw & !succ;
        proof {
            lemma_elig_words(f, s_in, group, src as int, d, act.prereqs@);
        }

        // commit the uncontested moves, lowest bit first
        let mut x: usize = 0;
        while x < 64
            invariant
                x <= 64,
                cur_front(*self) == f,
                cur_state(*self, prov@) == commit_upto(s_in, succ, src as int, d, x as int),
            decreases 64 - x,
        {
            proof {
                lemma_commit_upto(f, s_in, succ, src as int, d, x as int);
            }
            if succ & (1u64 << (x as u64)) != 0 {
                let ghost s_cur = cur_state(*self, prov@);
                proof {
                    assert(crate::bits::bit_set(succ, x as u64));
                    lemma_move_cells(src as int, x as int, d);
                    lemma_apply_success(f, s_cur, src as int, x as int, d);
                }
                let dstx = offset_bit(x, d_x);
                let src3 = cell_index(src, x);
                let dst3 = cell_index(dw, dstx);
                let w1 = self.masks.dblt_masks.back.some_mask[dw];
                self.masks.dblt_masks.back.some_mask.set(dw, w1 | (1u64 << (dstx as u64)));
                let w2 = self.masks.dblt_masks.back.liquid_mask[dw];
                self.masks.dblt_masks.back.liquid_mask.set(dw, w2 | (1u64 << (dstx as u64)));
                let w3 = self.masks.dblt_masks.back.some_mask[src];
                self.masks.dblt_masks.back.some_mask.set(src, w3 & !(1u64 << (x as u64)));
                let w4 = self.masks.dblt_masks.back.liquid_mask[src];
                self.masks.dblt_masks.back.liquid_mask.set(src, w4 & !(1u64 << (x as u64)));
                let v = self.voxels[src3];
                self.voxels.set(dst3, v);
                self.voxels.set(src3, None);
                prov.set(dst3, src3);
                proof {
                    assert(cur_state(*self, prov@) == apply_success(s_cur, src as int, x as int, d));
                }
            }
            x = x + 1;
        }
        let ghost s1 = commit_upto(s_in, succ, src as int, d, 64);
        proof {
            lemma_commit_upto(f, s_in, succ, src as int, d, 64);
            lemma_fail_after_commit(f, s_in, succ, fail, src as int, d);
            crate::bits::lemma_zero_word(succ, 0);
        }

        // arbitrate the contested moves, lowest bit first
        let mut moved: u64 = succ;
        let mut xf: usize = 0;
        while xf < 64
            invariant
                xf <= 64,
                cur_front(*self) == f,
                cur_state(*self, prov@) == resolve_upto(s1, fail, src as int, d, tick, xf as int).0,
                moved == succ | resolve_upto(s1, fail, src as int, d, tick, xf as int).1,
            decreases 64 - xf,
        {
            proof {
                lemma_resolve_upto(f, s1, fail, src as int, d, tick, xf as int);
            }
            if fail & (1u64 << (xf as u64)) != 0 {
                let ghost s_cur = cur_state(*self, prov@);
                let ghost m_cur = resolve_upto(s1, fail, src as int, d, tick, xf as int).1;
                proof {
                    assert(crate::bits::bit_set(fail, xf as u64));
                    lemma_move_cells(src as int, xf as int, d);
                    lemma_apply_fail(f, s_cur, src as int, xf as int, d, tick);
                }
                let src3 = cell_index(src, xf);
                let dstx = offset_bit(xf, d_x);
                let dst3 = cell_index(dw, dstx);
                let other = prov[dst3];
                if other < VOL {
                    let p = hash_cell(tick, src3 as u64);
                    let po = hash_cell(tick, other as u64);
                    if p >= po {
                        // the contender wins: the displaced claimant's unit
                        // comes to rest on the contender's source cell
                        let ob = x_and_i_2d(other);
                        let w1 = self.masks.dblt_masks.back.liquid_mask[ob.1];
                        self.masks.dblt_masks.back.liquid_mask.set(
                            ob.1,
                            w1 | (1u64 << (ob.0 as u64)),
                        );
                        let w2 = self.masks.dblt_masks.back.some_mask[ob.1];
                        self.masks.dblt_masks.back.some_mask.set(
                            ob.1,
                            w2 | (1u64 << (ob.0 as u64)),
                        );
                        let w3 = self.masks.dblt_masks.back.liquid_mask[src];
                        self.masks.dblt_masks.back.liquid_mask.set(
                            src,
                            w3 & !(1u64 << (xf as u64)),
                        );
                        let w4 = self.masks.dblt_masks.back.some_mask[src];
                        self.masks.dblt_masks.back.some_mask.set(src, w4 & !(1u64 << (xf as u64)));
                        let v = self.voxels[src3];
                        self.voxels.set(other, v);
                        self.voxels.set(src3, None);
                        prov.set(dst3, src3);
                        moved = moved | (1u64 << (xf as u64));
                        proof {
                            assert(cur_state(*self, prov@) == apply_fail(
                                s_cur,
                                src as int,
                                xf as int,
                                d,
                                tick,
                            ).0);
                            crate::bits::lemma_or_assoc(succ, m_cur, 1u64 << (xf as u64));
                        }
                    }
                }
            }
            xf = xf + 1;
        }
        moved
    }

    /// One row of the tick: the straight fall on the whole remaining bit
    /// set, then the 48 grouped sub-passes.
    #[verifier::loop_isolation(false)]
    fn tick_row(&mut self, prov: &mut Vec<usize>, y: usize, z: usize, tick: u64)
        requires
            tick_inv(cur_front(*old(self)), cur_state(*old(self), old(prov)@)),
            1 <= y <= 62,
            1 <= z <= 62,
            row_fresh(
                cur_front(*old(self)),
                cur_state(*old(self), old(prov)@),
                spec_i_2d(y as int, z as int),
            ),
        ensures
            ({
                let f = cur_front(*old(self));
                let s = cur_state(*old(self), old(prov)@);
                &&& cur_front(*final(self)) == f
                &&& cur_state(*final(self), final(prov)@) == spec_tick_row(
                    f,
                    s,
                    spec_i_2d(y as int, z as int),
                    tick,
                )
            }),
    {
        let ghost f = cur_front(*self);
        let ghost s0 = cur_state(*self, prov@);
        let i2 = i_2d(y, z);
        proof {
            lemma_col_compose(y as int, z as int);
            assert(interior_word(i2 as int));
        }
        let liquid0 = self.masks.dblt_masks.front.liquid_mask[i2] & !PAD_MASK;
        if liquid0 == 0 {
            return ;
        }
        proof {
            assert forall|xb: u64| xb < 64 && #[trigger] crate::bits::bit_set(
                liquid0,
                xb,
            ) implies {
                &&& 1 <= xb <= 62
                &&& crate::bits::bit_set(f.fliq[i2 as int], xb)
                &&& crate::bits::bit_set(s0.bliq[i2 as int], xb)
            } by {
                crate::bits::lemma_pad_bit(f.fliq[i2 as int], xb);
            }
            assert(group_live(f, s0, liquid0, i2 as int));
            assert(delta_ok(spec_down_delta()));
        }
        let down = down_action();
        let moved0 = self.try_move_row(prov, liquid0, i2, tick, &down);
        let mut liquid = liquid0 & !moved0;
        let ghost r1 = spec_try_move(
            f,
            s0,
            liquid0,
            i2 as int,
            tick,
            spec_down_delta(),
            Seq::<PreReq>::empty(),
        );
        let ghost sd = r1.0;
        proof {
            assert(down.prereqs@ == Seq::<PreReq>::empty());
            assert(cur_state(*self, prov@) == sd);
            lemma_try_move(f, s0, liquid0, i2 as int, tick, spec_down_delta(), Seq::<
                PreReq,
            >::empty());
            assert forall|xb: u64| xb < 64 && #[trigger] crate::bits::bit_set(
                liquid,
                xb,
            ) implies {
                &&& 1 <= xb <= 62
                &&& crate::bits::bit_set(f.fliq[i2 as int], xb)
                &&& crate::bits::bit_set(sd.bliq[i2 as int], xb)
            } by {
                crate::bits::lemma_and_bit(liquid0, !r1.1, xb);
                crate::bits::lemma_not_bit(r1.1, xb);
                assert(crate::bits::bit_set(s0.bliq[i2 as int], xb));
            }
            assert(group_live(f, sd, liquid, i2 as int));
        }
        if liquid == 0 {
            proof {
                lemma_row_upto_zero(f, sd, i2 as int, tick, 48);
            }
            return ;
        }

        // the pseudorandom grouping of this column for this tick
        let xm = hash_cell(tick, i2 as u64);
        let pmh = hash_cell(!tick, i2 as u64);

        let mut t: usize = 0;
        while t < 3
            invariant
                t <= 3,
                cur_front(*self) == f,
                ({
                    let r = row_upto(f, sd, liquid0 & !r1.1, i2 as int, tick, (t * 16) as int);
                    &&& cur_state(*self, prov@) == r.0
                    &&& liquid == r.1
                }),
            decreases 3 - t,
        {
            let mut i: usize = 0;
            while i < 4
                invariant
                    i <= 4,
                    t < 3,
                    cur_front(*self) == f,
                    ({
                        let r = row_upto(
                            f,
                            sd,
                            liquid0 & !r1.1,
                            i2 as int,
                            tick,
                            (t * 16 + i * 4) as int,
                        );
                        &&& cur_state(*self, prov@) == r.0
                        &&& liquid == r.1
                    }),
                decreases 4 - i,
            {
                let mut j: usize = 0;
                while j < 4
                    invariant
                        j <= 4,
                        i < 4,
                        t < 3,
                        cur_front(*self) == f,
                        ({
                            let r = row_upto(
                                f,
                                sd,
                                liquid0 & !r1.1,
                                i2 as int,
                                tick,
                                (t * 16 + i * 4 + j) as int,
                            );
                            &&& cur_state(*self, prov@) == r.0
                            &&& liquid == r.1
                        }),
                    decreases 4 - j,
                {
                    let ghost k = (t * 16 + i * 4 + j) as int;
                    let ghost rk = row_upto(f, sd, liquid0 & !r1.1, i2 as int, tick, k);
                    let ghost dk = crate::chunk::liquid_tick::action::spec_action_delta(
                        t as int,
                        j as int,
                    );
                    let ghost pk = crate::chunk::liquid_tick::action::spec_action_prereqs(
                        t as int,
                        j as int,
                    );
                    proof {
                        assert(k / 16 == t && (k % 16) / 4 == i && k % 4 == j)
                            by (nonlinear_arith)
                            requires
                                t < 3,
                                i < 4,
                                j < 4,
                                k == t * 16 + i * 4 + j,
                        ;
                        lemma_row_upto(f, sd, liquid0 & !r1.1, i2 as int, tick, k);
                        lemma_catalog_ok(t as int, j as int);
                    }
                    let gm = group_mask_word(xm, pmh, (i + j) % 4);
                    proof {
                        assert(gm == group_mask(tick, i2 as int, ((i + j) % 4) as int));
                    }
                    let group = liquid & gm;
                    if group != 0 {
                        proof {
                            assert forall|xb: u64|
                                xb < 64 && #[trigger] crate::bits::bit_set(group, xb) implies {
                                &&& 1 <= xb <= 62
                                &&& crate::bits::bit_set(f.fliq[i2 as int], xb)
                                &&& crate::bits::bit_set(rk.0.bliq[i2 as int], xb)
                            } by {
                                crate::bits::lemma_and_bit(liquid, gm, xb);
                            }
                            assert(group_live(f, rk.0, group, i2 as int));
                        }
                        let act = action_at(t, j);
                        let mv = self.try_move_row(prov, group, i2, tick, &act);
                        liquid = liquid & !mv;
                    } else {
                        proof {
                            lemma_try_move_zero(f, rk.0, i2 as int, tick, dk, pk);
                            crate::bits::lemma_zero_word(liquid, 0);
                            assert(liquid & !0u64 == liquid);
                        }
                    }
                    j = j + 1;
                }
                i = i + 1;
            }
            t = t + 1;
        }
        proof {
            assert(cur_state(*self, prov@) == row_upto(
                f,
                sd,
                liquid0 & !r1.1,
                i2 as int,
                tick,
                48,
            ).0);
        }
    }

    /// Runs one diffusion tick over the whole grid and returns the tick's
    /// relocations as (destination, source) cell index pairs, in ascending
    /// destination order.
    ///
    /// The chunk must be at rest: both mask buffers agree and match the
    /// voxel store. The tick writes the back buffer and the voxel store;
    /// the front buffer keeps the pre-tick state until it is republished
    /// with `copy_back_to_front`.
    #[verifier::loop_isolation(false)]
    pub fn liquid_tick(&mut self, tick: u64) -> (moves: Vec<(usize, usize)>)
        requires
            chunk_inv(old(self)@),
        ensures
            final(self)@ == spec_tick(old(self)@, tick),
            moves@ == moves_upto(spec_tick_prov(old(self)@, tick), VOL as int),
            final(self)@.fsome == old(self)@.fsome,
            final(self)@.fliq == old(self)@.fliq,
            final(self)@.lens_ok(),
            consistent(final(self)@.voxels, final(self)@.bsome, final(self)@.bliq),
            count_liquid(final(self)@.voxels) == count_liquid(old(self)@.voxels),
            border_solid(old(self)@.fsome, old(self)@.fliq) ==> border_solid(
                final(self)@.bsome,
                final(self)@.bliq,
            ),
            forall|k: int|
                0 <= k < moves@.len() ==> {
                    let mv = #[trigger] moves@[k];
                    &&& mv.0 < VOL
                    &&& mv.1 < VOL
                    &&& mv.0 != mv.1
                    &&& old(self)@.voxels[mv.1 as int] == Some(Voxel::Liquid)
                    &&& old(self)@.voxels[mv.0 as int] is None
                    &&& final(self)@.voxels[mv.0 as int] is Some
                    &&& final(self)@.voxels[mv.1 as int] is None
                },
            forall|k1: int, k2: int|
                0 <= k1 < moves@.len() && 0 <= k2 < moves@.len() && k1 != k2 ==> (
                #[trigger] moves@[k1]).0 != (#[trigger] moves@[k2]).0 && moves@[k1].1
                    != moves@[k2].1,
    {
        let ghost g0 = old(self)@;
        let ghost f = front_of(g0);
        let ghost s0 = state_of(g0);
        proof {
            lemma_tick_start(g0);
            lemma_tick_effect(g0, tick);
        }
        let mut prov = make_prov();
        proof {
            assert(cur_front(*self) == f);
            assert(prov@ =~= s0.prov);
            assert(cur_state(*self, prov@) == s0);
            assert(rows_upto(f, s0, tick, 0) == s0);
        }

        // the fixed scan: z outermost, y innermost, borders excluded
        let mut z: usize = 1;
        while z < 63
            invariant
                1 <= z <= 63,
                cur_front(*self) == f,
                cur_state(*self, prov@) == rows_upto(f, s0, tick, ((z - 1) * 62) as int),
            decreases 63 - z,
        {
            let mut y: usize = 1;
            while y < 63
                invariant
                    1 <= y <= 63,
                    1 <= z <= 62,
                    cur_front(*self) == f,
                    cur_state(*self, prov@) == rows_upto(
                        f,
                        s0,
                        tick,
                        ((z - 1) * 62 + (y - 1)) as int,
                    ),
                decreases 63 - y,
            {
                let ghost q = ((z - 1) * 62 + (y - 1)) as int;
                proof {
                    assert(0 <= q < scan_len());
                    lemma_rows_upto(f, s0, tick, q);
                    assert(q % 62 == y - 1 && q / 62 == z - 1) by (nonlinear_arith)
                        requires
                            1 <= y <= 62,
                            1 <= z <= 62,
                            q == (z - 1) * 62 + (y - 1),
                    ;
                    lemma_scan_word(q);
                    lemma_col_compose(y as int, z as int);
                    assert(scan_word(q) == spec_i_2d(y as int, z as int));
                    assert(row_fresh(f, rows_upto(f, s0, tick, q), spec_i_2d(y as int, z as int)));
                }
                self.tick_row(&mut prov, y, z, tick);
                proof {
                    assert(cur_state(*self, prov@) == rows_upto(f, s0, tick, q + 1));
                }
                y = y + 1;
            }
            z = z + 1;
        }
        proof {
            assert(cur_state(*self, prov@) == rows_upto(f, s0, tick, scan_len()));
            assert(prov@ == spec_tick_prov(g0, tick));
            assert(self@ == spec_tick(g0, tick));
            lemma_moves_upto(prov@, VOL as int);
        }

        // list the surviving claims, in ascending destination order
        let mut moves: Vec<(usize, usize)> = Vec::new();
        let mut c: usize = 0;
        while c < VOL
            invariant
                c <= VOL,
                moves@ == moves_upto(prov@, c as int),
            decreases VOL - c,
        {
            let pc = prov[c];
            if pc != VOL {
                moves.push((c, pc));
            }
            c = c + 1;
        }
        moves
    }
}

} // verus!
