//! The mathematical model of one tick.
//!
//! Every step of the engine — computing a move's eligible bits, committing
//! a move, resolving a collision, walking the tiers of a row, walking the
//! rows of the grid — has a spec-level mirror here. The executable engine
//! is proved to produce exactly the state these functions describe, which
//! pins the whole tick down as a function of the starting grid and the tick
//! counter.

use vstd::prelude::*;

use crate::bits::{bit_set, PAD_MASK};
use crate::chunk::liquid_tick::action::{
    delta_ok, spec_action_delta, spec_action_prereqs, spec_down_delta, Delta, PreReq,
};
use crate::chunk::liquid_tick::hash::hash_of;
use crate::chunk::masks::word_with;
use crate::chunk::{consistent, count_liquid, mask_bit, GridView, Voxel};
use crate::index::{
    border_cell, interior_word, spec_bit_of, spec_cell, spec_col_y, spec_col_z, spec_word_of,
    AREA, VOL,
};

verus! {

/// The front (pre-tick) mask planes, read only during a tick.
pub struct FrontMasks {
    pub fsome: Seq<u64>,
    pub fliq: Seq<u64>,
}

/// The state a tick writes: the voxel store, the back mask planes, and the
/// provenance map from a claimed destination cell to the source cell that
/// currently claims it (`VOL` standing for "not claimed").
pub struct TickState {
    pub voxels: Seq<Option<Voxel>>,
    pub bsome: Seq<u64>,
    pub bliq: Seq<u64>,
    pub prov: Seq<usize>,
}

/// The front planes of a resting grid.
pub open spec fn front_of(g: GridView) -> FrontMasks {
    FrontMasks { fsome: g.fsome, fliq: g.fliq }
}

/// The write state at the start of a tick: the grid's back planes and an
/// empty provenance map.
pub open spec fn state_of(g: GridView) -> TickState {
    TickState {
        voxels: g.voxels,
        bsome: g.bsome,
        bliq: g.bliq,
        prov: Seq::new(VOL as nat, |i: int| VOL),
    }
}

/// Aligns a neighbor column's word with the moving column: the bit for the
/// destination of a move with in-column shift `dx` comes to rest at the
/// position of its source.
pub open spec fn inv_shift(w: u64, dx: int) -> u64 {
    if dx >= 0 {
        w >> (dx as u64)
    } else {
        w << ((-dx) as u64)
    }
}

/// The prerequisite mask after folding the first `n` prerequisites: a bit
/// is set where every one of those prerequisites holds.
pub open spec fn prereq_mask_upto(f: FrontMasks, i_2d: int, prs: Seq<PreReq>, n: int) -> u64
    decreases n,
{
    if n <= 0 {
        !0u64
    } else {
        let m0 = prereq_mask_upto(f, i_2d, prs, n - 1);
        let p = prs[n - 1];
        let m = inv_shift(f.fsome[i_2d + p.delta.spec_i_2d()], p.delta.dx as int);
        if p.not {
            m0 & !m
        } else {
            m0 & m
        }
    }
}

/// The full prerequisite mask of a move.
pub open spec fn prereq_mask(f: FrontMasks, i_2d: int, prs: Seq<PreReq>) -> u64 {
    prereq_mask_upto(f, i_2d, prs, prs.len() as int)
}

/// The column a move from column `i_2d` writes to.
pub open spec fn dst_word(i_2d: int, d: Delta) -> int {
    i_2d + d.spec_i_2d()
}

/// The destination cell of the move of bit `x` of column `i_2d`.
pub open spec fn dst_cell(i_2d: int, x: int, d: Delta) -> int {
    spec_cell(dst_word(i_2d, d), x + d.dx)
}

/// Commits one uncontested move: bit `x` of column `i_2d` relocates by `d`.
/// The destination bits go on, the source bits go off, the voxel follows,
/// and the destination is recorded as claimed by the source.
pub open spec fn apply_success(s: TickState, i_2d: int, x: int, d: Delta) -> TickState {
    let src3 = spec_cell(i_2d, x);
    let dw = dst_word(i_2d, d);
    let dxb = (x + d.dx) as u64;
    let dst3 = spec_cell(dw, x + d.dx);
    let bsome1 = s.bsome.update(dw, word_with(s.bsome[dw], dxb, true));
    let bliq1 = s.bliq.update(dw, word_with(s.bliq[dw], dxb, true));
    let bsome2 = bsome1.update(i_2d, word_with(bsome1[i_2d], x as u64, false));
    let bliq2 = bliq1.update(i_2d, word_with(bliq1[i_2d], x as u64, false));
    TickState {
        voxels: s.voxels.update(dst3, s.voxels[src3]).update(src3, None),
        bsome: bsome2,
        bliq: bliq2,
        prov: s.prov.update(dst3, src3 as usize),
    }
}

/// Resolves one contested move: bit `x` of column `i_2d` found its
/// destination already claimed this tick. The contender's priority hash is
/// compared with the current claimant's; a winning contender displaces the
/// claimant's unit back to the contender's own source cell and takes over
/// the claim, a losing contender stays in place.
///
/// Displacement deliberately resolves only one level deep: the displaced
/// unit comes to rest on the winner's source cell and its own further
/// moves are not re-evaluated this tick, which in rare corner
/// configurations lets liquid cut through a diagonal corner. Deepening the
/// cascade would change the simulation's output.
pub open spec fn apply_fail(s: TickState, i_2d: int, x: int, d: Delta, tick: u64) -> (
    TickState,
    bool,
) {
    let src3 = spec_cell(i_2d, x);
    let dst3 = dst_cell(i_2d, x, d);
    let other = s.prov[dst3] as int;
    if other < VOL && hash_of(tick, src3 as u64) >= hash_of(tick, other as u64) {
        let ow = spec_word_of(other);
        let ob = spec_bit_of(other) as u64;
        let bliq1 = s.bliq.update(ow, word_with(s.bliq[ow], ob, true));
        let bsome1 = s.bsome.update(ow, word_with(s.bsome[ow], ob, true));
        let bliq2 = bliq1.update(i_2d, word_with(bliq1[i_2d], x as u64, false));
        let bsome2 = bsome1.update(i_2d, word_with(bsome1[i_2d], x as u64, false));
        (
            TickState {
                voxels: s.voxels.update(other, s.voxels[src3]).update(src3, None),
                bsome: bsome2,
                bliq: bliq2,
                prov: s.prov.update(dst3, src3 as usize),
            },
            true,
        )
    } else {
        (s, false)
    }
}

/// The state after committing the uncontested moves of the first `n` bit
/// positions of `succ`, in ascending order.
pub open spec fn commit_upto(s: TickState, succ: u64, i_2d: int, d: Delta, n: int) -> TickState
    decreases n,
{
    if n <= 0 {
        s
    } else {
        let s0 = commit_upto(s, succ, i_2d, d, n - 1);
        if bit_set(succ, (n - 1) as u64) {
            apply_success(s0, i_2d, n - 1, d)
        } else {
            s0
        }
    }
}

/// The state and the set of winning bits after resolving the contested
/// moves of the first `n` bit positions of `fail`, in ascending order.
pub open spec fn resolve_upto(
    s: TickState,
    fail: u64,
    i_2d: int,
    d: Delta,
    tick: u64,
    n: int,
) -> (TickState, u64)
    decreases n,
{
    if n <= 0 {
        (s, 0u64)
    } else {
        let r0 = resolve_upto(s, fail, i_2d, d, tick, n - 1);
        if bit_set(fail, (n - 1) as u64) {
            let r1 = apply_fail(r0.0, i_2d, n - 1, d, tick);
            (r1.0, if r1.1 {
                r0.1 | (1u64 << ((n - 1) as u64))
            } else {
                r0.1
            })
        } else {
            r0
        }
    }
}

/// One move attempt on a candidate bit set: the eligible bits are the
/// candidates whose prerequisites hold and whose destination is free in the
/// front buffer; of those, the ones whose destination is still unclaimed in
/// the back buffer commit directly and the rest go to arbitration. Returns
/// the new state and the bits that ended the attempt having moved.
pub open spec fn spec_try_move(
    f: FrontMasks,
    s: TickState,
    group: u64,
    i_2d: int,
    tick: u64,
    d: Delta,
    prs: Seq<PreReq>,
) -> (TickState, u64) {
    let pm = prereq_mask(f, i_2d, prs);
    let dw = dst_word(i_2d, d);
    let tryw = group & pm & !inv_shift(f.fsome[dw], d.dx as int);
    let succ = tryw & !inv_shift(s.bsome[dw], d.dx as int);
    let fail = tryw & !succ;
    let s1 = commit_upto(s, succ, i_2d, d, 64);
    let r2 = resolve_upto(s1, fail, i_2d, d, tick, 64);
    (r2.0, succ | r2.1)
}

/// The pseudorandom group `g` of column `i_2d` for this tick: the four
/// groups partition the 64 bit positions along two hash-derived masks.
pub open spec fn group_mask(tick: u64, i_2d: int, g: int) -> u64 {
    let xm = hash_of(tick, i_2d as u64);
    let pm = hash_of(!tick, i_2d as u64);
    if g == 0 {
        xm & pm
    } else if g == 1 {
        xm & !pm
    } else if g == 2 {
        !xm & pm
    } else {
        !xm & !pm
    }
}

/// The state and remaining liquid bits of a row after the first `k` of its
/// 48 grouped sub-passes (3 tiers, 4 rotation offsets, 4 directions).
pub open spec fn row_upto(
    f: FrontMasks,
    s: TickState,
    liquid: u64,
    i_2d: int,
    tick: u64,
    k: int,
) -> (TickState, u64)
    decreases k,
{
    if k <= 0 {
        (s, liquid)
    } else {
        let r0 = row_upto(f, s, liquid, i_2d, tick, k - 1);
        let kk = k - 1;
        let t = kk / 16;
        let i = (kk % 16) / 4;
        let j = kk % 4;
        let group = r0.1 & group_mask(tick, i_2d, (i + j) % 4);
        let r1 = spec_try_move(
            f,
            r0.0,
            group,
            i_2d,
            tick,
            spec_action_delta(t, j),
            spec_action_prereqs(t, j),
        );
        (r1.0, r0.1 & !r1.1)
    }
}

/// One row of the tick: fetch the pre-tick liquid bits of the column with
/// the border bits masked out; if any remain, try the unconditional fall
/// and then the 48 grouped sub-passes.
pub open spec fn spec_tick_row(f: FrontMasks, s: TickState, i_2d: int, tick: u64) -> TickState {
    let liquid0 = f.fliq[i_2d] & !PAD_MASK;
    if liquid0 == 0 {
        s
    } else {
        let r1 = spec_try_move(
            f,
            s,
            liquid0,
            i_2d,
            tick,
            spec_down_delta(),
            Seq::<PreReq>::empty(),
        );
        row_upto(f, r1.0, liquid0 & !r1.1, i_2d, tick, 48).0
    }
}

/// The interior column visited at position `q` of the fixed scan order:
/// z outermost, y innermost, borders excluded.
pub open spec fn scan_word(q: int) -> int {
    (1 + q % 62) + (1 + q / 62) * 64
}

/// The number of interior columns.
pub open spec fn scan_len() -> int {
    3844
}

/// The state after the first `q` rows of the scan.
pub open spec fn rows_upto(f: FrontMasks, s: TickState, tick: u64, q: int) -> TickState
    decreases q,
{
    if q <= 0 {
        s
    } else {
        spec_tick_row(f, rows_upto(f, s, tick, q - 1), scan_word(q - 1), tick)
    }
}

/// The provenance map a full tick leaves behind.
pub open spec fn spec_tick_prov(g: GridView, tick: u64) -> Seq<usize> {
    rows_upto(front_of(g), state_of(g), tick, scan_len()).prov
}

/// The grid after a full tick: the voxel store and back planes as the scan
/// leaves them, the front planes untouched.
pub open spec fn spec_tick(g: GridView, tick: u64) -> GridView {
    let se = rows_upto(front_of(g), state_of(g), tick, scan_len());
    GridView { voxels: se.voxels, fsome: g.fsome, fliq: g.fliq, bsome: se.bsome, bliq: se.bliq }
}

/// The (destination, source) pairs of the claims among the first `n` cells
/// of a provenance map, in ascending destination order.
pub open spec fn moves_upto(prov: Seq<usize>, n: int) -> Seq<(usize, usize)>
    decreases n,
{
    if n <= 0 {
        Seq::<(usize, usize)>::empty()
    } else {
        let m0 = moves_upto(prov, n - 1);
        if prov[n - 1] != VOL {
            m0.push((((n - 1) as usize), prov[n - 1]))
        } else {
            m0
        }
    }
}

// ---------------------------------------------------------------------------
// The invariant a tick maintains.
// ---------------------------------------------------------------------------

/// The front planes are fully sized and the liquid plane is a subset of the
/// occupancy plane.
pub open spec fn front_wf(f: FrontMasks) -> bool {
    &&& f.fsome.len() == AREA
    &&& f.fliq.len() == AREA
    &&& forall|c: int| 0 <= c < VOL && #[trigger] mask_bit(f.fliq, c) ==> mask_bit(f.fsome, c)
}

/// The write state is fully sized.
pub open spec fn state_lens(s: TickState) -> bool {
    &&& s.voxels.len() == VOL
    &&& s.bsome.len() == AREA
    &&& s.bliq.len() == AREA
    &&& s.prov.len() == VOL
}

/// A cell is claimed when this tick has filled it: occupied in the back
/// buffer but free in the pre-tick front buffer.
pub open spec fn claimed(f: FrontMasks, s: TickState, c: int) -> bool {
    mask_bit(s.bsome, c) && !mask_bit(f.fsome, c)
}

/// A recorded claim points at a plausible source: a pre-tick liquid cell
/// that stands empty in the back buffer, having moved away.
pub open spec fn valid_claim(f: FrontMasks, s: TickState, c: int) -> bool {
    let src = s.prov[c] as int;
    &&& 0 <= src < VOL
    &&& mask_bit(f.fliq, src)
    &&& !mask_bit(s.bsome, src)
}

/// The invariant of the write state at every point inside a tick: the back
/// planes agree with the voxel store, the provenance map records exactly
/// the claimed cells, every claim points at a plausible source, and no two
/// claims share a source.
pub open spec fn tick_inv(f: FrontMasks, s: TickState) -> bool {
    &&& front_wf(f)
    &&& state_lens(s)
    &&& consistent(s.voxels, s.bsome, s.bliq)
    &&& forall|c: int| 0 <= c < VOL ==> (((#[trigger] s.prov[c]) != VOL) <==> claimed(f, s, c))
    &&& forall|c: int| 0 <= c < VOL && (#[trigger] s.prov[c]) != VOL ==> valid_claim(f, s, c)
    &&& forall|c1: int, c2: int|
        0 <= c1 < VOL && 0 <= c2 < VOL && c1 != c2 && (#[trigger] s.prov[c1]) != VOL && (
        #[trigger] s.prov[c2]) != VOL ==> s.prov[c1] != s.prov[c2]
}

/// Every border cell of the front buffer is occupied and none is liquid.
pub open spec fn border_front_ok(f: FrontMasks) -> bool {
    forall|c: int|
        0 <= c < VOL && border_cell(c) ==> (#[trigger] mask_bit(f.fsome, c)) && !mask_bit(
            f.fliq,
            c,
        )
}

/// Every border cell of the back planes is occupied and none is liquid.
pub open spec fn border_back_ok(s: TickState) -> bool {
    forall|c: int|
        0 <= c < VOL && border_cell(c) ==> (#[trigger] mask_bit(s.bsome, c)) && !mask_bit(
            s.bliq,
            c,
        )
}

/// What every stretch of tick work preserves, besides the invariant: the
/// liquid count of the store, the solidity of the border, the claims
/// already made, and the liquid bits of every column other than the one
/// being processed.
pub open spec fn step_frame(f: FrontMasks, s0: TickState, s1: TickState, i_2d: int) -> bool {
    &&& count_liquid(s1.voxels) == count_liquid(s0.voxels)
    &&& (border_front_ok(f) && border_back_ok(s0) ==> border_back_ok(s1))
    &&& forall|c: int|
        0 <= c < VOL && !mask_bit(f.fsome, c) && (#[trigger] mask_bit(s0.bsome, c)) ==> mask_bit(
            s1.bsome,
            c,
        )
    &&& forall|c: int|
        0 <= c < VOL && spec_word_of(c) != i_2d && (#[trigger] mask_bit(s0.bliq, c)) ==> mask_bit(
            s1.bliq,
            c,
        )
}

/// Within the processed column, only bits of `moved` may lose their liquid
/// flag.
pub open spec fn word_live_frame(s0: TickState, s1: TickState, i_2d: int, moved: u64) -> bool {
    forall|x: u64|
        x < 64 && (#[trigger] bit_set(s0.bliq[i_2d], x)) && !bit_set(moved, x) ==> bit_set(
            s1.bliq[i_2d],
            x,
        )
}

/// The bits of `group` stand for live liquid units of column `i_2d`: away
/// from the border bits, liquid in the pre-tick front buffer, and still
/// liquid in the back buffer.
pub open spec fn group_live(f: FrontMasks, s: TickState, group: u64, i_2d: int) -> bool {
    forall|x: u64|
        x < 64 && (#[trigger] bit_set(group, x)) ==> {
            &&& 1 <= x <= 62
            &&& bit_set(f.fliq[i_2d], x)
            &&& bit_set(s.bliq[i_2d], x)
        }
}

} // verus!
