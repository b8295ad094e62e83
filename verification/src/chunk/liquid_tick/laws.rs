//! The guarantees of a whole tick, stated over the tick's mathematical
//! model and proved from the per-move lemmas.

use vstd::prelude::*;

use crate::bits::bit_set;
use crate::chunk::liquid_tick::lemmas::{lemma_rows_upto, rows_fresh};
use crate::chunk::liquid_tick::model::{
    border_back_ok, border_front_ok, claimed, front_of, moves_upto, rows_upto, scan_len,
    spec_tick, spec_tick_prov, state_of, tick_inv, valid_claim,
};
use crate::chunk::{
    border_solid, chunk_inv, consistent, count_liquid, mask_bit, GridView, Voxel,
};
use crate::index::VOL;

verus! {

/// A resting chunk is a valid starting point for a tick: the write state
/// satisfies the tick invariant and every row is still fresh.
pub proof fn lemma_tick_start(g: GridView)
    requires
        chunk_inv(g),
    ensures
        tick_inv(front_of(g), state_of(g)),
        rows_fresh(front_of(g), state_of(g), 0),
        border_solid(g.fsome, g.fliq) ==> border_back_ok(state_of(g)),
        border_solid(g.fsome, g.fliq) == border_front_ok(front_of(g)),
{
    let f = front_of(g);
    let s = state_of(g);
    assert forall|c: int| 0 <= c < VOL && #[trigger] mask_bit(f.fliq, c) implies mask_bit(
        f.fsome,
        c,
    ) by {
        assert(g.voxels[c] == Some(Voxel::Liquid));
    }
    assert forall|c: int| 0 <= c < VOL implies (((#[trigger] s.prov[c]) != VOL) <==> claimed(
        f,
        s,
        c,
    )) by {
        assert(s.prov[c] == VOL);
    }
}

/// What a full tick does to a resting chunk: the front planes stand, the
/// back planes agree with the voxel store again, the liquid count is
/// unchanged, a solid border stays solid, and the provenance map holds
/// one plausible claim per filled destination, no two sharing a source.
pub proof fn lemma_tick_effect(g: GridView, tick: u64)
    requires
        chunk_inv(g),
    ensures
        ({
            let g2 = spec_tick(g, tick);
            let pv = spec_tick_prov(g, tick);
            &&& g2.lens_ok()
            &&& g2.fsome == g.fsome
            &&& g2.fliq == g.fliq
            &&& consistent(g2.voxels, g2.bsome, g2.bliq)
            &&& count_liquid(g2.voxels) == count_liquid(g.voxels)
            &&& (border_solid(g.fsome, g.fliq) ==> border_solid(g2.bsome, g2.bliq))
            &&& pv.len() == VOL
            &&& forall|c: int|
                0 <= c < VOL && (#[trigger] pv[c]) != VOL ==> {
                    &&& 0 <= pv[c] < VOL
                    &&& pv[c] != c
                    &&& g.voxels[pv[c] as int] == Some(Voxel::Liquid)
                    &&& g.voxels[c] is None
                    &&& g2.voxels[pv[c] as int] is None
                    &&& g2.voxels[c] is Some
                }
            &&& forall|c1: int, c2: int|
                0 <= c1 < VOL && 0 <= c2 < VOL && c1 != c2 && (#[trigger] pv[c1]) != VOL && (
                #[trigger] pv[c2]) != VOL ==> pv[c1] != pv[c2]
        }),
{
    lemma_tick_start(g);
    let f = front_of(g);
    let s0 = state_of(g);
    lemma_rows_upto(f, s0, tick, scan_len());
    let se = rows_upto(f, s0, tick, scan_len());
    let g2 = spec_tick(g, tick);
    let pv = spec_tick_prov(g, tick);
    if border_solid(g.fsome, g.fliq) {
        assert(border_back_ok(se));
    }
    assert forall|c: int| 0 <= c < VOL && (#[trigger] pv[c]) != VOL implies {
        &&& 0 <= pv[c] < VOL
        &&& pv[c] != c
        &&& g.voxels[pv[c] as int] == Some(Voxel::Liquid)
        &&& g.voxels[c] is None
        &&& g2.voxels[pv[c] as int] is None
        &&& g2.voxels[c] is Some
    } by {
        assert(se.prov[c] != VOL);
        assert(claimed(f, se, c));
        assert(valid_claim(f, se, c));
        let src = pv[c] as int;
        assert(mask_bit(f.fliq, src));
        assert(g.voxels[src] == Some(Voxel::Liquid));
        assert(!mask_bit(f.fsome, c));
        assert(g.voxels[c] is None);
        assert(!mask_bit(se.bsome, src));
        assert(g2.voxels[src] is None);
        assert(mask_bit(se.bsome, c));
        assert(g2.voxels[c] is Some);
        assert(mask_bit(f.fsome, src));
    }
}

/// The claims among the first `n` destinations, listed in ascending
/// destination order: every listed pair reads back from the map, and the
/// destinations strictly increase.
pub proof fn lemma_moves_upto(prov: Seq<usize>, n: int)
    requires
        prov.len() == VOL,
        0 <= n <= VOL,
    ensures
        ({
            let ms = moves_upto(prov, n);
            &&& forall|i: int|
                0 <= i < ms.len() ==> {
                    &&& 0 <= (#[trigger] ms[i]).0 < n
                    &&& prov[ms[i].0 as int] == ms[i].1
                    &&& ms[i].1 != VOL
                }
            &&& forall|i: int, j: int| 0 <= i < j < ms.len() ==> ms[i].0 < ms[j].0
        }),
    decreases n,
{
    if n > 0 {
        lemma_moves_upto(prov, n - 1);
        let m0 = moves_upto(prov, n - 1);
        let ms = moves_upto(prov, n);
        if prov[n - 1] != VOL {
            assert(ms == m0.push((((n - 1) as usize), prov[n - 1])));
            assert forall|i: int| 0 <= i < ms.len() implies {
                &&& 0 <= (#[trigger] ms[i]).0 < n
                &&& prov[ms[i].0 as int] == ms[i].1
                &&& ms[i].1 != VOL
            } by {
                if i < m0.len() {
                    assert(ms[i] == m0[i]);
                } else {
                    assert(ms[i] == (((n - 1) as usize), prov[n - 1]));
                }
            }
            assert forall|i: int, j: int| 0 <= i < j < ms.len() implies ms[i].0 < ms[j].0 by {
                if j < m0.len() {
                    assert(ms[i] == m0[i] && ms[j] == m0[j]);
                } else {
                    assert(ms[i] == m0[i]);
                    assert(ms[j].0 == n - 1);
                }
            }
        }
    }
}

/// Mask/store consistency: a tick from a resting chunk leaves the back
/// buffer's masks recording exactly the occupied and the liquid cells of
/// the voxel store.
pub proof fn lemma_tick_mask_store_consistency(g: GridView, tick: u64)
    requires
        chunk_inv(g),
    ensures
        consistent(spec_tick(g, tick).voxels, spec_tick(g, tick).bsome, spec_tick(g, tick).bliq),
{
    lemma_tick_effect(g, tick);
}

/// Conservation: a tick only relocates liquid, so the number of liquid
/// cells in the voxel store does not change.
pub proof fn lemma_tick_conservation(g: GridView, tick: u64)
    requires
        chunk_inv(g),
    ensures
        count_liquid(spec_tick(g, tick).voxels) == count_liquid(g.voxels),
{
    lemma_tick_effect(g, tick);
}

/// No destination double-claim: at the end of a tick each claimed
/// destination has exactly one recorded source, no two claims share a
/// source, and every claim moved a pre-tick liquid unit into a cell that
/// was empty before the tick.
pub proof fn lemma_tick_no_double_claim(g: GridView, tick: u64)
    requires
        chunk_inv(g),
    ensures
        ({
            let pv = spec_tick_prov(g, tick);
            &&& forall|c1: int, c2: int|
                0 <= c1 < VOL && 0 <= c2 < VOL && c1 != c2 && (#[trigger] pv[c1]) != VOL && (
                #[trigger] pv[c2]) != VOL ==> pv[c1] != pv[c2]
            &&& forall|c: int|
                0 <= c < VOL && (#[trigger] pv[c]) != VOL ==> g.voxels[pv[c] as int] == Some(
                    Voxel::Liquid,
                ) && g.voxels[c] is None
        }),
{
    lemma_tick_effect(g, tick);
}

/// Border invariance: with a solid border in the resting chunk, the border
/// is solid again after the tick, in the untouched front planes and in the
/// freshly written back planes alike.
pub proof fn lemma_tick_border_invariance(g: GridView, tick: u64)
    requires
        chunk_inv(g),
        border_solid(g.fsome, g.fliq),
    ensures
        border_solid(spec_tick(g, tick).fsome, spec_tick(g, tick).fliq),
        border_solid(spec_tick(g, tick).bsome, spec_tick(g, tick).bliq),
{
    lemma_tick_effect(g, tick);
}

/// Determinism: the whole tick is a function of the starting grid and the
/// tick counter, so equal inputs give bit-identical results.
pub proof fn lemma_tick_deterministic(g1: GridView, g2: GridView, t1: u64, t2: u64)
    requires
        g1 == g2,
        t1 == t2,
    ensures
        spec_tick(g1, t1) == spec_tick(g2, t2),
        spec_tick_prov(g1, t1) == spec_tick_prov(g2, t2),
{
}

} // verus!
