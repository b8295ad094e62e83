//! Proofs that every single move of a tick preserves the tick invariant:
//! the geometry of a move's source and destination cells, and the effect of
//! one uncontested commit and one collision resolution on the write state.

use vstd::prelude::*;

use crate::bits::bit_set;
use crate::chunk::liquid_tick::action::{
    delta_ok, spec_action_delta, spec_action_prereqs, spec_down_delta, Delta,
};
use crate::chunk::liquid_tick::model::{
    apply_fail, apply_success, border_back_ok, border_front_ok, claimed, commit_upto, dst_cell,
    dst_word, group_live, group_mask, inv_shift, prereq_mask, resolve_upto, row_upto, rows_upto,
    scan_len, scan_word, spec_tick_row, spec_try_move, step_frame, tick_inv, valid_claim,
    word_live_frame, FrontMasks, TickState,
};
use crate::chunk::masks::lemma_mask_bit_update;
use crate::chunk::{count_liquid, lemma_count_update, mask_bit, Voxel};
use crate::index::{
    border_cell, interior_word, lemma_cell_compose, lemma_cell_decomp, lemma_col_compose,
    lemma_col_decomp, spec_bit_of, spec_cell, spec_col_y, spec_col_z, spec_word_of, AREA, VOL,
};

verus! {

/// The cell at bit `x` of column `i_2d`, read through the mask planes.
pub proof fn lemma_mask_bit_at(m: Seq<u64>, i_2d: int, x: int)
    requires
        m.len() == AREA,
        0 <= i_2d < AREA,
        0 <= x < 64,
    ensures
        mask_bit(m, spec_cell(i_2d, x)) == bit_set(m[i_2d], x as u64),
{
    lemma_cell_compose(i_2d, x);
}

/// The geometry of one catalog move from an interior column: source and
/// destination cells are in range, they differ, and the destination column
/// coincides with the source column only for a lateral x slide.
pub proof fn lemma_move_cells(i_2d: int, x: int, d: Delta)
    requires
        interior_word(i_2d),
        delta_ok(d),
        1 <= x <= 62,
    ensures
        ({
            let src3 = spec_cell(i_2d, x);
            let dw = dst_word(i_2d, d);
            let dst3 = dst_cell(i_2d, x, d);
            &&& 0 <= src3 < VOL
            &&& spec_word_of(src3) == i_2d
            &&& spec_bit_of(src3) == x
            &&& 0 <= dw < AREA
            &&& 0 <= x + d.dx < 64
            &&& 0 <= dst3 < VOL
            &&& spec_word_of(dst3) == dw
            &&& spec_bit_of(dst3) == x + d.dx
            &&& src3 != dst3
        }),
{
    let src3 = spec_cell(i_2d, x);
    let dw = dst_word(i_2d, d);
    let dst3 = dst_cell(i_2d, x, d);
    lemma_col_decomp(i_2d);
    let y = spec_col_y(i_2d);
    let z = spec_col_z(i_2d);
    assert(dw == (y + d.dx * 0) + d.dy + (z + d.dz) * 64 - z * 64 + i_2d - y - z * 64 + z * 64);
    assert(dw == (y + d.dy) + (z + d.dz) * 64);
    lemma_col_compose(y + d.dy, z + d.dz);
    lemma_cell_compose(i_2d, x);
    lemma_cell_compose(dw, x + d.dx);
    if dw == i_2d {
        assert(spec_col_y(dw) == y + d.dy && spec_col_y(dw) == y);
        assert(spec_col_z(dw) == z + d.dz && spec_col_z(dw) == z);
        assert(d.dy == 0 && d.dz == 0);
        assert(d.dx != 0);
        assert(spec_bit_of(dst3) != spec_bit_of(src3));
    } else {
        assert(spec_word_of(dst3) != spec_word_of(src3));
    }
}

/// The column a catalog move writes to is in range.
pub proof fn lemma_dst_word(i_2d: int, d: Delta)
    requires
        interior_word(i_2d),
        delta_ok(d),
    ensures
        0 <= dst_word(i_2d, d) < AREA,
{
    lemma_col_decomp(i_2d);
    let y = spec_col_y(i_2d);
    let z = spec_col_z(i_2d);
    assert(dst_word(i_2d, d) == (y + d.dy) + (z + d.dz) * 64);
    lemma_col_compose(y + d.dy, z + d.dz);
}

/// The column a catalog prerequisite reads is in range.
pub proof fn lemma_prereq_word(i_2d: int, p: crate::chunk::liquid_tick::action::PreReq)
    requires
        interior_word(i_2d),
        crate::chunk::liquid_tick::action::prereq_ok(p),
    ensures
        0 <= i_2d + p.delta.spec_i_2d() < AREA,
{
    lemma_col_decomp(i_2d);
    let y = spec_col_y(i_2d);
    let z = spec_col_z(i_2d);
    assert(i_2d + p.delta.spec_i_2d() == y + (z + p.delta.dz) * 64);
    lemma_col_compose(y, z + p.delta.dz);
}

/// Committing one uncontested move keeps the invariant. Exactly the source
/// and destination cells change: the source empties, the destination takes
/// its liquid unit, and the claim is recorded.
pub proof fn lemma_apply_success(f: FrontMasks, s: TickState, i_2d: int, x: int, d: Delta)
    requires
        tick_inv(f, s),
        interior_word(i_2d),
        delta_ok(d),
        1 <= x <= 62,
        mask_bit(s.bliq, spec_cell(i_2d, x)),
        mask_bit(f.fliq, spec_cell(i_2d, x)),
        !mask_bit(f.fsome, dst_cell(i_2d, x, d)),
        !mask_bit(s.bsome, dst_cell(i_2d, x, d)),
    ensures
        ({
            let s1 = apply_success(s, i_2d, x, d);
            let src3 = spec_cell(i_2d, x);
            let dst3 = dst_cell(i_2d, x, d);
            &&& tick_inv(f, s1)
            &&& s1.prov == s.prov.update(dst3, src3 as usize)
            &&& forall|c: int|
                #![trigger mask_bit(s1.bsome, c)]
                #![trigger mask_bit(s1.bliq, c)]
                #![trigger s1.voxels[c]]
                0 <= c < VOL && c != src3 && c != dst3 ==> mask_bit(s1.bsome, c) == mask_bit(
                    s.bsome,
                    c,
                ) && mask_bit(s1.bliq, c) == mask_bit(s.bliq, c) && s1.voxels[c] == s.voxels[c]
            &&& !mask_bit(s1.bsome, src3)
            &&& !mask_bit(s1.bliq, src3)
            &&& s1.voxels[src3] is None
            &&& mask_bit(s1.bsome, dst3)
            &&& mask_bit(s1.bliq, dst3)
            &&& s1.voxels[dst3] == Some(Voxel::Liquid)
            &&& count_liquid(s1.voxels) == count_liquid(s.voxels)
            &&& (border_front_ok(f) && border_back_ok(s) ==> border_back_ok(s1))
        }),
{
    let s1 = apply_success(s, i_2d, x, d);
    let src3 = spec_cell(i_2d, x);
    let dw = dst_word(i_2d, d);
    let dst3 = dst_cell(i_2d, x, d);
    let dxb = (x + d.dx) as u64;
    lemma_move_cells(i_2d, x, d);

    let bsome1 = s.bsome.update(dw, crate::chunk::masks::word_with(s.bsome[dw], dxb, true));
    let bliq1 = s.bliq.update(dw, crate::chunk::masks::word_with(s.bliq[dw], dxb, true));
    assert forall|c: int| 0 <= c < VOL implies {
        &&& mask_bit(s1.bsome, c) == (if c == src3 {
            false
        } else if c == dst3 {
            true
        } else {
            mask_bit(s.bsome, c)
        })
        &&& mask_bit(s1.bliq, c) == (if c == src3 {
            false
        } else if c == dst3 {
            true
        } else {
            mask_bit(s.bliq, c)
        })
    } by {
        lemma_mask_bit_update(s.bsome, dw, dxb, true, c);
        lemma_mask_bit_update(s.bliq, dw, dxb, true, c);
        lemma_mask_bit_update(bsome1, i_2d, x as u64, false, c);
        lemma_mask_bit_update(bliq1, i_2d, x as u64, false, c);
        assert(spec_cell(dw, x + d.dx) == dst3);
    }

    // the voxel store: the unit moves from the source to the destination
    assert(s.voxels[src3] == Some(Voxel::Liquid));
    assert(s.voxels[dst3] is None);
    let v1 = s.voxels.update(dst3, s.voxels[src3]);
    lemma_count_update(s.voxels, dst3, s.voxels[src3]);
    lemma_count_update(v1, src3, None);
    assert(s1.voxels == v1.update(src3, None));
    assert(count_liquid(s1.voxels) == count_liquid(s.voxels));

    // consistency is restored cell by cell
    assert forall|c: int| 0 <= c < VOL implies {
        &&& (#[trigger] mask_bit(s1.bsome, c)) == s1.voxels[c] is Some
        &&& mask_bit(s1.bliq, c) == (s1.voxels[c] == Some(Voxel::Liquid))
    } by {
        if c != src3 && c != dst3 {
            assert(mask_bit(s.bsome, c) == s.voxels[c] is Some);
        }
    }

    // the provenance map: one fresh claim, everything else as it was
    assert(s.prov[src3] == VOL);
    assert(s.prov[dst3] == VOL);
    assert forall|c: int| 0 <= c < VOL implies ((#[trigger] s1.prov[c]) != VOL <==> claimed(
        f,
        s1,
        c,
    )) by {
        if c == dst3 {
        } else if c == src3 {
        } else {
            assert(s1.prov[c] == s.prov[c]);
            assert(s.prov[c] != VOL <==> claimed(f, s, c));
        }
    }
    assert forall|c: int| 0 <= c < VOL && (#[trigger] s1.prov[c]) != VOL implies valid_claim(
        f,
        s1,
        c,
    ) by {
        if c == dst3 {
            assert(!mask_bit(s1.bsome, src3));
        } else {
            assert(s1.prov[c] == s.prov[c]);
            assert(valid_claim(f, s, c));
            let v = s.prov[c] as int;
            assert(!mask_bit(s.bsome, v));
            assert(mask_bit(s.bsome, src3));
            assert(v != src3);
            assert(mask_bit(f.fliq, v));
            assert(v != dst3);
        }
    }
    assert forall|c1: int, c2: int|
        0 <= c1 < VOL && 0 <= c2 < VOL && c1 != c2 && (#[trigger] s1.prov[c1]) != VOL && (
        #[trigger] s1.prov[c2]) != VOL implies s1.prov[c1] != s1.prov[c2] by {
        if c1 != dst3 && c2 != dst3 {
            assert(s1.prov[c1] == s.prov[c1] && s1.prov[c2] == s.prov[c2]);
        } else {
            let e = if c1 == dst3 {
                c2
            } else {
                c1
            };
            assert(s1.prov[e] == s.prov[e]);
            assert(valid_claim(f, s, e));
            assert(!mask_bit(s.bsome, s.prov[e] as int));
            assert(mask_bit(s.bsome, src3));
        }
    }

    // the border stays solid: none of the two changed cells can lie on it
    if border_front_ok(f) && border_back_ok(s) {
        assert forall|c: int| 0 <= c < VOL && border_cell(c) implies (#[trigger] mask_bit(
            s1.bsome,
            c,
        )) && !mask_bit(s1.bliq, c) by {
            assert(mask_bit(f.fsome, c) && !mask_bit(f.fliq, c));
            assert(c != src3 && c != dst3);
        }
    }
}

/// Resolving one contested move keeps the invariant. A losing contender
/// changes nothing; a winning contender empties its own source, restores
/// the displaced claimant's unit there, and takes over the claim.
pub proof fn lemma_apply_fail(f: FrontMasks, s: TickState, i_2d: int, x: int, d: Delta, tick: u64)
    requires
        tick_inv(f, s),
        interior_word(i_2d),
        delta_ok(d),
        1 <= x <= 62,
        mask_bit(s.bliq, spec_cell(i_2d, x)),
        mask_bit(f.fliq, spec_cell(i_2d, x)),
        !mask_bit(f.fsome, dst_cell(i_2d, x, d)),
        mask_bit(s.bsome, dst_cell(i_2d, x, d)),
    ensures
        ({
            let r = apply_fail(s, i_2d, x, d, tick);
            let s1 = r.0;
            let src3 = spec_cell(i_2d, x);
            let dst3 = dst_cell(i_2d, x, d);
            let other = s.prov[dst3] as int;
            &&& tick_inv(f, s1)
            &&& (!r.1 ==> s1 == s)
            &&& (r.1 ==> {
                &&& s1.prov == s.prov.update(dst3, src3 as usize)
                &&& forall|c: int|
                    #![trigger mask_bit(s1.bsome, c)]
                    #![trigger mask_bit(s1.bliq, c)]
                    #![trigger s1.voxels[c]]
                    0 <= c < VOL && c != src3 && c != other ==> mask_bit(s1.bsome, c) == mask_bit(
                        s.bsome,
                        c,
                    ) && mask_bit(s1.bliq, c) == mask_bit(s.bliq, c) && s1.voxels[c] == s.voxels[c]
                &&& !mask_bit(s1.bsome, src3)
                &&& !mask_bit(s1.bliq, src3)
                &&& mask_bit(s1.bsome, other)
                &&& mask_bit(s1.bliq, other)
            })
            &&& count_liquid(s1.voxels) == count_liquid(s.voxels)
            &&& (border_front_ok(f) && border_back_ok(s) ==> border_back_ok(s1))
        }),
{
    let r = apply_fail(s, i_2d, x, d, tick);
    let s1 = r.0;
    let src3 = spec_cell(i_2d, x);
    let dw = dst_word(i_2d, d);
    let dst3 = dst_cell(i_2d, x, d);
    lemma_move_cells(i_2d, x, d);

    // the contested destination carries a claim, and the claim is valid
    assert(claimed(f, s, dst3));
    assert(s.prov[dst3] != VOL);
    assert(valid_claim(f, s, dst3));
    let other = s.prov[dst3] as int;
    assert(0 <= other < VOL && mask_bit(f.fliq, other) && !mask_bit(s.bsome, other));
    lemma_cell_decomp(other);
    let ow = spec_word_of(other);
    let ob = spec_bit_of(other) as u64;

    // the three cells in play are pairwise distinct
    assert(mask_bit(s.bsome, src3));
    assert(other != src3);
    assert(other != dst3);

    if !(other < VOL && crate::chunk::liquid_tick::hash::hash_of(tick, src3 as u64)
        >= crate::chunk::liquid_tick::hash::hash_of(tick, other as u64)) {
        assert(s1 == s);
    } else {
        let bliq1 = s.bliq.update(ow, crate::chunk::masks::word_with(s.bliq[ow], ob, true));
        let bsome1 = s.bsome.update(ow, crate::chunk::masks::word_with(s.bsome[ow], ob, true));
        assert forall|c: int| 0 <= c < VOL implies {
            &&& mask_bit(s1.bsome, c) == (if c == src3 {
                false
            } else if c == other {
                true
            } else {
                mask_bit(s.bsome, c)
            })
            &&& mask_bit(s1.bliq, c) == (if c == src3 {
                false
            } else if c == other {
                true
            } else {
                mask_bit(s.bliq, c)
            })
        } by {
            lemma_mask_bit_update(s.bsome, ow, ob, true, c);
            lemma_mask_bit_update(s.bliq, ow, ob, true, c);
            lemma_mask_bit_update(bsome1, i_2d, x as u64, false, c);
            lemma_mask_bit_update(bliq1, i_2d, x as u64, false, c);
            assert(spec_cell(ow, ob as int) == other);
            assert(spec_cell(i_2d, x) == src3);
        }

        // the contender's unit lands on the displaced claimant's source
        assert(s.voxels[src3] == Some(Voxel::Liquid));
        assert(s.voxels[other] is None);
        let v1 = s.voxels.update(other, s.voxels[src3]);
        lemma_count_update(s.voxels, other, s.voxels[src3]);
        lemma_count_update(v1, src3, None);
        assert(s1.voxels == v1.update(src3, None));
        assert(count_liquid(s1.voxels) == count_liquid(s.voxels));

        assert forall|c: int| 0 <= c < VOL implies {
            &&& (#[trigger] mask_bit(s1.bsome, c)) == s1.voxels[c] is Some
            &&& mask_bit(s1.bliq, c) == (s1.voxels[c] == Some(Voxel::Liquid))
        } by {
            if c != src3 && c != other {
                assert(mask_bit(s.bsome, c) == s.voxels[c] is Some);
            }
        }

        // the claim passes to the contender; all other claims stand
        assert(s.prov[src3] == VOL);
        assert(s.prov[other] == VOL);
        assert forall|c: int| 0 <= c < VOL implies ((#[trigger] s1.prov[c]) != VOL <==> claimed(
            f,
            s1,
            c,
        )) by {
            if c == dst3 {
                assert(mask_bit(s1.bsome, dst3));
            } else if c == src3 {
            } else if c == other {
                assert(mask_bit(f.fliq, other) ==> mask_bit(f.fsome, other));
            } else {
                assert(s1.prov[c] == s.prov[c]);
                assert(s.prov[c] != VOL <==> claimed(f, s, c));
            }
        }
        assert forall|c: int| 0 <= c < VOL && (#[trigger] s1.prov[c]) != VOL implies valid_claim(
            f,
            s1,
            c,
        ) by {
            if c == dst3 {
                assert(!mask_bit(s1.bsome, src3));
            } else {
                assert(s1.prov[c] == s.prov[c]);
                assert(valid_claim(f, s, c));
                let v = s.prov[c] as int;
                assert(!mask_bit(s.bsome, v));
                assert(v != src3);
                assert(s.prov[c] != s.prov[dst3]);
                assert(v != other);
            }
        }
        assert forall|c1: int, c2: int|
            0 <= c1 < VOL && 0 <= c2 < VOL && c1 != c2 && (#[trigger] s1.prov[c1]) != VOL && (
            #[trigger] s1.prov[c2]) != VOL implies s1.prov[c1] != s1.prov[c2] by {
            if c1 != dst3 && c2 != dst3 {
                assert(s1.prov[c1] == s.prov[c1] && s1.prov[c2] == s.prov[c2]);
            } else {
                let e = if c1 == dst3 {
                    c2
                } else {
                    c1
                };
                assert(s1.prov[e] == s.prov[e]);
                assert(valid_claim(f, s, e));
                assert(!mask_bit(s.bsome, s.prov[e] as int));
                assert(mask_bit(s.bsome, src3));
            }
        }

        if border_front_ok(f) && border_back_ok(s) {
            assert forall|c: int| 0 <= c < VOL && border_cell(c) implies (#[trigger] mask_bit(
                s1.bsome,
                c,
            )) && !mask_bit(s1.bliq, c) by {
                assert(mask_bit(f.fsome, c) && !mask_bit(f.fliq, c));
                assert(c != src3 && c != other);
            }
        }
    }
}

/// Nothing moves between a state and itself.
pub proof fn lemma_frame_refl(f: FrontMasks, s: TickState, i_2d: int)
    ensures
        step_frame(f, s, s, i_2d),
{
}

/// The step frame composes across two stretches of work on one column.
pub proof fn lemma_frame_trans(
    f: FrontMasks,
    s0: TickState,
    s1: TickState,
    s2: TickState,
    i_2d: int,
)
    requires
        step_frame(f, s0, s1, i_2d),
        step_frame(f, s1, s2, i_2d),
    ensures
        step_frame(f, s0, s2, i_2d),
{
    assert forall|c: int|
        0 <= c < VOL && !mask_bit(f.fsome, c) && (#[trigger] mask_bit(s0.bsome, c)) implies mask_bit(
        s2.bsome,
        c,
    ) by {
        assert(mask_bit(s1.bsome, c));
    }
    assert forall|c: int|
        0 <= c < VOL && spec_word_of(c) != i_2d && (#[trigger] mask_bit(s0.bliq, c)) implies mask_bit(
        s2.bliq,
        c,
    ) by {
        assert(mask_bit(s1.bliq, c));
    }
}

/// Liveness frames compose: across two stretches, only bits of either
/// stretch's moved set can lose their liquid flag.
pub proof fn lemma_live_trans(
    s0: TickState,
    s1: TickState,
    s2: TickState,
    i_2d: int,
    m1: u64,
    m2: u64,
)
    requires
        word_live_frame(s0, s1, i_2d, m1),
        word_live_frame(s1, s2, i_2d, m2),
    ensures
        word_live_frame(s0, s2, i_2d, m1 | m2),
{
    assert forall|x: u64|
        x < 64 && (#[trigger] bit_set(s0.bliq[i_2d], x)) && !bit_set(m1 | m2, x) implies bit_set(
        s2.bliq[i_2d],
        x,
    ) by {
        crate::bits::lemma_or_bit(m1, m2, x);
        assert(bit_set(s1.bliq[i_2d], x));
    }
}

/// The bits of `succ` are eligible uncontested moves in state `s`: live
/// liquid units whose destination is free in the front buffer and still
/// unclaimed in the back buffer.
pub open spec fn succ_elig(f: FrontMasks, s: TickState, succ: u64, i_2d: int, d: Delta) -> bool {
    forall|xb: u64|
        xb < 64 && #[trigger] bit_set(succ, xb) ==> {
            &&& 1 <= xb <= 62
            &&& mask_bit(f.fliq, spec_cell(i_2d, xb as int))
            &&& mask_bit(s.bliq, spec_cell(i_2d, xb as int))
            &&& !mask_bit(f.fsome, dst_cell(i_2d, xb as int, d))
            &&& !mask_bit(s.bsome, dst_cell(i_2d, xb as int, d))
        }
}

/// The bits of `fail` are eligible contested moves in state `s`: live
/// liquid units whose destination is free in the front buffer but already
/// claimed in the back buffer.
pub open spec fn fail_elig(f: FrontMasks, s: TickState, fail: u64, i_2d: int, d: Delta) -> bool {
    forall|xb: u64|
        xb < 64 && #[trigger] bit_set(fail, xb) ==> {
            &&& 1 <= xb <= 62
            &&& mask_bit(f.fliq, spec_cell(i_2d, xb as int))
            &&& mask_bit(s.bliq, spec_cell(i_2d, xb as int))
            &&& !mask_bit(f.fsome, dst_cell(i_2d, xb as int, d))
            &&& mask_bit(s.bsome, dst_cell(i_2d, xb as int, d))
        }
}

/// Committing the first `n` eligible bits keeps the invariant, keeps the
/// frame, clears only committed bits from the column's liquid word, and
/// leaves the bits yet to come eligible.
pub proof fn lemma_commit_upto(
    f: FrontMasks,
    s: TickState,
    succ: u64,
    i_2d: int,
    d: Delta,
    n: int,
)
    requires
        tick_inv(f, s),
        interior_word(i_2d),
        delta_ok(d),
        succ_elig(f, s, succ, i_2d, d),
        0 <= n <= 64,
    ensures
        ({
            let sn = commit_upto(s, succ, i_2d, d, n);
            &&& tick_inv(f, sn)
            &&& step_frame(f, s, sn, i_2d)
            &&& word_live_frame(s, sn, i_2d, succ)
            &&& forall|xb: u64|
                n <= xb < 64 && #[trigger] bit_set(succ, xb) ==> mask_bit(
                    sn.bliq,
                    spec_cell(i_2d, xb as int),
                ) && !mask_bit(sn.bsome, dst_cell(i_2d, xb as int, d))
        }),
    decreases n,
{
    if n <= 0 {
    } else {
        lemma_commit_upto(f, s, succ, i_2d, d, n - 1);
        let sp = commit_upto(s, succ, i_2d, d, n - 1);
        let sn = commit_upto(s, succ, i_2d, d, n);
        let xc = n - 1;
        if bit_set(succ, xc as u64) {
            let src3 = spec_cell(i_2d, xc);
            let dst3 = dst_cell(i_2d, xc, d);
            lemma_move_cells(i_2d, xc, d);
            lemma_apply_success(f, sp, i_2d, xc, d);
            assert(sn == apply_success(sp, i_2d, xc, d));

            // the frame from sp to sn
            assert forall|c: int|
                0 <= c < VOL && !mask_bit(f.fsome, c) && (#[trigger] mask_bit(
                    sp.bsome,
                    c,
                )) implies mask_bit(sn.bsome, c) by {
                assert(mask_bit(f.fliq, src3) ==> mask_bit(f.fsome, src3));
                if c != src3 && c != dst3 {
                }
            }
            assert forall|c: int|
                0 <= c < VOL && spec_word_of(c) != i_2d && (#[trigger] mask_bit(
                    sp.bliq,
                    c,
                )) implies mask_bit(sn.bliq, c) by {
                assert(spec_word_of(src3) == i_2d);
                if c != src3 && c != dst3 {
                }
            }
            assert(step_frame(f, sp, sn, i_2d));
            lemma_frame_trans(f, s, sp, sn, i_2d);

            // only committed bits leave the column's liquid word
            assert forall|x: u64|
                x < 64 && (#[trigger] bit_set(s.bliq[i_2d], x)) && !bit_set(
                    succ,
                    x,
                ) implies bit_set(sn.bliq[i_2d], x) by {
                assert(bit_set(sp.bliq[i_2d], x));
                let cx = spec_cell(i_2d, x as int);
                lemma_mask_bit_at(sp.bliq, i_2d, x as int);
                lemma_mask_bit_at(sn.bliq, i_2d, x as int);
                lemma_cell_compose(i_2d, x as int);
                assert(cx != src3);
                if cx == dst3 {
                    assert(mask_bit(sn.bliq, cx));
                } else {
                    assert(mask_bit(sn.bliq, cx) == mask_bit(sp.bliq, cx));
                }
            }

            // the bits yet to come stay eligible
            assert forall|xb: u64|
                n <= xb < 64 && #[trigger] bit_set(succ, xb) implies mask_bit(
                    sn.bliq,
                    spec_cell(i_2d, xb as int),
                ) && !mask_bit(sn.bsome, dst_cell(i_2d, xb as int, d)) by {
                lemma_move_cells(i_2d, xb as int, d);
                let sb = spec_cell(i_2d, xb as int);
                let db = dst_cell(i_2d, xb as int, d);
                assert(mask_bit(sp.bliq, sb) && !mask_bit(sp.bsome, db));
                assert(sb != src3);
                assert(mask_bit(f.fliq, sb) ==> mask_bit(f.fsome, sb));
                assert(sb != dst3);
                assert(db != src3);
                assert(db != dst3);
            }
        } else {
            assert(sn == sp);
            assert forall|x: u64|
                x < 64 && (#[trigger] bit_set(s.bliq[i_2d], x)) && !bit_set(
                    succ,
                    x,
                ) implies bit_set(sn.bliq[i_2d], x) by {
            }
        }
    }
}

/// Resolving the first `n` contested bits keeps the invariant and the
/// frame; the returned winners are contested bits, only winners leave the
/// column's liquid word, and the bits yet to come stay eligible.
pub proof fn lemma_resolve_upto(
    f: FrontMasks,
    s: TickState,
    fail: u64,
    i_2d: int,
    d: Delta,
    tick: u64,
    n: int,
)
    requires
        tick_inv(f, s),
        interior_word(i_2d),
        delta_ok(d),
        fail_elig(f, s, fail, i_2d, d),
        0 <= n <= 64,
    ensures
        ({
            let rn = resolve_upto(s, fail, i_2d, d, tick, n);
            &&& tick_inv(f, rn.0)
            &&& step_frame(f, s, rn.0, i_2d)
            &&& word_live_frame(s, rn.0, i_2d, rn.1)
            &&& forall|xb: u64| xb < 64 && #[trigger] bit_set(rn.1, xb) ==> bit_set(fail, xb)
            &&& forall|xb: u64|
                n <= xb < 64 && #[trigger] bit_set(fail, xb) ==> mask_bit(
                    rn.0.bliq,
                    spec_cell(i_2d, xb as int),
                ) && mask_bit(rn.0.bsome, dst_cell(i_2d, xb as int, d))
        }),
    decreases n,
{
    if n <= 0 {
        let rn = resolve_upto(s, fail, i_2d, d, tick, n);
        assert forall|xb: u64| xb < 64 && #[trigger] bit_set(rn.1, xb) implies bit_set(
            fail,
            xb,
        ) by {
            crate::bits::lemma_zero_word(fail, xb);
        }
    } else {
        lemma_resolve_upto(f, s, fail, i_2d, d, tick, n - 1);
        let rp = resolve_upto(s, fail, i_2d, d, tick, n - 1);
        let rn = resolve_upto(s, fail, i_2d, d, tick, n);
        let sp = rp.0;
        let xc = n - 1;
        if bit_set(fail, xc as u64) {
            let src3 = spec_cell(i_2d, xc);
            let dst3 = dst_cell(i_2d, xc, d);
            lemma_move_cells(i_2d, xc, d);
            lemma_apply_fail(f, sp, i_2d, xc, d, tick);
            let r1 = apply_fail(sp, i_2d, xc, d, tick);
            let sn = r1.0;
            assert(rn.0 == sn);
            let other = sp.prov[dst3] as int;

            if r1.1 {
                assert(rn.1 == rp.1 | (1u64 << (xc as u64)));
                assert(claimed(f, sp, dst3));
                assert(valid_claim(f, sp, dst3));
                assert(mask_bit(f.fliq, other) ==> mask_bit(f.fsome, other));

                // frame from sp to sn
                assert forall|c: int|
                    0 <= c < VOL && !mask_bit(f.fsome, c) && (#[trigger] mask_bit(
                        sp.bsome,
                        c,
                    )) implies mask_bit(sn.bsome, c) by {
                    assert(mask_bit(f.fliq, src3) ==> mask_bit(f.fsome, src3));
                    if c != src3 && c != other {
                    }
                }
                assert forall|c: int|
                    0 <= c < VOL && spec_word_of(c) != i_2d && (#[trigger] mask_bit(
                        sp.bliq,
                        c,
                    )) implies mask_bit(sn.bliq, c) by {
                    assert(spec_word_of(src3) == i_2d);
                    if c != src3 && c != other {
                    }
                }
                assert(step_frame(f, sp, sn, i_2d));
                lemma_frame_trans(f, s, sp, sn, i_2d);

                // only winners leave the column's liquid word
                assert forall|x: u64|
                    x < 64 && (#[trigger] bit_set(s.bliq[i_2d], x)) && !bit_set(
                        rn.1,
                        x,
                    ) implies bit_set(sn.bliq[i_2d], x) by {
                    crate::bits::lemma_or_bit(rp.1, 1u64 << (xc as u64), x);
                    assert(!bit_set(rp.1, x));
                    assert(bit_set(sp.bliq[i_2d], x));
                    crate::bits::lemma_single_bit(xc as u64, x);
                    assert(x != xc as u64);
                    let cx = spec_cell(i_2d, x as int);
                    lemma_mask_bit_at(sp.bliq, i_2d, x as int);
                    lemma_mask_bit_at(sn.bliq, i_2d, x as int);
                    lemma_cell_compose(i_2d, x as int);
                    assert(cx != src3);
                    if cx == other {
                        assert(mask_bit(sn.bliq, cx));
                    } else {
                        assert(mask_bit(sn.bliq, cx) == mask_bit(sp.bliq, cx));
                    }
                }

                // winners so far are contested bits
                assert forall|xb: u64| xb < 64 && #[trigger] bit_set(rn.1, xb) implies bit_set(
                    fail,
                    xb,
                ) by {
                    crate::bits::lemma_or_bit(rp.1, 1u64 << (xc as u64), xb);
                    crate::bits::lemma_single_bit(xc as u64, xb);
                }

                // the bits yet to come stay eligible
                assert forall|xb: u64|
                    n <= xb < 64 && #[trigger] bit_set(fail, xb) implies mask_bit(
                        sn.bliq,
                        spec_cell(i_2d, xb as int),
                    ) && mask_bit(sn.bsome, dst_cell(i_2d, xb as int, d)) by {
                    lemma_move_cells(i_2d, xb as int, d);
                    let sb = spec_cell(i_2d, xb as int);
                    let db = dst_cell(i_2d, xb as int, d);
                    assert(mask_bit(sp.bliq, sb) && mask_bit(sp.bsome, db));
                    assert(sb != src3);
                    assert(!mask_bit(sp.bsome, other));
                    assert(db != other);
                    assert(db != src3);
                    if sb == other {
                        assert(mask_bit(sn.bliq, sb));
                    }
                }
            } else {
                assert(sn == sp);
                assert(rn.1 == rp.1);
            }
        } else {
            assert(rn == rp);
        }
    }
}

/// The split of a move attempt's candidate set into committing and
/// contested bits is sound: committing bits are eligible uncontested
/// moves, contested bits are eligible contested moves, and the two sets
/// are disjoint.
pub proof fn lemma_elig_words(
    f: FrontMasks,
    s: TickState,
    group: u64,
    i_2d: int,
    d: Delta,
    prs: Seq<crate::chunk::liquid_tick::action::PreReq>,
)
    requires
        tick_inv(f, s),
        interior_word(i_2d),
        delta_ok(d),
        group_live(f, s, group, i_2d),
    ensures
        ({
            let pm = prereq_mask(f, i_2d, prs);
            let dw = dst_word(i_2d, d);
            let tryw = group & pm & !inv_shift(f.fsome[dw], d.dx as int);
            let succ = tryw & !inv_shift(s.bsome[dw], d.dx as int);
            let fail = tryw & !succ;
            &&& succ_elig(f, s, succ, i_2d, d)
            &&& fail_elig(f, s, fail, i_2d, d)
            &&& forall|xb: u64| xb < 64 && #[trigger] bit_set(fail, xb) ==> !bit_set(succ, xb)
        }),
{
    let pm = prereq_mask(f, i_2d, prs);
    let dw = dst_word(i_2d, d);
    let fshift = inv_shift(f.fsome[dw], d.dx as int);
    let bshift = inv_shift(s.bsome[dw], d.dx as int);
    let tryw = group & pm & !fshift;
    let succ = tryw & !bshift;
    let fail = tryw & !succ;

    assert forall|xb: u64| xb < 64 && #[trigger] bit_set(tryw, xb) implies {
        &&& 1 <= xb <= 62
        &&& mask_bit(f.fliq, spec_cell(i_2d, xb as int))
        &&& mask_bit(s.bliq, spec_cell(i_2d, xb as int))
        &&& !mask_bit(f.fsome, dst_cell(i_2d, xb as int, d))
    } by {
        crate::bits::lemma_and_bit(group & pm, !fshift, xb);
        crate::bits::lemma_not_bit(fshift, xb);
        crate::bits::lemma_and_bit(group, pm, xb);
        assert(bit_set(group, xb));
        assert(1 <= xb <= 62);
        lemma_move_cells(i_2d, xb as int, d);
        lemma_mask_bit_at(f.fliq, i_2d, xb as int);
        lemma_mask_bit_at(s.bliq, i_2d, xb as int);
        if d.dx == 0 {
            crate::bits::lemma_shift0(f.fsome[dw]);
        } else if d.dx == 1 {
            crate::bits::lemma_shr1_bit(f.fsome[dw], xb);
        } else {
            crate::bits::lemma_shl1_bit(f.fsome[dw], xb);
        }
        assert(!bit_set(f.fsome[dw], (xb as int + d.dx) as u64));
        lemma_mask_bit_at(f.fsome, dw, xb as int + d.dx);
    }

    assert forall|xb: u64| xb < 64 && #[trigger] bit_set(succ, xb) implies {
        &&& bit_set(tryw, xb)
        &&& !mask_bit(s.bsome, dst_cell(i_2d, xb as int, d))
    } by {
        crate::bits::lemma_and_bit(tryw, !bshift, xb);
        crate::bits::lemma_not_bit(bshift, xb);
        assert(1 <= xb <= 62);
        lemma_move_cells(i_2d, xb as int, d);
        if d.dx == 0 {
            crate::bits::lemma_shift0(s.bsome[dw]);
        } else if d.dx == 1 {
            crate::bits::lemma_shr1_bit(s.bsome[dw], xb);
        } else {
            crate::bits::lemma_shl1_bit(s.bsome[dw], xb);
        }
        assert(!bit_set(s.bsome[dw], (xb as int + d.dx) as u64));
        lemma_mask_bit_at(s.bsome, dw, xb as int + d.dx);
    }
    assert(succ_elig(f, s, succ, i_2d, d));

    assert forall|xb: u64| xb < 64 && #[trigger] bit_set(fail, xb) implies {
        &&& bit_set(tryw, xb)
        &&& !bit_set(succ, xb)
        &&& mask_bit(s.bsome, dst_cell(i_2d, xb as int, d))
    } by {
        crate::bits::lemma_and_bit(tryw, !succ, xb);
        crate::bits::lemma_not_bit(succ, xb);
        crate::bits::lemma_and_bit(tryw, !bshift, xb);
        crate::bits::lemma_not_bit(bshift, xb);
        assert(bit_set(bshift, xb));
        assert(1 <= xb <= 62);
        lemma_move_cells(i_2d, xb as int, d);
        if d.dx == 0 {
            crate::bits::lemma_shift0(s.bsome[dw]);
        } else if d.dx == 1 {
            crate::bits::lemma_shr1_bit(s.bsome[dw], xb);
        } else {
            crate::bits::lemma_shl1_bit(s.bsome[dw], xb);
        }
        assert(bit_set(s.bsome[dw], (xb as int + d.dx) as u64));
        lemma_mask_bit_at(s.bsome, dw, xb as int + d.dx);
    }
    assert(fail_elig(f, s, fail, i_2d, d));
}

/// The contested bits of a move attempt are still in place after the
/// attempt's uncontested bits have committed.
pub proof fn lemma_fail_after_commit(
    f: FrontMasks,
    s: TickState,
    succ: u64,
    fail: u64,
    i_2d: int,
    d: Delta,
)
    requires
        tick_inv(f, s),
        interior_word(i_2d),
        delta_ok(d),
        succ_elig(f, s, succ, i_2d, d),
        fail_elig(f, s, fail, i_2d, d),
        forall|xb: u64| xb < 64 && #[trigger] bit_set(fail, xb) ==> !bit_set(succ, xb),
    ensures
        fail_elig(f, commit_upto(s, succ, i_2d, d, 64), fail, i_2d, d),
{
    lemma_commit_upto(f, s, succ, i_2d, d, 64);
    let s1 = commit_upto(s, succ, i_2d, d, 64);
    assert forall|xb: u64| xb < 64 && #[trigger] bit_set(fail, xb) implies {
        &&& 1 <= xb <= 62
        &&& mask_bit(f.fliq, spec_cell(i_2d, xb as int))
        &&& mask_bit(s1.bliq, spec_cell(i_2d, xb as int))
        &&& !mask_bit(f.fsome, dst_cell(i_2d, xb as int, d))
        &&& mask_bit(s1.bsome, dst_cell(i_2d, xb as int, d))
    } by {
        lemma_move_cells(i_2d, xb as int, d);
        lemma_mask_bit_at(s.bliq, i_2d, xb as int);
        assert(bit_set(s.bliq[i_2d], xb));
        assert(bit_set(s1.bliq[i_2d], xb));
        lemma_mask_bit_at(s1.bliq, i_2d, xb as int);
        assert(mask_bit(s.bsome, dst_cell(i_2d, xb as int, d)));
    }
}

/// One move attempt keeps the invariant and the frame, and clears liquid
/// flags only for bits it reports as moved.
pub proof fn lemma_try_move(
    f: FrontMasks,
    s: TickState,
    group: u64,
    i_2d: int,
    tick: u64,
    d: Delta,
    prs: Seq<crate::chunk::liquid_tick::action::PreReq>,
)
    requires
        tick_inv(f, s),
        interior_word(i_2d),
        delta_ok(d),
        group_live(f, s, group, i_2d),
    ensures
        ({
            let r = spec_try_move(f, s, group, i_2d, tick, d, prs);
            &&& tick_inv(f, r.0)
            &&& step_frame(f, s, r.0, i_2d)
            &&& word_live_frame(s, r.0, i_2d, r.1)
        }),
{
    let pm = prereq_mask(f, i_2d, prs);
    let dw = dst_word(i_2d, d);
    let tryw = group & pm & !inv_shift(f.fsome[dw], d.dx as int);
    let succ = tryw & !inv_shift(s.bsome[dw], d.dx as int);
    let fail = tryw & !succ;
    lemma_elig_words(f, s, group, i_2d, d, prs);
    lemma_commit_upto(f, s, succ, i_2d, d, 64);
    let s1 = commit_upto(s, succ, i_2d, d, 64);
    lemma_fail_after_commit(f, s, succ, fail, i_2d, d);
    lemma_resolve_upto(f, s1, fail, i_2d, d, tick, 64);
    let r2 = resolve_upto(s1, fail, i_2d, d, tick, 64);
    lemma_frame_trans(f, s, s1, r2.0, i_2d);
    lemma_live_trans(s, s1, r2.0, i_2d, succ, r2.1);
}

/// Committing an empty bit set changes nothing.
pub proof fn lemma_commit_upto_zero(s: TickState, i_2d: int, d: Delta, n: int)
    requires
        0 <= n <= 64,
    ensures
        commit_upto(s, 0u64, i_2d, d, n) == s,
    decreases n,
{
    if n > 0 {
        lemma_commit_upto_zero(s, i_2d, d, n - 1);
        crate::bits::lemma_zero_word(0u64, (n - 1) as u64);
    }
}

/// Resolving an empty bit set changes nothing and reports no winner.
pub proof fn lemma_resolve_upto_zero(s: TickState, i_2d: int, d: Delta, tick: u64, n: int)
    requires
        0 <= n <= 64,
    ensures
        resolve_upto(s, 0u64, i_2d, d, tick, n) == (s, 0u64),
    decreases n,
{
    if n > 0 {
        lemma_resolve_upto_zero(s, i_2d, d, tick, n - 1);
        crate::bits::lemma_zero_word(0u64, (n - 1) as u64);
    }
}

/// A move attempt on an empty candidate set changes nothing and moves
/// nothing.
pub proof fn lemma_try_move_zero(
    f: FrontMasks,
    s: TickState,
    i_2d: int,
    tick: u64,
    d: Delta,
    prs: Seq<crate::chunk::liquid_tick::action::PreReq>,
)
    ensures
        spec_try_move(f, s, 0u64, i_2d, tick, d, prs) == (s, 0u64),
{
    let pm = prereq_mask(f, i_2d, prs);
    let dw = dst_word(i_2d, d);
    let fshift = inv_shift(f.fsome[dw], d.dx as int);
    let bshift = inv_shift(s.bsome[dw], d.dx as int);
    crate::bits::lemma_zero_word(pm, 0);
    crate::bits::lemma_zero_word(!fshift, 0);
    crate::bits::lemma_zero_word(!bshift, 0);
    let tryw = 0u64 & pm & !fshift;
    assert(tryw == 0u64);
    let succ = tryw & !bshift;
    assert(succ == 0u64);
    crate::bits::lemma_zero_word(!succ, 0);
    let fail = tryw & !succ;
    assert(fail == 0u64);
    lemma_commit_upto_zero(s, i_2d, d, 64);
    lemma_resolve_upto_zero(s, i_2d, d, tick, 64);
    crate::bits::lemma_zero_word(0u64, 0);
    assert(spec_try_move(f, s, 0u64, i_2d, tick, d, prs) == (s, 0u64));
}

/// The grouped sub-passes of one row keep the invariant and the frame, and
/// the remaining bit set always stands for live liquid units.
pub proof fn lemma_row_upto(
    f: FrontMasks,
    s: TickState,
    liquid: u64,
    i_2d: int,
    tick: u64,
    k: int,
)
    requires
        tick_inv(f, s),
        interior_word(i_2d),
        group_live(f, s, liquid, i_2d),
        0 <= k <= 48,
    ensures
        ({
            let r = row_upto(f, s, liquid, i_2d, tick, k);
            &&& tick_inv(f, r.0)
            &&& step_frame(f, s, r.0, i_2d)
            &&& group_live(f, r.0, r.1, i_2d)
        }),
    decreases k,
{
    if k <= 0 {
    } else {
        lemma_row_upto(f, s, liquid, i_2d, tick, k - 1);
        let r0 = row_upto(f, s, liquid, i_2d, tick, k - 1);
        let kk = k - 1;
        let t = kk / 16;
        let i = (kk % 16) / 4;
        let j = kk % 4;
        assert(0 <= t < 3 && 0 <= i < 4 && 0 <= j < 4);
        crate::chunk::liquid_tick::action::lemma_catalog_ok(t, j);
        let gm = group_mask(tick, i_2d, (i + j) % 4);
        let group = r0.1 & gm;
        assert forall|xb: u64| xb < 64 && #[trigger] bit_set(group, xb) implies {
            &&& 1 <= xb <= 62
            &&& bit_set(f.fliq[i_2d], xb)
            &&& bit_set(r0.0.bliq[i_2d], xb)
        } by {
            crate::bits::lemma_and_bit(r0.1, gm, xb);
        }
        let d = spec_action_delta(t, j);
        let prs = spec_action_prereqs(t, j);
        lemma_try_move(f, r0.0, group, i_2d, tick, d, prs);
        let r1 = spec_try_move(f, r0.0, group, i_2d, tick, d, prs);
        lemma_frame_trans(f, s, r0.0, r1.0, i_2d);
        assert forall|xb: u64| xb < 64 && #[trigger] bit_set(r0.1 & !r1.1, xb) implies {
            &&& 1 <= xb <= 62
            &&& bit_set(f.fliq[i_2d], xb)
            &&& bit_set(r1.0.bliq[i_2d], xb)
        } by {
            crate::bits::lemma_and_bit(r0.1, !r1.1, xb);
            crate::bits::lemma_not_bit(r1.1, xb);
            assert(bit_set(r0.0.bliq[i_2d], xb));
        }
    }
}

/// The grouped sub-passes do nothing once the remaining bit set is empty.
pub proof fn lemma_row_upto_zero(f: FrontMasks, s: TickState, i_2d: int, tick: u64, k: int)
    requires
        0 <= k <= 48,
    ensures
        row_upto(f, s, 0u64, i_2d, tick, k) == (s, 0u64),
    decreases k,
{
    if k > 0 {
        lemma_row_upto_zero(f, s, i_2d, tick, k - 1);
        let kk = k - 1;
        let t = kk / 16;
        let i = (kk % 16) / 4;
        let j = kk % 4;
        let gm = group_mask(tick, i_2d, (i + j) % 4);
        crate::bits::lemma_zero_word(gm, 0);
        lemma_try_move_zero(f, s, i_2d, tick, spec_action_delta(t, j), spec_action_prereqs(t, j));
        crate::bits::lemma_zero_word(!0u64, 0);
    }
}

/// The liquid units of a column are all still in place: nothing of this
/// tick has touched them yet.
pub open spec fn row_fresh(f: FrontMasks, s: TickState, i_2d: int) -> bool {
    forall|x: u64|
        1 <= x <= 62 && #[trigger] bit_set(f.fliq[i_2d], x) ==> bit_set(s.bliq[i_2d], x)
}

/// Processing one fresh row keeps the invariant and the frame.
pub proof fn lemma_tick_row(f: FrontMasks, s: TickState, i_2d: int, tick: u64)
    requires
        tick_inv(f, s),
        interior_word(i_2d),
        row_fresh(f, s, i_2d),
    ensures
        ({
            let s1 = spec_tick_row(f, s, i_2d, tick);
            &&& tick_inv(f, s1)
            &&& step_frame(f, s, s1, i_2d)
        }),
{
    let liquid0 = f.fliq[i_2d] & !crate::bits::PAD_MASK;
    if liquid0 == 0 {
        lemma_frame_refl(f, s, i_2d);
    } else {
        assert forall|xb: u64| xb < 64 && #[trigger] bit_set(liquid0, xb) implies {
            &&& 1 <= xb <= 62
            &&& bit_set(f.fliq[i_2d], xb)
            &&& bit_set(s.bliq[i_2d], xb)
        } by {
            crate::bits::lemma_pad_bit(f.fliq[i_2d], xb);
        }
        let d0 = spec_down_delta();
        let e0 = Seq::<crate::chunk::liquid_tick::action::PreReq>::empty();
        lemma_try_move(f, s, liquid0, i_2d, tick, d0, e0);
        let r1 = spec_try_move(f, s, liquid0, i_2d, tick, d0, e0);
        let l1 = liquid0 & !r1.1;
        assert forall|xb: u64| xb < 64 && #[trigger] bit_set(l1, xb) implies {
            &&& 1 <= xb <= 62
            &&& bit_set(f.fliq[i_2d], xb)
            &&& bit_set(r1.0.bliq[i_2d], xb)
        } by {
            crate::bits::lemma_and_bit(liquid0, !r1.1, xb);
            crate::bits::lemma_not_bit(r1.1, xb);
            assert(bit_set(s.bliq[i_2d], xb));
        }
        lemma_row_upto(f, r1.0, l1, i_2d, tick, 48);
        let r2 = row_upto(f, r1.0, l1, i_2d, tick, 48);
        lemma_frame_trans(f, s, r1.0, r2.0, i_2d);
    }
}

/// The column visited at scan position `q` is interior, and its
/// coordinates recover `q`.
pub proof fn lemma_scan_word(q: int)
    requires
        0 <= q < scan_len(),
    ensures
        interior_word(scan_word(q)),
        0 <= scan_word(q) < AREA,
        spec_col_y(scan_word(q)) == 1 + q % 62,
        spec_col_z(scan_word(q)) == 1 + q / 62,
{
    lemma_col_compose(1 + q % 62, 1 + q / 62);
}

/// Every row at scan position `q` or later is still fresh.
pub open spec fn rows_fresh(f: FrontMasks, s: TickState, q: int) -> bool {
    forall|p: int| q <= p < scan_len() ==> row_fresh(f, s, #[trigger] scan_word(p))
}

/// Processing the first `q` rows of the scan keeps the invariant, the
/// liquid count, and the border, and leaves the remaining rows fresh.
pub proof fn lemma_rows_upto(f: FrontMasks, s: TickState, tick: u64, q: int)
    requires
        tick_inv(f, s),
        rows_fresh(f, s, 0),
        0 <= q <= scan_len(),
    ensures
        ({
            let sq = rows_upto(f, s, tick, q);
            &&& tick_inv(f, sq)
            &&& count_liquid(sq.voxels) == count_liquid(s.voxels)
            &&& (border_front_ok(f) && border_back_ok(s) ==> border_back_ok(sq))
            &&& rows_fresh(f, sq, q)
        }),
    decreases q,
{
    if q <= 0 {
    } else {
        lemma_rows_upto(f, s, tick, q - 1);
        let sp = rows_upto(f, s, tick, q - 1);
        let w = scan_word(q - 1);
        lemma_scan_word(q - 1);
        assert(row_fresh(f, sp, w));
        lemma_tick_row(f, sp, w, tick);
        let sq = spec_tick_row(f, sp, w, tick);
        assert forall|p: int| q <= p < scan_len() implies row_fresh(f, sq, #[trigger] scan_word(
            p,
        )) by {
            lemma_scan_word(p);
            let wp = scan_word(p);
            assert(wp != w) by {
                if wp == w {
                    assert(1 + p % 62 == 1 + (q - 1) % 62);
                    assert(1 + p / 62 == 1 + (q - 1) / 62);
                    assert(p == 62 * (p / 62) + p % 62);
                    assert(q - 1 == 62 * ((q - 1) / 62) + (q - 1) % 62);
                }
            }
            assert(row_fresh(f, sp, wp));
            assert forall|x: u64|
                1 <= x <= 62 && #[trigger] bit_set(f.fliq[wp], x) implies bit_set(
                sq.bliq[wp],
                x,
            ) by {
                assert(bit_set(sp.bliq[wp], x));
                let cx = spec_cell(wp, x as int);
                lemma_cell_compose(wp, x as int);
                lemma_mask_bit_at(sp.bliq, wp, x as int);
                lemma_mask_bit_at(sq.bliq, wp, x as int);
                assert(spec_word_of(cx) != w);
                assert(mask_bit(sp.bliq, cx));
                assert(mask_bit(sq.bliq, cx));
            }
        }
    }
}

} // verus!
