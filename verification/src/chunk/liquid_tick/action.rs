//! The move catalog: the candidate relocations a liquid cell may attempt
//! each tick, grouped into priority tiers.
//!
//! Every move is a 3d delta plus zero or more prerequisites on neighboring
//! cells. The tiers, in the order they are attempted: the straight fall
//! (tried first, outside the groups), falls combined with one horizontal
//! step, full diagonal falls, and lateral slides at the same height.

use vstd::prelude::*;

verus! {

/// A relocation offset: how far a liquid unit moves along each axis.
#[derive(Debug, Clone, Copy, PartialEq, Eq, Structural)]
pub struct Delta {
    pub dx: isize,
    pub dy: isize,
    pub dz: isize,
}

impl Delta {
    /// The offset between the linear 3d indices of the source cell and the
    /// destination cell.
    pub open spec fn spec_i_3d(&self) -> int {
        self.dx + self.dy * 64 + self.dz * 4096
    }

    /// The offset between the linear column indices of the source column
    /// and the destination column.
    pub open spec fn spec_i_2d(&self) -> int {
        self.dy + self.dz * 64
    }

    /// The delta decomposed into the linear 3d index offset.
    pub fn i_3d(&self) -> (r: isize)
        requires
            -64 <= self.dx <= 64,
            -64 <= self.dy <= 64,
            -64 <= self.dz <= 64,
        ensures
            r == self.spec_i_3d(),
    {
        self.dx + self.dy * 64 + self.dz * 4096
    }

    /// The delta decomposed into the in-column bit shift and the linear
    /// column index offset.
    pub fn x_and_i_2d(&self) -> (r: (isize, isize))
        requires
            -64 <= self.dy <= 64,
            -64 <= self.dz <= 64,
        ensures
            r.0 == self.dx,
            r.1 == self.spec_i_2d(),
    {
        (self.dx, self.dy + self.dz * 64)
    }
}

/// A prerequisite on a neighboring cell: the cell at `delta` from the
/// moving cell must be occupied (`not == false`) or empty (`not == true`)
/// in the front buffer for the move to be allowed.
#[derive(Debug, Clone, Copy, PartialEq, Eq, Structural)]
pub struct PreReq {
    pub not: bool,
    pub delta: Delta,
}

/// A candidate move: its delta and its prerequisites.
pub struct Action {
    pub delta: Delta,
    pub prereqs: Vec<PreReq>,
}

/// The delta of a catalog move: a unit step sideways at most, never upward,
/// and never the zero offset.
pub open spec fn delta_ok(d: Delta) -> bool {
    &&& -1 <= d.dx <= 1
    &&& -1 <= d.dy <= 0
    &&& -1 <= d.dz <= 1
    &&& !(d.dx == 0 && d.dy == 0 && d.dz == 0)
}

/// The delta of a catalog prerequisite: a unit step at the same height.
pub open spec fn prereq_ok(p: PreReq) -> bool {
    &&& -1 <= p.delta.dx <= 1
    &&& p.delta.dy == 0
    &&& -1 <= p.delta.dz <= 1
}

/// A well-formed catalog entry.
pub open spec fn action_ok(d: Delta, prs: Seq<PreReq>) -> bool {
    &&& delta_ok(d)
    &&& forall|k: int| 0 <= k < prs.len() ==> prereq_ok(#[trigger] prs[k])
}

/// A prerequisite that the neighbor at the given offset is empty.
pub fn none(dx: isize, dy: isize, dz: isize) -> (p: PreReq)
    ensures
        p == (PreReq { not: true, delta: Delta { dx, dy, dz } }),
{
    PreReq { not: true, delta: Delta { dx, dy, dz } }
}

/// A prerequisite that the neighbor at the given offset is occupied.
pub fn some(dx: isize, dy: isize, dz: isize) -> (p: PreReq)
    ensures
        p == (PreReq { not: false, delta: Delta { dx, dy, dz } }),
{
    PreReq { not: false, delta: Delta { dx, dy, dz } }
}

/// A catalog entry from its delta and prerequisites.
pub fn action(dx: isize, dy: isize, dz: isize, prereqs: Vec<PreReq>) -> (a: Action)
    ensures
        a.delta == (Delta { dx, dy, dz }),
        a.prereqs == prereqs,
{
    Action { delta: Delta { dx, dy, dz }, prereqs }
}

/// A delta from mathematical components.
pub open spec fn d3(dx: int, dy: int, dz: int) -> Delta {
    Delta { dx: dx as isize, dy: dy as isize, dz: dz as isize }
}

/// An emptiness prerequisite from mathematical components.
pub open spec fn pr_none(dx: int, dy: int, dz: int) -> PreReq {
    PreReq { not: true, delta: d3(dx, dy, dz) }
}

/// An occupancy prerequisite from mathematical components.
pub open spec fn pr_some(dx: int, dy: int, dz: int) -> PreReq {
    PreReq { not: false, delta: d3(dx, dy, dz) }
}

/// The straight fall: one step down, no prerequisite.
pub open spec fn spec_down_delta() -> Delta {
    d3(0, -1, 0)
}

/// The delta of move `j` of tier `t`.
pub open spec fn spec_action_delta(t: int, j: int) -> Delta {
    if t == 0 {
        // fall combined with one horizontal step
        if j == 0 {
            d3(1, -1, 0)
        } else if j == 1 {
            d3(-1, -1, 0)
        } else if j == 2 {
            d3(0, -1, 1)
        } else {
            d3(0, -1, -1)
        }
    } else if t == 1 {
        // full diagonal fall
        if j == 0 {
            d3(1, -1, 1)
        } else if j == 1 {
            d3(-1, -1, 1)
        } else if j == 2 {
            d3(1, -1, -1)
        } else {
            d3(-1, -1, -1)
        }
    } else {
        // lateral slide at the same height
        if j == 0 {
            d3(1, 0, 0)
        } else if j == 1 {
            d3(-1, 0, 0)
        } else if j == 2 {
            d3(0, 0, 1)
        } else {
            d3(0, 0, -1)
        }
    }
}

/// The prerequisites of move `j` of tier `t`.
pub open spec fn spec_action_prereqs(t: int, j: int) -> Seq<PreReq> {
    if t == 0 {
        // the straight horizontal neighbor must be free, so the fall does
        // not cut through a corner
        if j == 0 {
            seq![pr_none(1, 0, 0)]
        } else if j == 1 {
            seq![pr_none(-1, 0, 0)]
        } else if j == 2 {
            seq![pr_none(0, 0, 1)]
        } else {
            seq![pr_none(0, 0, -1)]
        }
    } else if t == 1 {
        // both cardinal neighbors and the straight diagonal must be free
        if j == 0 {
            seq![pr_none(1, 0, 0), pr_none(0, 0, 1), pr_none(1, 0, 1)]
        } else if j == 1 {
            seq![pr_none(-1, 0, 0), pr_none(0, 0, 1), pr_none(-1, 0, 1)]
        } else if j == 2 {
            seq![pr_none(1, 0, 0), pr_none(0, 0, -1), pr_none(1, 0, -1)]
        } else {
            seq![pr_none(-1, 0, 0), pr_none(0, 0, -1), pr_none(-1, 0, -1)]
        }
    } else {
        // a slide needs support: the cell one step further out must be
        // occupied
        if j == 0 {
            seq![pr_some(-1, 0, 0)]
        } else if j == 1 {
            seq![pr_some(1, 0, 0)]
        } else if j == 2 {
            seq![pr_some(0, 0, -1)]
        } else {
            seq![pr_some(0, 0, 1)]
        }
    }
}

/// Every entry of the catalog is well formed.
pub proof fn lemma_catalog_ok(t: int, j: int)
    requires
        0 <= t < 3,
        0 <= j < 4,
    ensures
        action_ok(spec_action_delta(t, j), spec_action_prereqs(t, j)),
        action_ok(spec_down_delta(), Seq::<PreReq>::empty()),
{
}

/// The straight fall, tried on the whole remaining bit set before the
/// grouped tiers.
pub fn down_action() -> (a: Action)
    ensures
        a.delta == spec_down_delta(),
        a.prereqs@ == Seq::<PreReq>::empty(),
{
    let a = action(0, -1, 0, Vec::new());
    proof {
        assert(a.prereqs@ =~= Seq::<PreReq>::empty());
    }
    a
}

/// Move `j` of grouped tier `t`.
pub fn action_at(t: usize, j: usize) -> (a: Action)
    requires
        t < 3,
        j < 4,
    ensures
        a.delta == spec_action_delta(t as int, j as int),
        a.prereqs@ == spec_action_prereqs(t as int, j as int),
{
    let a = if t == 0 {
        if j == 0 {
            action(1, -1, 0, vec![none(1, 0, 0)])
        } else if j == 1 {
            action(-1, -1, 0, vec![none(-1, 0, 0)])
        } else if j == 2 {
            action(0, -1, 1, vec![none(0, 0, 1)])
        } else {
            action(0, -1, -1, vec![none(0, 0, -1)])
        }
    } else if t == 1 {
        if j == 0 {
            action(1, -1, 1, vec![none(1, 0, 0), none(0, 0, 1), none(1, 0, 1)])
        } else if j == 1 {
            action(-1, -1, 1, vec![none(-1, 0, 0), none(0, 0, 1), none(-1, 0, 1)])
        } else if j == 2 {
            action(1, -1, -1, vec![none(1, 0, 0), none(0, 0, -1), none(1, 0, -1)])
        } else {
            action(-1, -1, -1, vec![none(-1, 0, 0), none(0, 0, -1), none(-1, 0, -1)])
        }
    } else {
        if j == 0 {
            action(1, 0, 0, vec![some(-1, 0, 0)])
        } else if j == 1 {
            action(-1, 0, 0, vec![some(1, 0, 0)])
        } else if j == 2 {
            action(0, 0, 1, vec![some(0, 0, -1)])
        } else {
            action(0, 0, -1, vec![some(0, 0, 1)])
        }
    };
    proof {
        assert(a.prereqs@ =~= spec_action_prereqs(t as int, j as int));
    }
    a
}

} // verus!
