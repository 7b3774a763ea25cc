//! Properties of the engine that relate several operations or hold of every
//! reachable board.
use vstd::prelude::*;
use crate::board::{BoardModel, Outcome, all_safe_cleared, cleared};
use crate::cell::Status;

verus! {

/// On a well-formed board no cleared cell hides a mine.
pub proof fn lemma_cleared_cells_are_safe(b: BoardModel)
    requires
        b.wf(),
    ensures
        forall|i: int| 0 <= i < b.size() && #[trigger] cleared(b.cells, i) ==> !b.cells[i].mine,
{
}

/// A reveal that reports a win leaves every cell without a mine cleared.
pub proof fn lemma_win_clears_every_safe_cell(before: BoardModel, after: BoardModel, x: int, y: int)
    requires
        before.reveal_result(after, x, y, Outcome::Win),
    ensures
        all_safe_cleared(after.cells),
{
}

/// The first reveal of an unknown cell never hits a mine, wherever it is aimed
/// and however the mines were laid out.
pub proof fn lemma_first_reveal_never_hits(
    before: BoardModel,
    after: BoardModel,
    x: int,
    y: int,
    r: Outcome,
)
    requires
        before.wf(),
        before.first_move,
        before.in_bounds(x, y),
        before.reveal_result(after, x, y, r),
    ensures
        r != Outcome::MineHit,
{
}

/// Revealing the same cell again, after a reveal that did not hit a mine,
/// does nothing.
pub proof fn lemma_reveal_idempotent(
    b0: BoardModel,
    b1: BoardModel,
    b2: BoardModel,
    x: int,
    y: int,
    r1: Outcome,
    r2: Outcome,
)
    requires
        b0.wf(),
        b0.in_bounds(x, y),
        b0.reveal_result(b1, x, y, r1),
        r1 != Outcome::MineHit,
        b1.reveal_result(b2, x, y, r2),
    ensures
        r2 == Outcome::NoOp,
        b2 == b1,
{
    if b0.status_at(x, y) == Status::Unknown {
        assert(b1.status_at(x, y) == Status::Cleared);
    }
}

} // verus!
