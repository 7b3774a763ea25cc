//! A single board cell, and counts over sequences of cells.
use vstd::prelude::*;

verus! {

/// How a cell is marked for the player.
#[derive(Clone, Copy, Debug, PartialEq, Eq, Structural)]
pub enum Status {
    /// Not yet revealed (the initial state).
    Unknown,
    /// Marked by the player as a suspected mine.
    Flagged,
    /// Revealed.
    Cleared,
}

/// One position of the board: whether it hides a mine, and its marking.
#[derive(Clone, Copy, Debug, PartialEq, Eq, Structural)]
pub struct Cell {
    pub mine: bool,
    pub status: Status,
}

/// The number of cells of `cells` that hide a mine.
pub open spec fn count_mines(cells: Seq<Cell>) -> nat
    decreases cells.len(),
{
    if cells.len() == 0 {
        0
    } else {
        count_mines(cells.drop_last()) + if cells.last().mine { 1nat } else { 0nat }
    }
}

/// The number of positions at which two boards of cells differ in status.
pub open spec fn status_changes(before: Seq<Cell>, after: Seq<Cell>) -> nat
    decreases before.len(),
{
    if before.len() == 0 {
        0
    } else {
        status_changes(before.drop_last(), after.take(before.len() - 1))
            + if before.last().status != after[before.len() - 1].status { 1nat } else { 0nat }
    }
}

/// A sequence of cells without mines counts none.
pub proof fn lemma_count_mines_none(cells: Seq<Cell>)
    requires
        forall|i: int| 0 <= i < cells.len() ==> !(#[trigger] cells[i]).mine,
    ensures
        count_mines(cells) == 0,
    decreases cells.len(),
{
    if cells.len() > 0 {
        lemma_count_mines_none(cells.drop_last());
    }
}

/// Replacing one cell changes the count by what leaves and what arrives.
pub proof fn lemma_count_mines_update(cells: Seq<Cell>, i: int, c: Cell)
    requires
        0 <= i < cells.len(),
    ensures
        count_mines(cells.update(i, c)) + (if cells[i].mine { 1int } else { 0int })
            == count_mines(cells) + (if c.mine { 1int } else { 0int }),
    decreases cells.len(),
{
    let u = cells.update(i, c);
    if i == cells.len() - 1 {
        assert(u.drop_last() =~= cells.drop_last());
    } else {
        assert(u.drop_last() =~= cells.drop_last().update(i, c));
        lemma_count_mines_update(cells.drop_last(), i, c);
    }
}

/// Two boards of equal size differ in status at no more positions than they have.
pub proof fn lemma_status_changes_bounded(before: Seq<Cell>, after: Seq<Cell>)
    requires
        before.len() == after.len(),
    ensures
        status_changes(before, after) <= before.len(),
    decreases before.len(),
{
    if before.len() > 0 {
        lemma_status_changes_bounded(before.drop_last(), after.take(before.len() - 1));
    }
}

/// The number of cells of `cells` that are not cleared.
pub open spec fn count_uncleared(cells: Seq<Cell>) -> nat
    decreases cells.len(),
{
    if cells.len() == 0 {
        0
    } else {
        count_uncleared(cells.drop_last()) + if cells.last().status != Status::Cleared {
            1nat
        } else {
            0nat
        }
    }
}

/// Clearing a cell that was not cleared lowers the count of uncleared cells by one.
pub proof fn lemma_count_uncleared_clear(cells: Seq<Cell>, i: int, c: Cell)
    requires
        0 <= i < cells.len(),
        cells[i].status != Status::Cleared,
        c.status == Status::Cleared,
    ensures
        count_uncleared(cells.update(i, c)) + 1 == count_uncleared(cells),
    decreases cells.len(),
{
    let u = cells.update(i, c);
    if i == cells.len() - 1 {
        assert(u.drop_last() =~= cells.drop_last());
    } else {
        assert(u.drop_last() =~= cells.drop_last().update(i, c));
        lemma_count_uncleared_clear(cells.drop_last(), i, c);
    }
}

/// Two sequences with mines at the same positions count the same.
pub proof fn lemma_count_mines_same(a: Seq<Cell>, b: Seq<Cell>)
    requires
        a.len() == b.len(),
        forall|i: int| 0 <= i < a.len() ==> (#[trigger] a[i]).mine == b[i].mine,
    ensures
        count_mines(a) == count_mines(b),
    decreases a.len(),
{
    if a.len() > 0 {
        lemma_count_mines_same(a.drop_last(), b.drop_last());
    }
}

} // verus!
