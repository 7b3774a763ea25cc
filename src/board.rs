//! The board: cells, the adjacency grid derived from them, the retained
//! permutation of cell positions used to lay out mines, and the first-move flag.
use vstd::prelude::*;
use rand::seq::SliceRandom;
use crate::cell::{Cell, Status, count_mines, count_uncleared, status_changes,
    lemma_count_mines_none, lemma_count_mines_update, lemma_count_uncleared_clear, lemma_count_mines_same,
    lemma_status_changes_bounded};
use crate::grid::{index_of, lemma_index_in_grid, lemma_coords_in_grid, lemma_orthogonal,
    lemma_neighbors_in_grid};

verus! {

/// 1 if `(x, y)` lies inside the grid and hides a mine, else 0.
pub open spec fn mine_at(cells: Seq<Cell>, width: int, height: int, x: int, y: int) -> nat {
    if 0 <= x < width && 0 <= y < height && cells[index_of(width, x, y)].mine {
        1
    } else {
        0
    }
}

/// The number of mines among the eight neighbours of `(x, y)`, the cell itself excluded.
pub open spec fn neighbor_mines(cells: Seq<Cell>, width: int, height: int, x: int, y: int) -> nat {
    mine_at(cells, width, height, x - 1, y - 1) + mine_at(cells, width, height, x, y - 1)
        + mine_at(cells, width, height, x + 1, y - 1) + mine_at(cells, width, height, x - 1, y)
        + mine_at(cells, width, height, x + 1, y) + mine_at(cells, width, height, x - 1, y + 1)
        + mine_at(cells, width, height, x, y + 1) + mine_at(cells, width, height, x + 1, y + 1)
}

/// `adj` holds, at each flat position, the neighbour mine count of that cell.
pub open spec fn adjacency_correct(cells: Seq<Cell>, adj: Seq<nat>, width: int, height: int) -> bool {
    &&& adj.len() == width * height
    &&& forall|i: int|
        0 <= i < width * height ==> #[trigger] adj[i] == neighbor_mines(
            cells,
            width,
            height,
            i % width,
            i / width,
        )
}

/// `order` lists every flat position of an `n`-cell grid exactly once.
pub open spec fn is_permutation(order: Seq<usize>, n: int) -> bool {
    &&& order.len() == n
    &&& order.no_duplicates()
    &&& forall|k: int| 0 <= k < n ==> #[trigger] order[k] < n
}

/// Whether the cell at flat position `i` is cleared.
pub open spec fn cleared(cells: Seq<Cell>, i: int) -> bool {
    cells[i].status == Status::Cleared
}

/// Every cleared cell with no neighbouring mine has its in-grid orthogonal
/// neighbours cleared too: the cascade has run to completion.
pub open spec fn cascade_closed(cells: Seq<Cell>, adj: Seq<nat>, width: int, height: int) -> bool {
    forall|i: int|
        0 <= i < width * height && #[trigger] cleared(cells, i) && adj[i] == 0 ==> {
            &&& (i % width > 0 ==> cleared(cells, i - 1))
            &&& (i % width + 1 < width ==> cleared(cells, i + 1))
            &&& (i / width > 0 ==> cleared(cells, i - width))
            &&& (i / width + 1 < height ==> cleared(cells, i + width))
        }
}

/// Every cell that hides no mine has been cleared.
pub open spec fn all_safe_cleared(cells: Seq<Cell>) -> bool {
    forall|i: int| 0 <= i < cells.len() && !(#[trigger] cells[i]).mine ==> cells[i].status
        == Status::Cleared
}

/// Flat position `q` is an in-grid orthogonal neighbour of flat position `r`.
pub open spec fn orthogonal(width: int, height: int, r: int, q: int) -> bool {
    ||| (q == r - 1 && r % width > 0)
    ||| (q == r + 1 && r % width + 1 < width)
    ||| (q == r - width && r / width > 0)
    ||| (q == r + width && r / width + 1 < height)
}

/// `path` leads through the grid from its first position to its last, each
/// step going from a cell with no neighbouring mine to one of its orthogonal
/// neighbours.
pub open spec fn zero_path(adj: Seq<nat>, width: int, height: int, path: Seq<int>) -> bool {
    &&& path.len() > 0
    &&& forall|s: int| 0 <= s < path.len() ==> 0 <= #[trigger] path[s] < width * height
    &&& forall|s: int|
        0 <= s < path.len() - 1 ==> adj[#[trigger] path[s]] == 0 && orthogonal(
            width,
            height,
            path[s],
            path[s + 1],
        )
}

/// The cascade started at `p` reaches `q`.
pub open spec fn reachable(adj: Seq<nat>, width: int, height: int, p: int, q: int) -> bool {
    exists|path: Seq<int>|
        #[trigger] zero_path(adj, width, height, path) && path[0] == p && path.last() == q
}

/// One more orthogonal step from a reached cell with no neighbouring mine.
proof fn lemma_reach_step(adj: Seq<nat>, width: int, height: int, p: int, r: int, q: int)
    requires
        reachable(adj, width, height, p, r),
        0 <= q < width * height,
        adj[r] == 0,
        orthogonal(width, height, r, q),
    ensures
        reachable(adj, width, height, p, q),
{
    let path = choose|path: Seq<int>|
        #[trigger] zero_path(adj, width, height, path) && path[0] == p && path.last() == r;
    let longer = path.push(q);
    assert forall|s: int| 0 <= s < longer.len() - 1 implies adj[#[trigger] longer[s]] == 0
        && orthogonal(width, height, longer[s], longer[s + 1]) by {
        if s < path.len() - 1 {
            assert(longer[s] == path[s] && longer[s + 1] == path[s + 1]);
        }
    }
    assert(zero_path(adj, width, height, longer));
}

/// The start of a path is reached.
proof fn lemma_reach_start(adj: Seq<nat>, width: int, height: int, p: int)
    requires
        0 <= p < width * height,
    ensures
        reachable(adj, width, height, p, p),
{
    assert(zero_path(adj, width, height, seq![p]));
}

/// Once the cascade is closed and the start of a path is cleared, every
/// position along the path is cleared.
proof fn lemma_path_cleared(
    cells: Seq<Cell>,
    adj: Seq<nat>,
    width: int,
    height: int,
    path: Seq<int>,
    s: int,
)
    requires
        cascade_closed(cells, adj, width, height),
        zero_path(adj, width, height, path),
        cleared(cells, path[0]),
        0 <= s < path.len(),
    ensures
        cleared(cells, path[s]),
    decreases s,
{
    if s > 0 {
        lemma_path_cleared(cells, adj, width, height, path, s - 1);
        assert(0 <= path[s - 1] < width * height);
        assert(adj[path[s - 1]] == 0 && orthogonal(width, height, path[s - 1], path[s]));
    }
}

/// Once the cascade is closed and `p` is cleared, every cell the cascade
/// from `p` reaches is cleared.
proof fn lemma_reach_cleared(cells: Seq<Cell>, adj: Seq<nat>, width: int, height: int, p: int, q: int)
    requires
        cascade_closed(cells, adj, width, height),
        cleared(cells, p),
        reachable(adj, width, height, p, q),
    ensures
        cleared(cells, q),
{
    let path = choose|path: Seq<int>|
        #[trigger] zero_path(adj, width, height, path) && path[0] == p && path.last() == q;
    lemma_path_cleared(cells, adj, width, height, path, path.len() - 1);
}

/// The mathematical content of a board.
pub struct BoardModel {
    pub width: nat,
    pub height: nat,
    /// The cells in row-major order: `(x, y)` is at `y * width + x`.
    pub cells: Seq<Cell>,
    /// The neighbour mine count of each cell, in the same order.
    pub adj: Seq<nat>,
    /// The permutation of flat positions the mines were laid out from.
    pub order: Seq<usize>,
    /// The number of mines.
    pub mines: nat,
    /// True until the first reveal of an unknown cell.
    pub first_move: bool,
}

impl BoardModel {
    pub open spec fn size(self) -> int {
        (self.width * self.height) as int
    }

    pub open spec fn in_bounds(self, x: int, y: int) -> bool {
        0 <= x < self.width && 0 <= y < self.height
    }

    pub open spec fn cell(self, x: int, y: int) -> Cell {
        self.cells[index_of(self.width as int, x, y)]
    }

    pub open spec fn status_at(self, x: int, y: int) -> Status {
        self.cell(x, y).status
    }

    pub open spec fn adj_at(self, x: int, y: int) -> nat {
        self.adj[index_of(self.width as int, x, y)]
    }

    /// The neighbour mine count of `(x, y)`, from the mine layout itself.
    pub open spec fn neighbors(self, x: int, y: int) -> nat {
        neighbor_mines(self.cells, self.width as int, self.height as int, x, y)
    }

    pub open spec fn mine_count(self) -> nat {
        count_mines(self.cells)
    }

    /// The board's invariant.
    pub open spec fn wf(self) -> bool {
        &&& self.width >= 1
        &&& self.height >= 1
        &&& self.size() <= usize::MAX
        &&& self.cells.len() == self.size()
        &&& self.mines < self.size()
        &&& self.mine_count() == self.mines
        &&& adjacency_correct(self.cells, self.adj, self.width as int, self.height as int)
        &&& forall|i: int| 0 <= i < self.size() && cleared(self.cells, i) ==> !self.cells[i].mine
        &&& cascade_closed(self.cells, self.adj, self.width as int, self.height as int)
        &&& is_permutation(self.order, self.size())
        &&& self.first_move ==> {
            &&& forall|k: int|
                0 <= k < self.size() ==> (#[trigger] self.cells[self.order[k] as int]).mine == (k
                    < self.mines)
            &&& forall|i: int| 0 <= i < self.size() ==> !cleared(self.cells, i)
        }
    }
}

/// What a reveal reports.
#[derive(Clone, Copy, Debug, PartialEq, Eq, Structural)]
pub enum Outcome {
    /// The cell was flagged or already cleared: nothing happened.
    NoOp,
    /// Cells were cleared and some safe cell is still hidden.
    Safe,
    /// The cell hides a mine.
    MineHit,
    /// Cells were cleared and every safe cell is now cleared.
    Win,
}

/// The status a flag toggle gives a cell of status `s`.
pub open spec fn toggled(s: Status) -> Status {
    match s {
        Status::Unknown => Status::Flagged,
        Status::Flagged => Status::Unknown,
        Status::Cleared => Status::Cleared,
    }
}

impl BoardModel {
    /// Whether flat position `j` hides a mine once the first reveal, aimed at
    /// flat position `i`, has moved a mine out of the way: the mine at `i`
    /// goes to the first position of the permutation after the initial mines.
    pub open spec fn mine_after_reveal(self, i: int, j: int) -> bool {
        if self.first_move && self.cells[i].mine {
            if j == i {
                false
            } else if j == self.order[self.mines as int] {
                true
            } else {
                self.cells[j].mine
            }
        } else {
            self.cells[j].mine
        }
    }

    /// The board after toggling the flag on `(x, y)`.
    pub open spec fn flag_toggled(self, x: int, y: int) -> BoardModel {
        BoardModel {
            cells: self.cells.update(
                index_of(self.width as int, x, y),
                Cell { mine: self.cell(x, y).mine, status: toggled(self.status_at(x, y)) },
            ),
            ..self
        }
    }

    /// `after` and `r` are what revealing `(x, y)` on this board gives.
    pub open spec fn reveal_result(self, after: BoardModel, x: int, y: int, r: Outcome) -> bool {
        let i = index_of(self.width as int, x, y);
        &&& after.width == self.width
        &&& after.height == self.height
        &&& after.order == self.order
        &&& after.mines == self.mines
        &&& after.cells.len() == self.cells.len()
        &&& if self.status_at(x, y) != Status::Unknown {
            r == Outcome::NoOp && after == self
        } else if !self.first_move && self.cell(x, y).mine {
            r == Outcome::MineHit && after == self
        } else {
            &&& !after.first_move
            &&& forall|j: int|
                0 <= j < self.size() ==> (#[trigger] after.cells[j]).mine == self.mine_after_reveal(i, j)
            &&& forall|j: int|
                0 <= j < self.size() && (#[trigger] after.cells[j]).status != self.cells[j].status
                    ==> after.cells[j].status == Status::Cleared
            &&& forall|j: int|
                0 <= j < self.size() ==> (#[trigger] cleared(after.cells, j) <==> cleared(self.cells, j)
                    || reachable(after.adj, self.width as int, self.height as int, i, j))
            &&& status_changes(self.cells, after.cells) <= self.size()
            &&& after.status_at(x, y) == Status::Cleared
            &&& r == Outcome::Win || r == Outcome::Safe
            &&& (r == Outcome::Win <==> all_safe_cleared(after.cells))
        }
    }
}

/// Two boards with the same mines have the same neighbour counts.
pub proof fn lemma_same_mines_same_neighbors(a: Seq<Cell>, b: Seq<Cell>, width: int, height: int)
    requires
        a.len() == b.len(),
        a.len() == width * height,
        forall|j: int| 0 <= j < a.len() ==> (#[trigger] a[j]).mine == b[j].mine,
    ensures
        forall|x: int, y: int|
            #[trigger] neighbor_mines(a, width, height, x, y) == neighbor_mines(b, width, height, x, y),
{
    assert forall|x: int, y: int|
        #[trigger] neighbor_mines(a, width, height, x, y) == neighbor_mines(b, width, height, x, y) by {
        assert forall|u: int, v: int| #[trigger] mine_at(a, width, height, u, v) == mine_at(b, width, height, u, v) by {
            if 0 <= u < width && 0 <= v < height {
                lemma_index_in_grid(width, height, u, v);
                assert(a[index_of(width, u, v)].mine == b[index_of(width, u, v)].mine);
            }
        }
    }
}

/// A Minesweeper board.
pub struct Board {
    width: usize,
    height: usize,
    cells: Vec<Cell>,
    adj: Vec<u8>,
    order: Vec<usize>,
    mines: usize,
    first_move: bool,
}

impl View for Board {
    type V = BoardModel;

    closed spec fn view(&self) -> BoardModel {
        BoardModel {
            width: self.width as nat,
            height: self.height as nat,
            cells: self.cells@,
            adj: self.adj@.map_values(|a: u8| a as nat),
            order: self.order@,
            mines: self.mines as nat,
            first_move: self.first_move,
        }
    }
}

/// 1 if the neighbour of `(x, y)` at offset `(dx, dy)` lies inside the grid and hides a mine.
fn mine_bit(cells: &Vec<Cell>, width: usize, height: usize, x: usize, y: usize, dx: i8, dy: i8) -> (r: u8)
    requires
        width * height <= usize::MAX,
        cells@.len() == width * height,
        x < width,
        y < height,
        -1 <= dx <= 1,
        -1 <= dy <= 1,
    ensures
        r as nat == mine_at(cells@, width as int, height as int, x + dx, y + dy),
{
    if (dx < 0 && x == 0) || (dy < 0 && y == 0) {
        return 0;
    }
    let nx: usize = if dx < 0 { x - 1 } else if dx > 0 { x + 1 } else { x };
    let ny: usize = if dy < 0 { y - 1 } else if dy > 0 { y + 1 } else { y };
    if nx >= width || ny >= height {
        return 0;
    }
    proof {
        lemma_index_in_grid(width as int, height as int, nx as int, ny as int);
    }
    if cells[ny * width + nx].mine {
        1
    } else {
        0
    }
}

/// The neighbour mine count of every cell, in row-major order.
pub fn calculate_adjacencies(cells: &Vec<Cell>, width: usize, height: usize) -> (adj: Vec<u8>)
    requires
        width >= 1,
        width * height <= usize::MAX,
        cells@.len() == width * height,
    ensures
        adjacency_correct(
            cells@,
            adj@.map_values(|a: u8| a as nat),
            width as int,
            height as int,
        ),
        forall|i: int| 0 <= i < adj@.len() ==> adj@[i] <= 8,
{
    let n = width * height;
    let mut adj: Vec<u8> = Vec::new();
    let mut i: usize = 0;
    while i < n
        invariant
            width >= 1,
            n == width * height,
            cells@.len() == n,
            i <= n,
            adj@.len() == i,
            forall|j: int|
                0 <= j < i ==> #[trigger] adj@[j] as nat == neighbor_mines(
                    cells@,
                    width as int,
                    height as int,
                    j % width as int,
                    j / width as int,
                ),
            forall|j: int| 0 <= j < i ==> adj@[j] <= 8,
        decreases n - i,
    {
        proof {
            lemma_coords_in_grid(width as int, height as int, i as int);
        }
        let x = i % width;
        let y = i / width;
        let count = mine_bit(cells, width, height, x, y, -1, -1) + mine_bit(
            cells,
            width,
            height,
            x,
            y,
            0,
            -1,
        ) + mine_bit(cells, width, height, x, y, 1, -1) + mine_bit(cells, width, height, x, y, -1, 0)
            + mine_bit(cells, width, height, x, y, 1, 0) + mine_bit(
            cells,
            width,
            height,
            x,
            y,
            -1,
            1,
        ) + mine_bit(cells, width, height, x, y, 0, 1) + mine_bit(cells, width, height, x, y, 1, 1);
        adj.push(count);
        i = i + 1;
    }
    adj
}

/// Relies on rand's `SliceRandom::shuffle` with the thread-local generator:
/// it only swaps elements, so the same elements come back in some order.
#[verifier::external_body]
fn shuffle(v: &mut Vec<usize>)
    ensures
        final(v)@.to_multiset() == old(v)@.to_multiset(),
{
    v.shuffle(&mut rand::thread_rng());
}

impl Board {
    /// A fresh board whose mines sit at the first `mines` positions of `order`.
    pub fn new(width: usize, height: usize, mines: usize, order: Vec<usize>) -> (b: Board)
        requires
            width >= 1,
            height >= 1,
            width * height <= usize::MAX,
            mines < width * height,
            is_permutation(order@, width * height),
        ensures
            b@.wf(),
            b@.width == width,
            b@.height == height,
            b@.mines == mines,
            b@.mine_count() == mines,
            b@.order == order@,
            b@.first_move,
            forall|i: int| 0 <= i < b@.size() ==> (#[trigger] b@.cells[i]).status == Status::Unknown,
            forall|k: int|
                0 <= k < b@.size() ==> (#[trigger] b@.cells[order@[k] as int]).mine == (k < mines),
    {
        let n = width * height;
        let mut cells: Vec<Cell> = Vec::new();
        let mut i: usize = 0;
        while i < n
            invariant
                i <= n,
                cells@.len() == i,
                forall|j: int| 0 <= j < i ==> cells@[j] == (Cell { mine: false, status: Status::Unknown }),
            decreases n - i,
        {
            cells.push(Cell { mine: false, status: Status::Unknown });
            i = i + 1;
        }
        proof {
            lemma_count_mines_none(cells@);
        }
        let mut k: usize = 0;
        while k < mines
            invariant
                mines < n,
                n == width * height,
                is_permutation(order@, n as int),
                k <= mines,
                cells@.len() == n,
                forall|j: int| 0 <= j < n ==> (#[trigger] cells@[j]).status == Status::Unknown,
                forall|j: int| 0 <= j < n ==> (#[trigger] cells@[order@[j] as int]).mine == (j < k),
                count_mines(cells@) == k,
            decreases mines - k,
        {
            let p = order[k];
            let ghost before = cells@;
            proof {
                lemma_count_mines_update(before, p as int, Cell { mine: true, status: Status::Unknown });
            }
            cells.set(p, Cell { mine: true, status: Status::Unknown });
            assert forall|j: int| 0 <= j < n implies (#[trigger] cells@[order@[j] as int]).mine == (j < k + 1) by {
                if j != k {
                    assert(order@[j] != order@[k as int]);
                }
            }
            k = k + 1;
        }
        let adj = calculate_adjacencies(&cells, width, height);
        let b = Board { width, height, cells, adj, order, mines, first_move: true };
        assert(b@.cells == cells@);
        b
    }

    /// A fresh board with `mines` mines laid out from a uniformly shuffled
    /// permutation of all cell positions.
    pub fn new_random(width: usize, height: usize, mines: usize) -> (b: Board)
        requires
            width >= 1,
            height >= 1,
            width * height <= usize::MAX,
            mines < width * height,
        ensures
            b@.wf(),
            b@.width == width,
            b@.height == height,
            b@.mines == mines,
            b@.mine_count() == mines,
            b@.first_move,
            forall|i: int| 0 <= i < b@.size() ==> (#[trigger] b@.cells[i]).status == Status::Unknown,
    {
        let n = width * height;
        let mut order: Vec<usize> = Vec::new();
        let mut i: usize = 0;
        while i < n
            invariant
                i <= n,
                order@.len() == i,
                forall|j: int| 0 <= j < i ==> order@[j] == j,
            decreases n - i,
        {
            order.push(i);
            i = i + 1;
        }
        let ghost identity = order@;
        shuffle(&mut order);
        proof {
            broadcast use vstd::seq_lib::group_to_multiset_ensures;
            assert(order@.len() == order@.to_multiset().len());
            assert(identity.len() == identity.to_multiset().len());
            assert(order@.len() == n);
            assert(identity.no_duplicates());
            identity.lemma_multiset_has_no_duplicates();
            order@.lemma_multiset_has_no_duplicates_conv();
            assert forall|k: int| 0 <= k < n implies #[trigger] order@[k] < n by {
                assert(order@.contains(order@[k]));
                assert(identity.to_multiset().count(order@[k]) > 0);
                assert(identity.contains(order@[k]));
            }
        }
        Board::new(width, height, mines, order)
    }
}

impl Board {
    pub fn width(&self) -> (r: usize)
        ensures
            r == self@.width,
    {
        self.width
    }

    pub fn height(&self) -> (r: usize)
        ensures
            r == self@.height,
    {
        self.height
    }

    pub fn mines(&self) -> (r: usize)
        ensures
            r == self@.mines,
    {
        self.mines
    }

    pub fn is_first_move(&self) -> (r: bool)
        ensures
            r == self@.first_move,
    {
        self.first_move
    }

    /// The cell at `(x, y)`.
    pub fn cell_at(&self, x: usize, y: usize) -> (c: Cell)
        requires
            self@.wf(),
            x < self@.width,
            y < self@.height,
        ensures
            c == self@.cell(x as int, y as int),
    {
        proof {
            lemma_index_in_grid(self.width as int, self.height as int, x as int, y as int);
        }
        self.cells[y * self.width + x]
    }

    /// The status of the cell at `(x, y)`.
    pub fn status_at(&self, x: usize, y: usize) -> (s: Status)
        requires
            self@.wf(),
            x < self@.width,
            y < self@.height,
        ensures
            s == self@.status_at(x as int, y as int),
    {
        self.cell_at(x, y).status
    }

    /// The number of mines among the eight neighbours of `(x, y)`.
    pub fn adj_at(&self, x: usize, y: usize) -> (r: u8)
        requires
            self@.wf(),
            x < self@.width,
            y < self@.height,
        ensures
            r == self@.adj_at(x as int, y as int),
            r == self@.neighbors(x as int, y as int),
            r <= 8,
    {
        proof {
            lemma_index_in_grid(self.width as int, self.height as int, x as int, y as int);
            let i = index_of(self.width as int, x as int, y as int);
            assert(self@.adj[i] == self.adj@[i] as nat);
            assert(self@.adj[i] == self@.neighbors(i % self.width as int, i / self.width as int));
            assert(self@.neighbors(x as int, y as int) <= 8);
        }
        self.adj[y * self.width + x]
    }

    /// Flags an unknown cell, unflags a flagged one, and leaves a cleared one alone.
    pub fn toggle_flag(&mut self, x: usize, y: usize)
        requires
            old(self)@.wf(),
            x < old(self)@.width,
            y < old(self)@.height,
        ensures
            final(self)@.wf(),
            final(self)@ == old(self)@.flag_toggled(x as int, y as int),
            forall|i: int| 0 <= i < old(self)@.size() ==> (#[trigger] final(self)@.cells[i]).mine == old(self)@.cells[i].mine,
            forall|i: int|
                0 <= i < old(self)@.size() && (#[trigger] final(self)@.cells[i]) != old(self)@.cells[i] ==> {
                    &&& old(self)@.cells[i].status != Status::Cleared
                    &&& final(self)@.cells[i].status != Status::Cleared
                },
    {
        proof {
            lemma_index_in_grid(self.width as int, self.height as int, x as int, y as int);
        }
        let i = y * self.width + x;
        let c = self.cells[i];
        let status = match c.status {
            Status::Unknown => Status::Flagged,
            Status::Flagged => Status::Unknown,
            Status::Cleared => Status::Cleared,
        };
        let ghost before = self.cells@;
        self.cells.set(i, Cell { mine: c.mine, status });
        proof {
            lemma_count_mines_update(before, i as int, Cell { mine: c.mine, status });
            lemma_same_mines_same_neighbors(self.cells@, before, self.width as int, self.height as int);
            assert forall|j: int| 0 <= j < self@.size() implies #[trigger] cleared(self.cells@, j) == cleared(before, j) by {}
            assert(self@.mine_count() == self@.mines);
            assert(adjacency_correct(self@.cells, self@.adj, self@.width as int, self@.height as int));
            assert forall|j: int|
                0 <= j < self@.size() && #[trigger] cleared(self.cells@, j) && self@.adj[j] == 0 implies {
                &&& (j % self@.width as int > 0 ==> cleared(self@.cells, j - 1))
                &&& (j % self@.width as int + 1 < self@.width ==> cleared(self@.cells, j + 1))
                &&& (j / self@.width as int > 0 ==> cleared(self@.cells, j - self@.width))
                &&& (j / self@.width as int + 1 < self@.height ==> cleared(self@.cells, j + self@.width))
            } by {
                lemma_neighbors_in_grid(self@.width as int, self@.height as int, j);
            }
        }
    }
}

impl Board {
    /// Moves the mine at flat position `p` to the first position of the
    /// permutation, after the initial mines, that holds no mine, and rebuilds
    /// the adjacency grid. Ends the first move.
    fn relocate_mine(&mut self, p: usize)
        requires
            old(self)@.wf(),
            old(self)@.first_move,
            p < old(self)@.size(),
            old(self)@.cells[p as int].mine,
        ensures
            final(self)@.wf(),
            !final(self)@.first_move,
            final(self)@.width == old(self)@.width,
            final(self)@.height == old(self)@.height,
            final(self)@.order == old(self)@.order,
            final(self)@.mines == old(self)@.mines,
            final(self)@.cells.len() == old(self)@.cells.len(),
            forall|j: int|
                0 <= j < old(self)@.size() ==> (#[trigger] final(self)@.cells[j]).mine
                    == old(self)@.mine_after_reveal(p as int, j),
            forall|j: int|
                0 <= j < old(self)@.size() ==> (#[trigger] final(self)@.cells[j]).status
                    == old(self)@.cells[j].status,
    {
        let ghost start = self@;
        let n = self.width * self.height;
        let status = self.cells[p].status;
        self.cells.set(p, Cell { mine: false, status });
        let ghost lifted = self.cells@;
        proof {
            lemma_count_mines_update(start.cells, p as int, Cell { mine: false, status });
            assert(!start.cells[start.order[start.mines as int] as int].mine);
        }
        let mut i: usize = self.mines;
        let mut placed = false;
        while i < n && !placed
            invariant
                n == self.width * self.height,
                n == start.size(),
                self.width == start.width,
                self.height == start.height,
                self.width >= 1,
                lifted.len() == n,
                self.mines == start.mines,
                self.mines < n,
                self.order@ == start.order,
                is_permutation(start.order, n as int),
                self.mines <= i <= n,
                !lifted[start.order[start.mines as int] as int].mine,
                count_mines(lifted) + 1 == start.mines,
                !placed ==> self.cells@ == lifted,
                !placed ==> i == self.mines,
                placed ==> self.cells@ == lifted.update(
                    start.order[start.mines as int] as int,
                    Cell { mine: true, status: lifted[start.order[start.mines as int] as int].status },
                ),
            decreases n - i + if placed { 0int } else { 1int },
        {
            let loc = self.order[i];
            let c = self.cells[loc];
            if !c.mine {
                self.cells.set(loc, Cell { mine: true, status: c.status });
                placed = true;
            } else {
                i = i + 1;
            }
        }
        proof {
            let q = start.order[start.mines as int] as int;
            lemma_count_mines_update(lifted, q, Cell { mine: true, status: lifted[q].status });
        }
        self.adj = calculate_adjacencies(&self.cells, self.width, self.height);
        self.first_move = false;
        proof {
            assert forall|j: int| 0 <= j < start.size() implies #[trigger] self@.cells[j].status == start.cells[j].status by {}
            assert forall|j: int| 0 <= j < start.size() implies !cleared(self@.cells, j) by {
                assert(!cleared(start.cells, j));
            }
            assert(self@.mine_count() == self@.mines);
            assert(adjacency_correct(self@.cells, self@.adj, self@.width as int, self@.height as int));
        }
    }

    /// Whether every cell that hides no mine is cleared.
    fn all_safe_cleared(&self) -> (r: bool)
        ensures
            r == all_safe_cleared(self@.cells),
    {
        let mut i: usize = 0;
        while i < self.cells.len()
            invariant
                i <= self.cells@.len(),
                forall|j: int| 0 <= j < i && !(#[trigger] self.cells@[j]).mine ==> self.cells@[j].status
                    == Status::Cleared,
            decreases self.cells@.len() - i,
        {
            let c = self.cells[i];
            if !c.mine && c.status != Status::Cleared {
                return false;
            }
            i = i + 1;
        }
        true
    }
}

/// Flat position `q` is cleared, or waits on the work stack.
pub open spec fn covered(cells: Seq<Cell>, stack: Seq<usize>, q: int) -> bool {
    cleared(cells, q) || stack.contains(q as usize)
}

/// Every cleared cell with no neighbouring mine has each in-grid orthogonal
/// neighbour cleared or waiting on the work stack.
pub open spec fn cascade_pending(
    cells: Seq<Cell>,
    adj: Seq<nat>,
    stack: Seq<usize>,
    width: int,
    height: int,
) -> bool {
    forall|j: int|
        0 <= j < width * height && #[trigger] cleared(cells, j) && adj[j] == 0 ==> {
            &&& (j % width > 0 ==> covered(cells, stack, j - 1))
            &&& (j % width + 1 < width ==> covered(cells, stack, j + 1))
            &&& (j / width > 0 ==> covered(cells, stack, j - width))
            &&& (j / width + 1 < height ==> covered(cells, stack, j + width))
        }
}

/// A value on a stack other than its top is still there once the top is
/// popped and further values are pushed.
proof fn lemma_stack_keeps(before: Seq<usize>, after: Seq<usize>, q: usize)
    requires
        before.len() > 0,
        before.contains(q),
        before.last() != q,
        after.len() >= before.len() - 1,
        forall|k: int| 0 <= k < before.len() - 1 ==> after[k] == before[k],
    ensures
        after.contains(q),
{
    let k = choose|k: int| 0 <= k < before.len() && before[k] == q;
    assert(after[k] == q);
}

/// One step of the cascade keeps every pending neighbour covered: the
/// popped position ends up cleared, and when it was newly cleared with no
/// neighbouring mine its in-grid orthogonal neighbours were pushed.
proof fn lemma_pending_step(
    cells0: Seq<Cell>,
    cells1: Seq<Cell>,
    adj: Seq<nat>,
    stack0: Seq<usize>,
    stack1: Seq<usize>,
    w: int,
    h: int,
    top: int,
)
    requires
        w >= 1,
        w * h <= usize::MAX,
        0 <= top < w * h,
        cells0.len() == w * h,
        cells1.len() == w * h,
        adj.len() == w * h,
        stack0.len() > 0,
        stack0.last() == top,
        stack1.len() >= stack0.len() - 1,
        forall|k: int| 0 <= k < stack0.len() - 1 ==> stack1[k] == stack0[k],
        cascade_pending(cells0, adj, stack0, w, h),
        cleared(cells1, top),
        forall|j: int| 0 <= j < w * h && cleared(cells0, j) ==> #[trigger] cleared(cells1, j),
        forall|j: int| 0 <= j < w * h && j != top && #[trigger] cleared(cells1, j) ==> cleared(cells0, j),
        !cleared(cells0, top) && adj[top] == 0 ==> {
            &&& (top % w > 0 ==> stack1.contains((top - 1) as usize))
            &&& (top % w + 1 < w ==> stack1.contains((top + 1) as usize))
            &&& (top / w > 0 ==> stack1.contains((top - w) as usize))
            &&& (top / w + 1 < h ==> stack1.contains((top + w) as usize))
        },
    ensures
        cascade_pending(cells1, adj, stack1, w, h),
{
    assert forall|j: int|
        0 <= j < w * h && #[trigger] cleared(cells1, j) && adj[j] == 0 implies {
        &&& (j % w > 0 ==> covered(cells1, stack1, j - 1))
        &&& (j % w + 1 < w ==> covered(cells1, stack1, j + 1))
        &&& (j / w > 0 ==> covered(cells1, stack1, j - w))
        &&& (j / w + 1 < h ==> covered(cells1, stack1, j + w))
    } by {
        lemma_neighbors_in_grid(w, h, j);
        if j != top || cleared(cells0, top) {
            assert(cleared(cells0, j));
            assert forall|q: int| 0 <= q < w * h && covered(cells0, stack0, q) implies covered(
                cells1,
                stack1,
                q,
            ) by {
                if !cleared(cells0, q) && q != top {
                    assert((q as usize) as int == q);
                    lemma_stack_keeps(stack0, stack1, q as usize);
                }
            }
        }
    }
}

/// `cells` is what the cascade from `p` has made of `start.cells` so far:
/// the mines are untouched, every change clears a cell, no cleared cell hides
/// a mine, and every newly cleared cell is reached from `p`.
#[verifier::opaque]
pub open spec fn filling(start: BoardModel, cells: Seq<Cell>, p: int) -> bool {
    let n = start.size();
    &&& cells.len() == n
    &&& forall|j: int| 0 <= j < n ==> (#[trigger] cells[j]).mine == start.cells[j].mine
    &&& forall|j: int| 0 <= j < n && (#[trigger] cells[j]).status != start.cells[j].status ==> cleared(cells, j)
    &&& forall|j: int| 0 <= j < n && #[trigger] cleared(cells, j) ==> !cells[j].mine
    &&& forall|j: int|
        0 <= j < n && #[trigger] cleared(cells, j) && !cleared(start.cells, j) ==> reachable(
            start.adj,
            start.width as int,
            start.height as int,
            p,
            j,
        )
}

/// Every position on the work stack is in the grid, hides no mine, and is
/// reached by the cascade from `p`.
#[verifier::opaque]
pub open spec fn stack_ok(start: BoardModel, stack: Seq<usize>, p: int) -> bool {
    forall|k: int|
        0 <= k < stack.len() ==> {
            &&& #[trigger] stack[k] < start.size()
            &&& !start.cells[stack[k] as int].mine
            &&& reachable(start.adj, start.width as int, start.height as int, p, stack[k] as int)
        }
}

proof fn lemma_filling_start(start: BoardModel, p: int)
    requires
        start.wf(),
    ensures
        filling(start, start.cells, p),
{
    reveal(filling);
}

/// Clearing a reached position that hides no mine keeps the cascade's bookkeeping.
proof fn lemma_filling_clear(start: BoardModel, cells: Seq<Cell>, p: int, top: int)
    requires
        filling(start, cells, p),
        0 <= top < start.size(),
        !start.cells[top].mine,
        reachable(start.adj, start.width as int, start.height as int, p, top),
    ensures
        filling(
            start,
            cells.update(top, Cell { mine: cells[top].mine, status: Status::Cleared }),
            p,
        ),
{
    reveal(filling);
    let after = cells.update(top, Cell { mine: cells[top].mine, status: Status::Cleared });
    assert forall|j: int| 0 <= j < start.size() && #[trigger] cleared(after, j) implies !after[j].mine by {
        if j != top {
            assert(after[j] == cells[j]);
        }
    }
}

/// Pops the top of a well-kept stack.
proof fn lemma_stack_pop(start: BoardModel, stack: Seq<usize>, p: int)
    requires
        stack_ok(start, stack, p),
        stack.len() > 0,
    ensures
        stack_ok(start, stack.drop_last(), p),
        stack.last() < start.size(),
        !start.cells[stack.last() as int].mine,
        reachable(start.adj, start.width as int, start.height as int, p, stack.last() as int),
{
    reveal(stack_ok);
    assert(stack.last() == stack[stack.len() - 1]);
    assert forall|k: int| 0 <= k < stack.drop_last().len() implies {
        &&& #[trigger] stack.drop_last()[k] < start.size()
        &&& !start.cells[stack.drop_last()[k] as int].mine
        &&& reachable(start.adj, start.width as int, start.height as int, p, stack.drop_last()[k] as int)
    } by {
        assert(stack.drop_last()[k] == stack[k]);
    }
}

/// Pushes a reached in-grid position that hides no mine.
proof fn lemma_stack_push(start: BoardModel, stack: Seq<usize>, p: int, v: usize)
    requires
        stack_ok(start, stack, p),
        v < start.size(),
        !start.cells[v as int].mine,
        reachable(start.adj, start.width as int, start.height as int, p, v as int),
    ensures
        stack_ok(start, stack.push(v), p),
{
    reveal(stack_ok);
    assert forall|k: int| 0 <= k < stack.push(v).len() implies {
        &&& #[trigger] stack.push(v)[k] < start.size()
        &&& !start.cells[stack.push(v)[k] as int].mine
        &&& reachable(start.adj, start.width as int, start.height as int, p, stack.push(v)[k] as int)
    } by {
        if k < stack.len() {
            assert(stack.push(v)[k] == stack[k]);
        }
    }
}

/// An in-grid orthogonal neighbour of a cell with no neighbouring mine hides
/// no mine itself.
proof fn lemma_zero_neighbor_safe(start: BoardModel, r: int, q: int)
    requires
        start.wf(),
        0 <= r < start.size(),
        start.adj[r] == 0,
        orthogonal(start.width as int, start.height as int, r, q),
    ensures
        0 <= q < start.size(),
        !start.cells[q].mine,
{
    let w = start.width as int;
    let h = start.height as int;
    lemma_coords_in_grid(w, h, r);
    lemma_orthogonal(w, r);
    lemma_neighbors_in_grid(w, h, r);
    assert(start.adj[r] == neighbor_mines(start.cells, w, h, r % w, r / w));
}

/// Pushes the in-grid orthogonal neighbours of `top`, a reached cell with no
/// neighbouring mine, onto the work stack.
fn push_neighbors(
    w: usize,
    h: usize,
    top: usize,
    stack: &mut Vec<usize>,
    Ghost(start): Ghost<BoardModel>,
    Ghost(p): Ghost<int>,
)
    requires
        start.wf(),
        w == start.width,
        h == start.height,
        top < w * h,
        start.adj[top as int] == 0,
        reachable(start.adj, w as int, h as int, p, top as int),
        stack_ok(start, old(stack)@, p),
    ensures
        stack_ok(start, final(stack)@, p),
        final(stack)@.len() >= old(stack)@.len(),
        forall|k: int| 0 <= k < old(stack)@.len() ==> final(stack)@[k] == old(stack)@[k],
        top % w > 0 ==> final(stack)@.contains((top - 1) as usize),
        top % w + 1 < w ==> final(stack)@.contains((top + 1) as usize),
        top / w > 0 ==> final(stack)@.contains((top - w) as usize),
        top / w + 1 < h ==> final(stack)@.contains((top + w) as usize),
{
    let ghost s0 = stack@;
    let ghost mut left: int = 0;
    let ghost mut right: int = 0;
    let ghost mut up: int = 0;
    let ghost mut down: int = 0;
    proof {
        lemma_coords_in_grid(w as int, h as int, top as int);
        lemma_neighbors_in_grid(w as int, h as int, top as int);
    }
    let x = top % w;
    let y = top / w;
    if x > 0 {
        proof {
            left = stack@.len() as int;
            lemma_zero_neighbor_safe(start, top as int, top as int - 1);
            lemma_reach_step(start.adj, w as int, h as int, p, top as int, top as int - 1);
            lemma_stack_push(start, stack@, p, (top - 1) as usize);
        }
        stack.push(top - 1);
    }
    if x + 1 < w {
        proof {
            right = stack@.len() as int;
            lemma_zero_neighbor_safe(start, top as int, top as int + 1);
            lemma_reach_step(start.adj, w as int, h as int, p, top as int, top as int + 1);
            lemma_stack_push(start, stack@, p, (top + 1) as usize);
        }
        stack.push(top + 1);
    }
    if y > 0 {
        proof {
            up = stack@.len() as int;
            lemma_zero_neighbor_safe(start, top as int, top as int - w as int);
            lemma_reach_step(start.adj, w as int, h as int, p, top as int, top as int - w as int);
            lemma_stack_push(start, stack@, p, (top - w) as usize);
        }
        stack.push(top - w);
    }
    if y + 1 < h {
        proof {
            down = stack@.len() as int;
            lemma_zero_neighbor_safe(start, top as int, top as int + w as int);
            lemma_reach_step(start.adj, w as int, h as int, p, top as int, top as int + w as int);
            lemma_stack_push(start, stack@, p, (top + w) as usize);
        }
        stack.push(top + w);
    }
    proof {
        if x > 0 {
            assert(stack@[left] == (top - 1) as usize);
        }
        if x + 1 < w {
            assert(stack@[right] == (top + 1) as usize);
        }
        if y > 0 {
            assert(stack@[up] == (top - w) as usize);
        }
        if y + 1 < h {
            assert(stack@[down] == (top + w) as usize);
        }
    }
}

impl Board {
    /// Clears the cell at flat position `p` and cascades orthogonally across
    /// cells with no neighbouring mine.
    fn flood(&mut self, p: usize)
        requires
            old(self)@.wf(),
            !old(self)@.first_move,
            p < old(self)@.size(),
            !old(self)@.cells[p as int].mine,
        ensures
            final(self)@.wf(),
            final(self)@ == (BoardModel { cells: final(self)@.cells, ..old(self)@ }),
            final(self)@.cells.len() == old(self)@.cells.len(),
            forall|j: int|
                0 <= j < old(self)@.size() ==> (#[trigger] final(self)@.cells[j]).mine
                    == old(self)@.cells[j].mine,
            forall|j: int|
                0 <= j < old(self)@.size() && (#[trigger] final(self)@.cells[j]).status
                    != old(self)@.cells[j].status ==> final(self)@.cells[j].status == Status::Cleared,
            cleared(final(self)@.cells, p as int),
            forall|j: int|
                0 <= j < old(self)@.size() ==> (#[trigger] cleared(final(self)@.cells, j) <==> cleared(
                    old(self)@.cells,
                    j,
                ) || reachable(old(self)@.adj, old(self)@.width as int, old(self)@.height as int, p as int, j)),
    {
        let ghost start = self@;
        let w = self.width;
        let h = self.height;
        let n = w * h;
        let mut stack: Vec<usize> = Vec::new();
        stack.push(p);
        proof {
            lemma_reach_start(start.adj, w as int, h as int, p as int);
            lemma_filling_start(start, p as int);
            reveal(stack_ok);
        }
        while stack.len() > 0
            invariant
                start.wf(),
                self@ == (BoardModel { cells: self@.cells, ..start }),
                w == self.width,
                h == self.height,
                n == w * h,
                n == start.size(),
                w >= 1,
                p < n,
                self.adj@.len() == n,
                self.cells@.len() == n,
                filling(start, self.cells@, p as int),
                stack_ok(start, stack@, p as int),
                cleared(self.cells@, p as int) || stack@ == seq![p],
                cascade_pending(self.cells@, start.adj, stack@, w as int, h as int),
            decreases count_uncleared(self.cells@), stack@.len(),
        {
            let ghost cells0 = self.cells@;
            let ghost stack0 = stack@;
            proof {
                lemma_stack_pop(start, stack0, p as int);
            }
            let top = stack.pop().unwrap();
            let ghost rest = stack@;
            let ghost done = Cell { mine: cells0[top as int].mine, status: Status::Cleared };
            let c = self.cells[top];
            if c.status != Status::Cleared {
                proof {
                    lemma_count_uncleared_clear(cells0, top as int, done);
                }
                self.cells.set(top, Cell { mine: c.mine, status: Status::Cleared });
                if self.adj[top] == 0 {
                    proof {
                        assert(start.adj[top as int] == 0);
                    }
                    push_neighbors(w, h, top, &mut stack, Ghost(start), Ghost(p as int));
                }
            }
            proof {
                assert(self.cells@ =~= cells0.update(top as int, done));
                lemma_filling_clear(start, cells0, p as int, top as int);
                assert forall|k: int| 0 <= k < rest.len() implies stack@[k] == stack0[k] by {}
                lemma_pending_step(cells0, self.cells@, start.adj, stack0, stack@, w as int, h as int, top as int);
            }
        }
        proof {
            reveal(filling);
            assert forall|j: int| 0 <= j < n && #[trigger] cleared(self.cells@, j) && start.adj[j] == 0 implies {
                &&& (j % w as int > 0 ==> cleared(self.cells@, j - 1))
                &&& (j % w as int + 1 < w ==> cleared(self.cells@, j + 1))
                &&& (j / w as int > 0 ==> cleared(self.cells@, j - w))
                &&& (j / w as int + 1 < h ==> cleared(self.cells@, j + w))
            } by {}
            lemma_count_mines_same(start.cells, self.cells@);
            lemma_same_mines_same_neighbors(self.cells@, start.cells, w as int, h as int);
            assert forall|j: int| 0 <= j < n && reachable(start.adj, w as int, h as int, p as int, j) implies #[trigger] cleared(self.cells@, j) by {
                lemma_reach_cleared(self.cells@, start.adj, w as int, h as int, p as int, j);
            }
        }
    }
}

impl Board {
    /// Reveals the cell at `(x, y)`. A flagged or cleared cell is left alone.
    /// On the first reveal of an unknown cell a mine there is moved away first;
    /// after that, an unknown mine is hit. Otherwise the cell is cleared and the
    /// cascade runs; the result says whether every safe cell is now cleared.
    pub fn reveal_at(&mut self, x: usize, y: usize) -> (r: Outcome)
        requires
            old(self)@.wf(),
            x < old(self)@.width,
            y < old(self)@.height,
        ensures
            final(self)@.wf(),
            old(self)@.reveal_result(final(self)@, x as int, y as int, r),
    {
        let ghost start = self@;
        proof {
            lemma_index_in_grid(self.width as int, self.height as int, x as int, y as int);
        }
        let p = y * self.width + x;
        let c = self.cells[p];
        if c.status != Status::Unknown {
            return Outcome::NoOp;
        }
        if self.first_move {
            if c.mine {
                self.relocate_mine(p);
            }
            self.first_move = false;
        }
        if self.cells[p].mine {
            return Outcome::MineHit;
        }
        let ghost middle = self@;
        self.flood(p);
        proof {
            assert forall|j: int| 0 <= j < start.size() implies #[trigger] cleared(middle.cells, j) == cleared(start.cells, j) by {}
        }
        proof {
            lemma_status_changes_bounded(start.cells, self@.cells);
        }
        if self.all_safe_cleared() {
            Outcome::Win
        } else {
            Outcome::Safe
        }
    }
}

} // verus!
