//! What the renderer draws for each cell, and the line under the board.
use vstd::prelude::*;
use crate::board::BoardModel;
use crate::cell::{Cell, Status};
use crate::game::{Game, GameModel, Progress};

verus! {

/// The colour a cell is drawn in.
#[derive(Clone, Copy, Debug, PartialEq, Eq, Structural)]
pub enum Tint {
    BoldWhite,
    BoldRed,
    White,
    Blue,
    Green,
    Red,
    Magenta,
    Yellow,
}

/// How one cell is drawn: its glyph, its colour, and whether it is shown
/// in inverted colours (the cursor).
#[derive(Clone, Copy, Debug, PartialEq, Eq, Structural)]
pub struct Look {
    pub glyph: char,
    pub tint: Tint,
    pub reversed: bool,
}

/// The decimal digit of `n`, for `1 <= n <= 8`.
pub open spec fn digit_of(n: nat) -> char {
    if n == 1 {
        '1'
    } else if n == 2 {
        '2'
    } else if n == 3 {
        '3'
    } else if n == 4 {
        '4'
    } else if n == 5 {
        '5'
    } else if n == 6 {
        '6'
    } else if n == 7 {
        '7'
    } else {
        '8'
    }
}

/// The glyph of a cell with neighbour count `adj`; on a lost game every
/// mine shows as `x`.
pub open spec fn glyph_of(c: Cell, adj: nat, lost: bool) -> char {
    if lost && c.mine {
        'x'
    } else {
        match c.status {
            Status::Unknown => '#',
            Status::Flagged => 'F',
            Status::Cleared => if adj == 0 { '.' } else { digit_of(adj) },
        }
    }
}

/// The colour of a cell with neighbour count `adj`.
pub open spec fn tint_of(c: Cell, adj: nat, lost: bool) -> Tint {
    if lost && c.mine {
        Tint::BoldRed
    } else {
        match c.status {
            Status::Unknown => Tint::BoldWhite,
            Status::Flagged => Tint::BoldRed,
            Status::Cleared => if adj == 0 {
                Tint::White
            } else if adj == 1 {
                Tint::Blue
            } else if adj == 2 {
                Tint::Green
            } else if adj == 3 {
                Tint::Red
            } else if adj == 4 {
                Tint::Magenta
            } else {
                Tint::Yellow
            },
        }
    }
}

/// How the cell at `(x, y)` of game `g` is drawn.
pub open spec fn look_of(g: GameModel, x: int, y: int) -> Look {
    let b: BoardModel = g.board;
    let lost = g.progress == Progress::Lost;
    Look {
        glyph: glyph_of(b.cell(x, y), b.adj_at(x, y), lost),
        tint: tint_of(b.cell(x, y), b.adj_at(x, y), lost),
        reversed: x == g.cursor_x && y == g.cursor_y,
    }
}

/// The glyph of a cell with neighbour count `adj`.
pub fn glyph(c: Cell, adj: u8, lost: bool) -> (r: char)
    requires
        adj <= 8,
    ensures
        r == glyph_of(c, adj as nat, lost),
{
    if lost && c.mine {
        return 'x';
    }
    match c.status {
        Status::Unknown => '#',
        Status::Flagged => 'F',
        Status::Cleared => match adj {
            0 => '.',
            1 => '1',
            2 => '2',
            3 => '3',
            4 => '4',
            5 => '5',
            6 => '6',
            7 => '7',
            _ => '8',
        },
    }
}

/// The colour of a cell with neighbour count `adj`.
pub fn tint(c: Cell, adj: u8, lost: bool) -> (r: Tint)
    ensures
        r == tint_of(c, adj as nat, lost),
{
    if lost && c.mine {
        return Tint::BoldRed;
    }
    match c.status {
        Status::Unknown => Tint::BoldWhite,
        Status::Flagged => Tint::BoldRed,
        Status::Cleared => match adj {
            0 => Tint::White,
            1 => Tint::Blue,
            2 => Tint::Green,
            3 => Tint::Red,
            4 => Tint::Magenta,
            _ => Tint::Yellow,
        },
    }
}

/// The line shown while the game runs.
pub const INSTRUCTIONS: &'static str = "arrow keys / hjkl: move cursor      d / enter: dig     f: flag";

/// The line shown after a loss.
pub const LOSS_BANNER: &'static str = "oops you hit the mine";

/// The line shown after a win.
pub const WIN_BANNER: &'static str = "hooray you're a winner!!!";

/// The line under the board for a game at progress `p`.
pub open spec fn banner_of(p: Progress) -> Seq<char> {
    match p {
        Progress::Lost => LOSS_BANNER@,
        Progress::Won => WIN_BANNER@,
        _ => INSTRUCTIONS@,
    }
}

/// The line under the board for a game at progress `p`.
pub fn banner(p: Progress) -> (r: &'static str)
    ensures
        r@ == banner_of(p),
{
    match p {
        Progress::Lost => LOSS_BANNER,
        Progress::Won => WIN_BANNER,
        _ => INSTRUCTIONS,
    }
}

impl Game {
    /// How the cell at `(x, y)` is drawn.
    pub fn look_at(&self, x: usize, y: usize) -> (r: Look)
        requires
            self@.wf(),
            x < self@.board.width,
            y < self@.board.height,
        ensures
            r == look_of(self@, x as int, y as int),
    {
        let b = self.board();
        let lost = self.progress() == Progress::Lost;
        let c = b.cell_at(x, y);
        let adj = b.adj_at(x, y);
        let (cx, cy) = self.cursor();
        Look { glyph: glyph(c, adj, lost), tint: tint(c, adj, lost), reversed: x == cx && y == cy }
    }
}

} // verus!
