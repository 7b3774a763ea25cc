//! The game driver: a cursor over the board, a progress state, and one step
//! per semantic input event.
use vstd::prelude::*;
use crate::board::{Board, BoardModel, Outcome};

verus! {

/// A semantic input event.
#[derive(Clone, Copy, Debug, PartialEq, Eq, Structural)]
pub enum Event {
    MoveUp,
    MoveDown,
    MoveLeft,
    MoveRight,
    Reveal,
    ToggleFlag,
    Quit,
    /// An input with no meaning to the game; it changes nothing.
    Other,
}

/// Where the game stands.
#[derive(Clone, Copy, Debug, PartialEq, Eq, Structural)]
pub enum Progress {
    Running,
    Lost,
    Won,
    Quit,
}

/// The progress a reveal with outcome `r` leads to from a running game.
pub open spec fn progress_after(r: Outcome) -> Progress {
    match r {
        Outcome::MineHit => Progress::Lost,
        Outcome::Win => Progress::Won,
        _ => Progress::Running,
    }
}

/// The mathematical content of a game.
pub struct GameModel {
    pub board: BoardModel,
    pub cursor_x: nat,
    pub cursor_y: nat,
    pub progress: Progress,
}

impl GameModel {
    pub open spec fn wf(self) -> bool {
        &&& self.board.wf()
        &&& self.cursor_x < self.board.width
        &&& self.cursor_y < self.board.height
    }

    /// The game after the cursor moves by one step, clamped to the grid.
    pub open spec fn moved(self, e: Event) -> GameModel {
        match e {
            Event::MoveUp => GameModel {
                cursor_y: if self.cursor_y > 0 { (self.cursor_y - 1) as nat } else { 0 },
                ..self
            },
            Event::MoveDown => GameModel {
                cursor_y: if self.cursor_y + 1 < self.board.height { self.cursor_y + 1 } else { self.cursor_y },
                ..self
            },
            Event::MoveLeft => GameModel {
                cursor_x: if self.cursor_x > 0 { (self.cursor_x - 1) as nat } else { 0 },
                ..self
            },
            Event::MoveRight => GameModel {
                cursor_x: if self.cursor_x + 1 < self.board.width { self.cursor_x + 1 } else { self.cursor_x },
                ..self
            },
            _ => self,
        }
    }

    /// `after` and `r` are what handling event `e` in this game gives.
    pub open spec fn step_result(self, e: Event, after: GameModel, r: Option<Outcome>) -> bool {
        if self.progress != Progress::Running {
            after == self && r is None
        } else {
            match e {
                Event::Reveal => {
                    &&& r is Some
                    &&& self.board.reveal_result(
                        after.board,
                        self.cursor_x as int,
                        self.cursor_y as int,
                        r->Some_0,
                    )
                    &&& after.cursor_x == self.cursor_x
                    &&& after.cursor_y == self.cursor_y
                    &&& after.progress == progress_after(r->Some_0)
                },
                Event::ToggleFlag => {
                    &&& r is None
                    &&& after == (GameModel {
                        board: self.board.flag_toggled(self.cursor_x as int, self.cursor_y as int),
                        ..self
                    })
                },
                Event::Quit => r is None && after == (GameModel { progress: Progress::Quit, ..self }),
                _ => r is None && after == self.moved(e),
            }
        }
    }
}

/// A game in play: the board, the cursor and the progress.
pub struct Game {
    board: Board,
    cursor_x: usize,
    cursor_y: usize,
    progress: Progress,
}

impl View for Game {
    type V = GameModel;

    closed spec fn view(&self) -> GameModel {
        GameModel {
            board: self.board@,
            cursor_x: self.cursor_x as nat,
            cursor_y: self.cursor_y as nat,
            progress: self.progress,
        }
    }
}

impl Game {
    /// A running game on `board` with the cursor at `(0, 0)`.
    pub fn new(board: Board) -> (g: Game)
        requires
            board@.wf(),
        ensures
            g@.wf(),
            g@ == (GameModel { board: board@, cursor_x: 0, cursor_y: 0, progress: Progress::Running }),
    {
        Game { board, cursor_x: 0, cursor_y: 0, progress: Progress::Running }
    }

    pub fn board(&self) -> (b: &Board)
        ensures
            b@ == self@.board,
    {
        &self.board
    }

    pub fn cursor(&self) -> (c: (usize, usize))
        ensures
            c.0 == self@.cursor_x,
            c.1 == self@.cursor_y,
    {
        (self.cursor_x, self.cursor_y)
    }

    pub fn progress(&self) -> (p: Progress)
        ensures
            p == self@.progress,
    {
        self.progress
    }

    /// Handles one event. Moves clamp the cursor to the grid; `Reveal` and
    /// `ToggleFlag` act at the cursor, and a reveal's outcome is returned;
    /// `Quit` ends the game. Once the game has ended, events change nothing.
    pub fn handle(&mut self, e: Event) -> (r: Option<Outcome>)
        requires
            old(self)@.wf(),
        ensures
            final(self)@.wf(),
            old(self)@.step_result(e, final(self)@, r),
            old(self)@.progress == Progress::Running && old(self)@.board.first_move && e
                == Event::Reveal ==> final(self)@.progress != Progress::Lost,
    {
        if self.progress != Progress::Running {
            return None;
        }
        match e {
            Event::MoveUp => {
                if self.cursor_y > 0 {
                    self.cursor_y = self.cursor_y - 1;
                }
                None
            },
            Event::MoveDown => {
                if self.cursor_y < self.board.height() - 1 {
                    self.cursor_y = self.cursor_y + 1;
                }
                None
            },
            Event::MoveLeft => {
                if self.cursor_x > 0 {
                    self.cursor_x = self.cursor_x - 1;
                }
                None
            },
            Event::MoveRight => {
                if self.cursor_x < self.board.width() - 1 {
                    self.cursor_x = self.cursor_x + 1;
                }
                None
            },
            Event::Reveal => {
                let r = self.board.reveal_at(self.cursor_x, self.cursor_y);
                self.progress = match r {
                    Outcome::MineHit => Progress::Lost,
                    Outcome::Win => Progress::Won,
                    _ => Progress::Running,
                };
                Some(r)
            },
            Event::ToggleFlag => {
                self.board.toggle_flag(self.cursor_x, self.cursor_y);
                None
            },
            Event::Quit => {
                self.progress = Progress::Quit;
                None
            },
            Event::Other => None,
        }
    }
}

} // verus!
