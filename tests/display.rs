use minesweeper::board::Board;
use minesweeper::cell::{Cell, Status};
use minesweeper::game::{Event, Game, Progress};
use minesweeper::render::{banner, glyph, tint, Look, Tint, INSTRUCTIONS};
use minesweeper::terminal::{fits, margin_rows, required_size, required_size_for};

fn cell(mine: bool, status: Status) -> Cell {
    Cell { mine, status }
}

#[test]
fn glyphs_follow_status_and_count() {
    assert_eq!(glyph(cell(false, Status::Unknown), 0, false), '#');
    assert_eq!(glyph(cell(true, Status::Unknown), 2, false), '#');
    assert_eq!(glyph(cell(false, Status::Flagged), 1, false), 'F');
    assert_eq!(glyph(cell(false, Status::Cleared), 0, false), '.');
    assert_eq!(glyph(cell(false, Status::Cleared), 1, false), '1');
    assert_eq!(glyph(cell(false, Status::Cleared), 5, false), '5');
    assert_eq!(glyph(cell(false, Status::Cleared), 8, false), '8');
    assert_eq!(glyph(cell(false, Status::Cleared), 3, true), '3');
}

#[test]
fn lost_game_shows_every_mine() {
    assert_eq!(glyph(cell(true, Status::Unknown), 0, true), 'x');
    assert_eq!(glyph(cell(true, Status::Flagged), 0, true), 'x');
    assert_eq!(tint(cell(true, Status::Unknown), 0, true), Tint::BoldRed);
    assert_eq!(glyph(cell(false, Status::Flagged), 0, true), 'F');
}

#[test]
fn tints_follow_status_and_count() {
    assert_eq!(tint(cell(false, Status::Unknown), 0, false), Tint::BoldWhite);
    assert_eq!(tint(cell(false, Status::Flagged), 0, false), Tint::BoldRed);
    assert_eq!(tint(cell(false, Status::Cleared), 0, false), Tint::White);
    assert_eq!(tint(cell(false, Status::Cleared), 1, false), Tint::Blue);
    assert_eq!(tint(cell(false, Status::Cleared), 2, false), Tint::Green);
    assert_eq!(tint(cell(false, Status::Cleared), 3, false), Tint::Red);
    assert_eq!(tint(cell(false, Status::Cleared), 4, false), Tint::Magenta);
    assert_eq!(tint(cell(false, Status::Cleared), 7, false), Tint::Yellow);
}

#[test]
fn banners_per_progress() {
    assert_eq!(banner(Progress::Lost), "oops you hit the mine");
    assert_eq!(banner(Progress::Won), "hooray you're a winner!!!");
    assert_eq!(
        banner(Progress::Running),
        "arrow keys / hjkl: move cursor      d / enter: dig     f: flag"
    );
    assert_eq!(banner(Progress::Quit), INSTRUCTIONS);
}

#[test]
fn looks_mark_cursor_and_lost_mines() {
    let mut g = Game::new(Board::new(3, 1, 1, vec![2, 0, 1]));
    assert_eq!(g.look_at(0, 0), Look { glyph: '#', tint: Tint::BoldWhite, reversed: true });
    assert_eq!(g.look_at(1, 0), Look { glyph: '#', tint: Tint::BoldWhite, reversed: false });
    g.handle(Event::Reveal);
    assert_eq!(g.look_at(0, 0), Look { glyph: '.', tint: Tint::White, reversed: true });
    assert_eq!(g.look_at(1, 0), Look { glyph: '1', tint: Tint::Blue, reversed: false });
    assert_eq!(g.progress(), Progress::Won);

    let mut g = Game::new(Board::new(3, 1, 1, vec![2, 0, 1]));
    g.handle(Event::MoveRight);
    g.handle(Event::Reveal);
    g.handle(Event::MoveRight);
    g.handle(Event::Reveal);
    assert_eq!(g.progress(), Progress::Lost);
    assert_eq!(g.look_at(2, 0), Look { glyph: 'x', tint: Tint::BoldRed, reversed: true });
    assert_eq!(g.look_at(1, 0), Look { glyph: '1', tint: Tint::Blue, reversed: false });
    assert_eq!(g.look_at(0, 0), Look { glyph: '#', tint: Tint::BoldWhite, reversed: false });
}

#[test]
fn required_size_uses_instruction_width() {
    assert_eq!(required_size(21, 11), (64, 18));
    assert_eq!(required_size(100, 3), (102, 10));
}

#[test]
fn required_size_from_given_width() {
    assert_eq!(required_size_for(21, 11, 62), (64, 18));
    assert_eq!(required_size_for(70, 20, 62), (72, 27));
    assert_eq!(required_size_for(usize::MAX, usize::MAX, 0), (usize::MAX, usize::MAX));
}

#[test]
fn terminal_fit_and_margins() {
    assert!(fits(64, 18, 21, 11));
    assert!(!fits(63, 18, 21, 11));
    assert!(!fits(64, 17, 21, 11));
    assert_eq!(margin_rows(18, 11), 1);
    assert_eq!(margin_rows(40, 11), 12);
}
