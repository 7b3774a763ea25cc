use minesweeper::board::{Board, Outcome};
use minesweeper::cell::{Cell, Status};
use minesweeper::game::{Event, Game, Progress};

/// A board of `width` by `height` whose mines sit at the given flat positions.
fn board_with(width: usize, height: usize, mines: &[usize]) -> Board {
    let mut order: Vec<usize> = mines.to_vec();
    for i in 0..width * height {
        if !mines.contains(&i) {
            order.push(i);
        }
    }
    Board::new(width, height, mines.len(), order)
}

fn count_mines(b: &Board) -> usize {
    let mut n = 0;
    for y in 0..b.height() {
        for x in 0..b.width() {
            if b.cell_at(x, y).mine {
                n += 1;
            }
        }
    }
    n
}

fn brute_neighbors(b: &Board, x: usize, y: usize) -> u8 {
    let mut n = 0;
    for dy in -1i64..=1 {
        for dx in -1i64..=1 {
            if dx == 0 && dy == 0 {
                continue;
            }
            let nx = x as i64 + dx;
            let ny = y as i64 + dy;
            if nx >= 0 && ny >= 0 && (nx as usize) < b.width() && (ny as usize) < b.height() {
                if b.cell_at(nx as usize, ny as usize).mine {
                    n += 1;
                }
            }
        }
    }
    n
}

fn statuses(b: &Board) -> Vec<Status> {
    let mut v = Vec::new();
    for y in 0..b.height() {
        for x in 0..b.width() {
            v.push(b.status_at(x, y));
        }
    }
    v
}

fn mines_of(b: &Board) -> Vec<bool> {
    let mut v = Vec::new();
    for y in 0..b.height() {
        for x in 0..b.width() {
            v.push(b.cell_at(x, y).mine);
        }
    }
    v
}

fn all_safe_cleared(b: &Board) -> bool {
    for y in 0..b.height() {
        for x in 0..b.width() {
            let c = b.cell_at(x, y);
            if !c.mine && c.status != Status::Cleared {
                return false;
            }
        }
    }
    true
}

fn no_cleared_mine(b: &Board) -> bool {
    for y in 0..b.height() {
        for x in 0..b.width() {
            let c = b.cell_at(x, y);
            if c.mine && c.status == Status::Cleared {
                return false;
            }
        }
    }
    true
}

#[test]
fn single_reveal_win() {
    let mut b = board_with(2, 1, &[1]);
    assert_eq!(b.reveal_at(0, 0), Outcome::Win);
    assert_eq!(b.status_at(0, 0), Status::Cleared);
    assert_eq!(b.adj_at(0, 0), 1);
    assert_eq!(b.status_at(1, 0), Status::Unknown);
}

#[test]
fn flood_fill_clears_region_and_border() {
    let mut b = board_with(3, 3, &[8]);
    // Every safe cell is reached by the cascade, so the reveal wins.
    assert_eq!(b.reveal_at(0, 0), Outcome::Win);
    for (x, y) in [(0, 0), (1, 0), (2, 0), (0, 1), (1, 1), (2, 1), (0, 2), (1, 2)] {
        assert_eq!(b.status_at(x, y), Status::Cleared);
    }
    assert_eq!(b.status_at(2, 2), Status::Unknown);
    assert_eq!(b.adj_at(2, 1), 1);
    assert_eq!(b.adj_at(1, 1), 1);
    assert_eq!(b.adj_at(1, 2), 1);
    assert_eq!(b.adj_at(0, 0), 0);
    assert_eq!(b.adj_at(1, 0), 0);
    assert_eq!(b.adj_at(2, 0), 0);
    assert_eq!(b.adj_at(0, 1), 0);
    assert_eq!(b.adj_at(0, 2), 0);
    b.toggle_flag(2, 2);
    assert_eq!(b.status_at(2, 2), Status::Flagged);
    assert_eq!(b.reveal_at(0, 1), Outcome::NoOp);
    assert_eq!(b.reveal_at(2, 2), Outcome::NoOp);
    b.toggle_flag(2, 2);
    assert_eq!(b.status_at(2, 2), Status::Unknown);
    assert_eq!(b.reveal_at(2, 2), Outcome::MineHit);
}

#[test]
fn flood_fill_stops_at_numbered_border() {
    // 4 by 3 with mines in the right column: the cascade from the left
    // stops at the numbered column next to the mines.
    let mut b = board_with(4, 3, &[3, 7, 11]);
    assert!(b.is_first_move());
    assert_eq!(b.reveal_at(0, 0), Outcome::Win);
    let mut b = board_with(5, 3, &[3, 8, 13]);
    assert_eq!(b.reveal_at(0, 0), Outcome::Safe);
    for y in 0..3 {
        assert_eq!(b.status_at(0, y), Status::Cleared);
        assert_eq!(b.status_at(1, y), Status::Cleared);
        assert_eq!(b.status_at(2, y), Status::Cleared);
        assert_eq!(b.status_at(4, y), Status::Unknown);
    }
    assert_eq!(b.adj_at(2, 1), 3);
}

#[test]
fn first_move_relocates_mine() {
    let mut b = Board::new(2, 2, 1, vec![0, 3, 1, 2]);
    assert!(b.cell_at(0, 0).mine);
    assert_eq!(b.reveal_at(0, 0), Outcome::Safe);
    assert!(!b.cell_at(0, 0).mine);
    assert!(b.cell_at(1, 1).mine);
    assert!(!b.is_first_move());
    assert_eq!(count_mines(&b), 1);
    assert_eq!(b.adj_at(0, 0), 1);
    assert_eq!(b.status_at(0, 0), Status::Cleared);
    assert_eq!(b.status_at(1, 0), Status::Unknown);
    assert_eq!(b.status_at(0, 1), Status::Unknown);
    assert_eq!(b.status_at(1, 1), Status::Unknown);
}

#[test]
fn relocation_on_fullest_board() {
    // Only one safe cell: the first reveal moves the mine onto it and wins.
    let mut b = Board::new(2, 1, 1, vec![0, 1]);
    assert_eq!(b.reveal_at(0, 0), Outcome::Win);
    assert!(b.cell_at(1, 0).mine);
    assert_eq!(b.adj_at(0, 0), 1);
}

#[test]
fn flag_then_reveal_is_noop() {
    let mut b = board_with(3, 3, &[0, 8]);
    b.toggle_flag(0, 0);
    assert_eq!(b.reveal_at(0, 0), Outcome::NoOp);
    assert_eq!(b.status_at(0, 0), Status::Flagged);
    assert!(b.cell_at(0, 0).mine);
}

#[test]
fn mine_hit_after_first_move() {
    let mut g = Game::new(board_with(3, 3, &[0, 8]));
    g.handle(Event::MoveRight);
    assert_eq!(g.handle(Event::Reveal), Some(Outcome::Safe));
    assert_eq!(g.progress(), Progress::Running);
    g.handle(Event::MoveRight);
    g.handle(Event::MoveDown);
    g.handle(Event::MoveDown);
    assert_eq!(g.cursor(), (2, 2));
    assert_eq!(g.handle(Event::Reveal), Some(Outcome::MineHit));
    assert_eq!(g.progress(), Progress::Lost);
    // A finished game takes no more events.
    assert_eq!(g.handle(Event::MoveLeft), None);
    assert_eq!(g.cursor(), (2, 2));
}

#[test]
fn cursor_clamps_at_edges() {
    let mut g = Game::new(board_with(5, 5, &[12]));
    for _ in 0..5 {
        assert_eq!(g.handle(Event::MoveLeft), None);
        assert_eq!(g.cursor(), (0, 0));
        assert_eq!(g.progress(), Progress::Running);
    }
    for _ in 0..5 {
        g.handle(Event::MoveUp);
    }
    assert_eq!(g.cursor(), (0, 0));
    for _ in 0..9 {
        g.handle(Event::MoveRight);
        g.handle(Event::MoveDown);
    }
    assert_eq!(g.cursor(), (4, 4));
}

#[test]
fn quit_and_other_events() {
    let mut g = Game::new(board_with(3, 3, &[4]));
    assert_eq!(g.handle(Event::Other), None);
    assert_eq!(g.progress(), Progress::Running);
    assert_eq!(g.handle(Event::ToggleFlag), None);
    assert_eq!(g.board().status_at(0, 0), Status::Flagged);
    assert_eq!(g.handle(Event::Quit), None);
    assert_eq!(g.progress(), Progress::Quit);
    assert_eq!(g.handle(Event::Reveal), None);
    assert_eq!(g.board().status_at(0, 0), Status::Flagged);
}

#[test]
fn game_win_transition() {
    let mut g = Game::new(board_with(2, 1, &[1]));
    assert_eq!(g.handle(Event::Reveal), Some(Outcome::Win));
    assert_eq!(g.progress(), Progress::Won);
}

#[test]
fn single_cell_board_without_mines() {
    let mut b = Board::new(1, 1, 0, vec![0]);
    assert_eq!(b.adj_at(0, 0), 0);
    assert_eq!(b.reveal_at(0, 0), Outcome::Win);
    assert_eq!(b.reveal_at(0, 0), Outcome::NoOp);
}

#[test]
fn construction_lays_exactly_m_mines() {
    for (w, h, m) in [(1, 2, 1), (21, 11, 20), (5, 5, 24), (3, 7, 0), (9, 9, 10)] {
        let b = Board::new_random(w, h, m);
        assert_eq!(count_mines(&b), m);
        assert_eq!(b.mines(), m);
        assert!(b.is_first_move());
        assert!(statuses(&b).iter().all(|s| *s == Status::Unknown));
    }
}

#[test]
fn adjacency_counts_moore_neighbours() {
    for _ in 0..20 {
        let b = Board::new_random(7, 5, 12);
        for y in 0..5 {
            for x in 0..7 {
                assert_eq!(b.adj_at(x, y), brute_neighbors(&b, x, y));
            }
        }
    }
    // A mine's own count leaves the mine out.
    let b = board_with(3, 3, &[4]);
    assert_eq!(b.adj_at(1, 1), 0);
    assert_eq!(b.adj_at(0, 0), 1);
    let b = board_with(3, 3, &[0, 1, 2, 3, 5, 6, 7, 8]);
    assert_eq!(b.adj_at(1, 1), 8);
}

#[test]
fn reveal_sequences_keep_invariants() {
    for round in 0..30 {
        let mut b = Board::new_random(6, 4, 5);
        for step in 0..40usize {
            let x = (step * 7 + round) % 6;
            let y = (step * 5 + round * 3) % 4;
            let before_mines = mines_of(&b);
            let before = statuses(&b);
            if step % 3 == 2 {
                b.toggle_flag(x, y);
                assert_eq!(mines_of(&b), before_mines);
                let after = statuses(&b);
                for i in 0..before.len() {
                    if before[i] != after[i] {
                        assert_ne!(before[i], Status::Cleared);
                        assert_ne!(after[i], Status::Cleared);
                    }
                }
                continue;
            }
            let first = b.is_first_move();
            let r = b.reveal_at(x, y);
            if first && before[y * 6 + x] == Status::Unknown {
                assert_ne!(r, Outcome::MineHit);
            }
            assert!(no_cleared_mine(&b));
            assert_eq!(count_mines(&b), 5);
            let after = statuses(&b);
            let changes = (0..before.len()).filter(|i| before[*i] != after[*i]).count();
            assert!(changes <= 24);
            for i in 0..before.len() {
                if before[i] != after[i] {
                    assert_eq!(after[i], Status::Cleared);
                }
            }
            match r {
                Outcome::Win => {
                    assert!(all_safe_cleared(&b));
                    break;
                }
                Outcome::Safe => assert!(!all_safe_cleared(&b)),
                Outcome::MineHit => {
                    assert_eq!(after, before);
                    break;
                }
                Outcome::NoOp => assert_eq!(after, before),
            }
        }
    }
}

#[test]
fn first_reveal_never_hits_a_mine() {
    for y in 0..4 {
        for x in 0..4 {
            for _ in 0..5 {
                let mut b = Board::new_random(4, 4, 15);
                assert_ne!(b.reveal_at(x, y), Outcome::MineHit);
                assert_eq!(count_mines(&b), 15);
                assert!(!b.cell_at(x, y).mine);
            }
        }
    }
    let mut g = Game::new(board_with(2, 2, &[0, 1, 2]));
    g.handle(Event::Reveal);
    assert_eq!(g.progress(), Progress::Won);
}

#[test]
fn repeated_reveal_is_noop() {
    let mut b = board_with(4, 4, &[5, 10]);
    let r = b.reveal_at(0, 3);
    assert_ne!(r, Outcome::NoOp);
    let snapshot = statuses(&b);
    assert_eq!(b.reveal_at(0, 3), Outcome::NoOp);
    assert_eq!(b.reveal_at(0, 3), Outcome::NoOp);
    assert_eq!(statuses(&b), snapshot);
}

#[test]
fn toggle_flag_cycles_and_spares_cleared_cells() {
    let mut b = board_with(3, 1, &[2]);
    b.toggle_flag(1, 0);
    assert_eq!(b.status_at(1, 0), Status::Flagged);
    b.toggle_flag(1, 0);
    assert_eq!(b.status_at(1, 0), Status::Unknown);
    assert_eq!(b.reveal_at(0, 0), Outcome::Win);
    assert_eq!(b.status_at(0, 0), Status::Cleared);
    assert_eq!(b.status_at(1, 0), Status::Cleared);
    b.toggle_flag(0, 0);
    assert_eq!(b.status_at(0, 0), Status::Cleared);
    let _ = Cell { mine: false, status: Status::Unknown };
}

#[test]
fn cascade_clears_flagged_cells_on_the_way() {
    let mut b = board_with(4, 1, &[3]);
    b.toggle_flag(1, 0);
    assert_eq!(b.reveal_at(0, 0), Outcome::Win);
    assert_eq!(b.status_at(1, 0), Status::Cleared);
    assert_eq!(b.status_at(2, 0), Status::Cleared);
}

#[test]
fn random_layouts_are_shuffled() {
    // With the identity order every mine would sit in the first row positions.
    let mut moved = false;
    for _ in 0..5 {
        let b = Board::new_random(21, 11, 20);
        for i in 20..21 * 11 {
            if b.cell_at(i % 21, i / 21).mine {
                moved = true;
            }
        }
    }
    assert!(moved);
}
