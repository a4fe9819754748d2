use tictactoe::board::{Board, Coord, Dir, WinSegment};
use tictactoe::cell::Cell;
use tictactoe::error::Error;

#[test]
fn new_board_is_empty_and_centred() {
    let b = Board::new(3, 3, 3);
    assert_eq!(b.cells.len(), 9);
    assert!(b.cells.iter().all(|c| *c == Cell::Empty));
    assert_eq!(b.selected, Coord { x: 1, y: 1 });
    assert_eq!(b.size, Coord { x: 3, y: 3 });
    assert_eq!(b.win_len, 3);
    assert_eq!(b.state(), None);
    assert_eq!(b.win, None);
}

#[test]
fn cell_next_flips_turns() {
    assert_eq!(Cell::Cross.next(), Cell::Circle);
    assert_eq!(Cell::Circle.next(), Cell::Cross);
    assert_eq!(Cell::Empty.next(), Cell::Cross);
}

#[test]
fn cursor_moves_clamp_at_edges() {
    let mut b = Board::new(3, 3, 3);
    b.up();
    assert_eq!(b.selected, Coord { x: 1, y: 0 });
    b.up();
    assert_eq!(b.selected, Coord { x: 1, y: 0 });
    b.left();
    b.left();
    b.left();
    assert_eq!(b.selected, Coord { x: 0, y: 0 });
    b.down();
    b.down();
    b.down();
    assert_eq!(b.selected, Coord { x: 0, y: 2 });
    b.right();
    b.right();
    b.right();
    assert_eq!(b.selected, Coord { x: 2, y: 2 });
}

#[test]
fn select_sets_cursor() {
    let mut b = Board::new(5, 4, 3);
    b.select(Coord { x: 4, y: 0 });
    assert_eq!(b.selected, Coord { x: 4, y: 0 });
}

#[test]
fn circle_wins_main_diagonal() {
    let mut b = Board::new(3, 3, 3);
    assert_eq!(b.set(Cell::Cross, 0, 1), Ok(None));
    assert_eq!(b.set(Cell::Circle, 0, 0), Ok(None));
    assert_eq!(b.set(Cell::Cross, 1, 0), Ok(None));
    assert_eq!(b.set(Cell::Circle, 1, 1), Ok(None));
    assert_eq!(b.set(Cell::Cross, 0, 2), Ok(None));
    assert_eq!(b.set(Cell::Circle, 2, 2), Ok(Some(Cell::Circle)));
    assert_eq!(b.state(), Some(Cell::Circle));
    assert_eq!(
        b.win,
        Some(WinSegment { origin: Coord { x: 0, y: 0 }, dir: Dir::DownRight })
    );
}

#[test]
fn draw_on_full_board_without_run() {
    let mut b = Board::new(3, 3, 3);
    assert_eq!(b.set(Cell::Cross, 0, 0), Ok(None));
    assert_eq!(b.set(Cell::Circle, 1, 0), Ok(None));
    assert_eq!(b.set(Cell::Cross, 2, 0), Ok(None));
    assert_eq!(b.set(Cell::Circle, 1, 1), Ok(None));
    assert_eq!(b.set(Cell::Cross, 0, 1), Ok(None));
    assert_eq!(b.set(Cell::Circle, 2, 1), Ok(None));
    assert_eq!(b.set(Cell::Cross, 1, 2), Ok(None));
    assert_eq!(b.set(Cell::Circle, 0, 2), Ok(None));
    assert_eq!(b.set(Cell::Cross, 2, 2), Ok(Some(Cell::Empty)));
    assert_eq!(b.state(), Some(Cell::Empty));
    assert_eq!(b.win, None);
}

#[test]
fn occupied_cell_is_rejected_and_board_unchanged() {
    let mut b = Board::new(3, 3, 3);
    assert_eq!(b.set(Cell::Cross, 0, 0), Ok(None));
    let before = b.cells.clone();
    assert_eq!(b.set(Cell::Circle, 0, 0), Err(Error::CellOccupied));
    assert_eq!(b.cells, before);
    assert_eq!(b.state(), None);
    assert_eq!(b.set(Cell::Circle, 0, 1), Ok(None));
}

#[test]
fn placements_after_win_fail_until_restart() {
    let mut b = Board::new(3, 3, 3);
    b.set(Cell::Cross, 0, 0).unwrap();
    b.set(Cell::Circle, 0, 1).unwrap();
    b.set(Cell::Cross, 1, 0).unwrap();
    b.set(Cell::Circle, 1, 1).unwrap();
    assert_eq!(b.set(Cell::Cross, 2, 0), Ok(Some(Cell::Cross)));
    assert_eq!(b.set(Cell::Circle, 2, 2), Err(Error::GameEnded));
    assert_eq!(b.set(Cell::Cross, 2, 2), Err(Error::GameEnded));
    assert_eq!(b.state(), Some(Cell::Cross));
    b.restart();
    assert!(b.cells.iter().all(|c| *c == Cell::Empty));
    assert_eq!(b.state(), None);
    assert_eq!(b.win, None);
    assert_eq!(b.set(Cell::Circle, 2, 2), Ok(None));
}

#[test]
fn restart_is_idempotent_and_keeps_cursor() {
    let mut b = Board::new(4, 5, 3);
    b.select(Coord { x: 3, y: 4 });
    b.set(Cell::Cross, 0, 0).unwrap();
    b.restart();
    let once = b.clone();
    b.restart();
    assert_eq!(b.cells, once.cells);
    assert_eq!(b.selected, once.selected);
    assert_eq!(b.selected, Coord { x: 3, y: 4 });
    assert_eq!(b.state(), None);
    assert_eq!(b.win, None);
}

#[test]
fn vertical_and_anti_diagonal_wins_are_found() {
    let mut b = Board::new(4, 4, 3);
    b.set(Cell::Cross, 2, 1).unwrap();
    b.set(Cell::Circle, 0, 0).unwrap();
    b.set(Cell::Cross, 2, 2).unwrap();
    b.set(Cell::Circle, 1, 0).unwrap();
    assert_eq!(b.set(Cell::Cross, 2, 3), Ok(Some(Cell::Cross)));
    assert_eq!(
        b.win,
        Some(WinSegment { origin: Coord { x: 2, y: 1 }, dir: Dir::Down })
    );

    let mut b = Board::new(4, 4, 3);
    b.set(Cell::Circle, 3, 0).unwrap();
    b.set(Cell::Cross, 0, 0).unwrap();
    b.set(Cell::Circle, 2, 1).unwrap();
    b.set(Cell::Cross, 1, 0).unwrap();
    assert_eq!(b.set(Cell::Circle, 1, 2), Ok(Some(Cell::Circle)));
    assert_eq!(
        b.win,
        Some(WinSegment { origin: Coord { x: 3, y: 0 }, dir: Dir::DownLeft })
    );
}

#[test]
fn simultaneous_wins_record_first_in_scan_order() {
    // Placing at (0,0) completes both the top row and the left column;
    // the scanner records the row-major-first direction: Right.
    let mut b = Board::new(5, 5, 3);
    b.set(Cell::Cross, 1, 0).unwrap();
    b.set(Cell::Circle, 4, 4).unwrap();
    b.set(Cell::Cross, 2, 0).unwrap();
    b.set(Cell::Circle, 3, 4).unwrap();
    b.set(Cell::Cross, 0, 1).unwrap();
    b.set(Cell::Circle, 4, 3).unwrap();
    b.set(Cell::Cross, 0, 2).unwrap();
    b.set(Cell::Circle, 3, 3).unwrap();
    assert_eq!(b.set(Cell::Cross, 0, 0), Ok(Some(Cell::Cross)));
    assert_eq!(
        b.win,
        Some(WinSegment { origin: Coord { x: 0, y: 0 }, dir: Dir::Right })
    );
}

#[test]
fn oversized_win_length_never_wins() {
    // K greater than both dimensions is permitted but undrawable: the
    // game can only end in a draw.
    let mut b = Board::new(3, 3, 4);
    let marks = [Cell::Cross, Cell::Circle];
    let mut i = 0;
    for y in 0..3 {
        for x in 0..3 {
            let r = b.set(marks[i % 2], x, y).unwrap();
            if i < 8 {
                assert_eq!(r, None);
            } else {
                assert_eq!(r, Some(Cell::Empty));
            }
            i += 1;
        }
    }
    assert_eq!(b.state(), Some(Cell::Empty));
    assert_eq!(b.win, None);
}

#[test]
fn occupied_cells_stay_until_restart() {
    let mut b = Board::new(3, 3, 3);
    b.set(Cell::Cross, 1, 1).unwrap();
    b.set(Cell::Circle, 0, 0).unwrap();
    b.set(Cell::Cross, 2, 2).unwrap();
    assert_eq!(b.cells[4], Cell::Cross);
    assert_eq!(b.cells[0], Cell::Circle);
    assert_eq!(b.cells[8], Cell::Cross);
    b.up();
    b.left();
    let _ = b.set(Cell::Circle, 1, 1);
    assert_eq!(b.cells[4], Cell::Cross);
    assert_eq!(b.cells[0], Cell::Circle);
}
