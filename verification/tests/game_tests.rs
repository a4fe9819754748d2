use tictactoe::board::{Coord, Dir, WinSegment};
use tictactoe::buffer::Color;
use tictactoe::cell::Cell;
use tictactoe::error::Error;
use tictactoe::game::{default_win_len, fullscreen_size, Game, Input};

fn feed(g: &mut Game, inputs: &[Input]) {
    for i in inputs {
        let r = g.key_handler(*i);
        assert!(r != Err(Error::Exit) || *i == Input::Quit);
    }
}

#[test]
fn cross_wins_top_row() {
    let mut g = Game::new(3, 3, 3);
    assert_eq!(g.board.selected, Coord { x: 1, y: 1 });
    feed(
        &mut g,
        &[
            Input::Left,
            Input::Up,
            Input::Confirm,
            Input::Down,
            Input::Confirm,
            Input::Up,
            Input::Right,
            Input::Confirm,
            Input::Down,
            Input::Confirm,
            Input::Up,
            Input::Right,
            Input::Confirm,
        ],
    );
    assert_eq!(g.board.state(), Some(Cell::Cross));
    assert_eq!(
        g.board.win,
        Some(WinSegment { origin: Coord { x: 0, y: 0 }, dir: Dir::Right })
    );
    assert_eq!(g.status_text(), "X wins!");
    assert_eq!(g.score_cross, 1);
    assert_eq!(g.score_circle, 0);
}

#[test]
fn rejected_placement_keeps_turn() {
    let mut g = Game::new(3, 3, 3);
    feed(&mut g, &[Input::Left, Input::Up, Input::Confirm]);
    assert_eq!(g.player, Cell::Circle);
    // Confirm on the same, now occupied, cell: no turn change.
    feed(&mut g, &[Input::Confirm]);
    assert_eq!(g.player, Cell::Circle);
    assert_eq!(g.board.cells[0], Cell::Cross);
    // A placement elsewhere succeeds and flips the turn.
    feed(&mut g, &[Input::Down, Input::Confirm]);
    assert_eq!(g.player, Cell::Cross);
    assert_eq!(g.board.cells[3], Cell::Circle);
}

#[test]
fn enter_after_win_fails_until_restart() {
    let mut g = Game::new(3, 3, 3);
    feed(
        &mut g,
        &[
            Input::Left,
            Input::Up,
            Input::Confirm,
            Input::Down,
            Input::Confirm,
            Input::Up,
            Input::Right,
            Input::Confirm,
            Input::Down,
            Input::Confirm,
            Input::Up,
            Input::Right,
            Input::Confirm,
        ],
    );
    assert_eq!(g.board.state(), Some(Cell::Cross));
    let cursor = g.board.selected;
    let cells_before = g.board.cells.clone();
    // Any further Confirm is rejected and changes nothing.
    feed(&mut g, &[Input::Confirm, Input::Confirm]);
    assert_eq!(g.board.state(), Some(Cell::Cross));
    assert_eq!(g.board.cells, cells_before);
    feed(&mut g, &[Input::Restart]);
    assert!(g.board.cells.iter().all(|c| *c == Cell::Empty));
    assert_eq!(g.board.state(), None);
    assert_eq!(g.player, Cell::Cross);
    assert_eq!(g.board.selected, cursor);
}

#[test]
fn quit_signals_exit_and_other_is_ignored() {
    let mut g = Game::new(3, 3, 3);
    assert_eq!(g.key_handler(Input::Quit), Err(Error::Exit));
    assert_eq!(g.key_handler(Input::Other), Ok(false));
    assert_eq!(g.key_handler(Input::Resize), Ok(true));
}

#[test]
fn score_counts_wins_and_reset_zeroes_it() {
    let mut g = Game::new(3, 3, 3);
    feed(
        &mut g,
        &[
            Input::Left,
            Input::Up,
            Input::Confirm,
            Input::Down,
            Input::Confirm,
            Input::Up,
            Input::Right,
            Input::Confirm,
            Input::Down,
            Input::Confirm,
            Input::Up,
            Input::Right,
            Input::Confirm,
        ],
    );
    assert_eq!((g.score_cross, g.score_circle), (1, 0));
    feed(&mut g, &[Input::Restart]);
    assert_eq!((g.score_cross, g.score_circle), (1, 0));
    feed(&mut g, &[Input::ResetScore]);
    assert_eq!((g.score_cross, g.score_circle), (0, 0));
}

#[test]
fn status_text_follows_turn_and_outcome() {
    let mut g = Game::new(3, 3, 3);
    assert_eq!(g.status_text(), "X turn.");
    feed(&mut g, &[Input::Confirm]);
    assert_eq!(g.status_text(), "O turn.");
    // Fill to a draw.
    let mut b = Game::new(3, 3, 3);
    for (c, x, y) in [
        (Cell::Cross, 0, 0),
        (Cell::Circle, 1, 0),
        (Cell::Cross, 2, 0),
        (Cell::Circle, 1, 1),
        (Cell::Cross, 0, 1),
        (Cell::Circle, 2, 1),
        (Cell::Cross, 1, 2),
        (Cell::Circle, 0, 2),
        (Cell::Cross, 2, 2),
    ] {
        b.board.set(c, x, y).unwrap();
    }
    assert_eq!(b.status_text(), "Draw!");
    assert_eq!(b.board.win, None);
}

#[test]
fn movement_keeps_cursor_inside_grid() {
    let mut g = Game::new(4, 3, 3);
    let moves = [Input::Up, Input::Left, Input::Up, Input::Left, Input::Down, Input::Down,
        Input::Down, Input::Right, Input::Right, Input::Right, Input::Right, Input::Up];
    for m in moves {
        g.key_handler(m).unwrap();
        assert!(g.board.selected.x < 4);
        assert!(g.board.selected.y < 3);
    }
}

#[test]
fn default_win_len_is_larger_dimension_capped_at_five() {
    assert_eq!(default_win_len(3, 3), 3);
    assert_eq!(default_win_len(4, 3), 4);
    assert_eq!(default_win_len(3, 10), 5);
    assert_eq!(default_win_len(12, 9), 5);
}

#[test]
fn fullscreen_size_fits_cells_with_minimum_three() {
    // 80x24 terminal with a one-row help line: 19 cells across, 10 down.
    assert_eq!(fullscreen_size(80, 24, 1), (19, 10));
    // Tiny terminals still give the minimum 3x3 board.
    assert_eq!(fullscreen_size(0, 0, 0), (3, 3));
    assert_eq!(fullscreen_size(10, 5, 2), (3, 3));
}

#[test]
fn status_color_names_the_banner_mark() {
    let mut g = Game::new(3, 3, 3);
    // Cross to move: green turn banner.
    assert_eq!(g.status_color(), Color::Green);
    feed(&mut g, &[Input::Confirm]);
    // Circle to move: red turn banner.
    assert_eq!(g.status_color(), Color::Red);
    // Cross wins: green.
    feed(
        &mut g,
        &[
            Input::Up,
            Input::Left,
            Input::Confirm,
            Input::Down,
            Input::Left,
            Input::Confirm,
            Input::Up,
            Input::Right,
            Input::Confirm,
        ],
    );
    assert_eq!(g.board.state(), None);
    let mut won = Game::new(3, 3, 3);
    for (c, x, y) in [
        (Cell::Cross, 0, 0),
        (Cell::Circle, 0, 1),
        (Cell::Cross, 1, 0),
        (Cell::Circle, 1, 1),
        (Cell::Cross, 2, 0),
    ] {
        won.board.set(c, x, y).unwrap();
    }
    assert_eq!(won.status_color(), Color::Green);
    // A draw carries no player colour.
    let mut draw = Game::new(3, 3, 3);
    for (c, x, y) in [
        (Cell::Cross, 0, 0),
        (Cell::Circle, 1, 0),
        (Cell::Cross, 2, 0),
        (Cell::Circle, 1, 1),
        (Cell::Cross, 0, 1),
        (Cell::Circle, 2, 1),
        (Cell::Cross, 1, 2),
        (Cell::Circle, 0, 2),
        (Cell::Cross, 2, 2),
    ] {
        draw.board.set(c, x, y).unwrap();
    }
    assert_eq!(draw.status_color(), Color::Default);
}

#[test]
fn circle_win_colours_the_banner_red() {
    let mut g = Game::new(3, 3, 3);
    for (c, x, y) in [
        (Cell::Cross, 0, 1),
        (Cell::Circle, 0, 0),
        (Cell::Cross, 1, 0),
        (Cell::Circle, 1, 1),
        (Cell::Cross, 0, 2),
        (Cell::Circle, 2, 2),
    ] {
        g.board.set(c, x, y).unwrap();
    }
    assert_eq!(g.status_text(), "O wins!");
    assert_eq!(g.status_color(), Color::Red);
}

#[test]
fn score_text_renders_both_counters_in_decimal() {
    let mut g = Game::new(3, 3, 3);
    assert_eq!(g.score_text(), "0:0");
    g.score_cross = 123456;
    g.score_circle = 7;
    assert_eq!(g.score_text(), "123456:7");
    g.score_cross = 10;
    g.score_circle = 205;
    assert_eq!(g.score_text(), "10:205");
}

#[test]
fn score_is_appended_only_when_it_fits_the_board_width() {
    // A 3x3 board is 13 characters wide: "X turn." (7) plus "0:0" (3)
    // fits, but a long score does not.
    let mut g = Game::new(3, 3, 3);
    assert!(g.score_fits());
    g.score_cross = 123456789;
    assert!(!g.score_fits());
}
