use termint::buffer::Buffer;
use termint::enums::Color as TermColor;
use termint::geometry::{Rect, Vec2};

use tictactoe::board::{Board, Coord};
use tictactoe::cell::Cell;

fn val_at(buf: &Buffer, x: usize, y: usize) -> String {
    buf.cell(&Vec2::new(x, y)).unwrap().val.as_str().to_string()
}

fn fg_at(buf: &Buffer, x: usize, y: usize) -> TermColor {
    buf.cell(&Vec2::new(x, y)).unwrap().fg
}

#[test]
fn frame_and_grid_glyphs_are_drawn() {
    // A 5x5 board: the centred cursor frame stays clear of the glyphs
    // checked here.
    let b = Board::new(5, 5, 3);
    let mut buf = Buffer::empty(Rect::new(0, 0, 21, 11));
    b.render(&mut buf);
    // Corners.
    assert_eq!(val_at(&buf, 0, 0), "┌");
    assert_eq!(val_at(&buf, 20, 0), "┐");
    assert_eq!(val_at(&buf, 0, 10), "└");
    assert_eq!(val_at(&buf, 20, 10), "┘");
    // Top and bottom rules with joins under each cell boundary.
    assert_eq!(val_at(&buf, 1, 0), "─");
    assert_eq!(val_at(&buf, 4, 0), "┬");
    assert_eq!(val_at(&buf, 16, 0), "┬");
    assert_eq!(val_at(&buf, 4, 10), "┴");
    // Side columns: bars beside cell interiors, tees beside rules.
    assert_eq!(val_at(&buf, 0, 1), "│");
    assert_eq!(val_at(&buf, 0, 2), "├");
    assert_eq!(val_at(&buf, 20, 2), "┤");
    // Inner crosses where rules meet, and the bars between cells.
    assert_eq!(val_at(&buf, 4, 2), "┼");
    assert_eq!(val_at(&buf, 16, 8), "┼");
    assert_eq!(val_at(&buf, 4, 1), "│");
    // Borders are gray.
    assert_eq!(fg_at(&buf, 0, 0), TermColor::Gray);
    assert_eq!(fg_at(&buf, 1, 0), TermColor::Gray);
}

#[test]
fn marks_are_drawn_at_cell_centres_in_their_colours() {
    let mut b = Board::new(3, 3, 3);
    b.set(Cell::Cross, 0, 0).unwrap();
    b.set(Cell::Circle, 2, 1).unwrap();
    let mut buf = Buffer::empty(Rect::new(0, 0, 13, 7));
    b.render(&mut buf);
    assert_eq!(val_at(&buf, 2, 1), "X");
    assert_eq!(fg_at(&buf, 2, 1), TermColor::Green);
    assert_eq!(val_at(&buf, 10, 3), "O");
    assert_eq!(fg_at(&buf, 10, 3), TermColor::Red);
    // An empty cell keeps the blank interior.
    assert_eq!(val_at(&buf, 6, 3), " ");
}

#[test]
fn cursor_frame_meshes_with_the_grid() {
    // Cursor at the centre of a 3x3 grid: the interior frame glyphs.
    let b = Board::new(3, 3, 3);
    let mut buf = Buffer::empty(Rect::new(0, 0, 13, 7));
    b.render(&mut buf);
    assert_eq!(val_at(&buf, 4, 2), "╆");
    assert_eq!(val_at(&buf, 5, 2), "━");
    assert_eq!(val_at(&buf, 8, 2), "╅");
    assert_eq!(val_at(&buf, 4, 3), "┃");
    assert_eq!(val_at(&buf, 8, 3), "┃");
    assert_eq!(val_at(&buf, 4, 4), "╄");
    assert_eq!(val_at(&buf, 8, 4), "╃");
}

#[test]
fn cursor_frame_at_top_left_corner() {
    let mut b = Board::new(3, 3, 3);
    b.select(Coord { x: 0, y: 0 });
    let mut buf = Buffer::empty(Rect::new(0, 0, 13, 7));
    b.render(&mut buf);
    assert_eq!(val_at(&buf, 0, 0), "┏");
    assert_eq!(val_at(&buf, 4, 0), "┱");
    assert_eq!(val_at(&buf, 0, 2), "┡");
    assert_eq!(val_at(&buf, 4, 2), "╃");
}

#[test]
fn rendering_is_deterministic() {
    let mut b = Board::new(3, 3, 3);
    b.set(Cell::Cross, 0, 0).unwrap();
    b.set(Cell::Circle, 1, 1).unwrap();
    let mut one = Buffer::empty(Rect::new(0, 0, 13, 7));
    let mut two = Buffer::empty(Rect::new(0, 0, 13, 7));
    b.render(&mut one);
    b.render(&mut two);
    assert_eq!(one.content(), two.content());
}

#[test]
fn rendering_respects_the_buffer_origin() {
    let b = Board::new(3, 3, 3);
    let mut buf = Buffer::empty(Rect::new(3, 2, 13, 7));
    b.render(&mut buf);
    assert_eq!(val_at(&buf, 3, 2), "┌");
    assert_eq!(val_at(&buf, 15, 2), "┐");
    assert_eq!(val_at(&buf, 3, 8), "└");
}

#[test]
fn too_small_buffer_is_left_untouched() {
    let b = Board::new(3, 3, 3);
    let mut buf = Buffer::empty(Rect::new(0, 0, 5, 5));
    b.render(&mut buf);
    for y in 0..5 {
        for x in 0..5 {
            assert_eq!(val_at(&buf, x, y), " ");
            assert_eq!(fg_at(&buf, x, y), TermColor::Default);
        }
    }
}

#[test]
fn horizontal_win_draws_dashes_over_the_run() {
    let mut b = Board::new(3, 3, 3);
    b.set(Cell::Cross, 0, 0).unwrap();
    b.set(Cell::Circle, 0, 1).unwrap();
    b.set(Cell::Cross, 1, 0).unwrap();
    b.set(Cell::Circle, 1, 1).unwrap();
    assert_eq!(b.set(Cell::Cross, 2, 0), Ok(Some(Cell::Cross)));
    let mut buf = Buffer::empty(Rect::new(0, 0, 13, 7));
    b.render(&mut buf);
    for i in 0..6 {
        assert_eq!(val_at(&buf, 1 + 2 * i, 1), "-");
        assert_eq!(fg_at(&buf, 1 + 2 * i, 1), TermColor::Green);
    }
}

#[test]
fn vertical_win_draws_bars_over_the_run() {
    let mut b = Board::new(3, 3, 3);
    b.set(Cell::Circle, 1, 0).unwrap();
    b.set(Cell::Cross, 0, 0).unwrap();
    b.set(Cell::Circle, 1, 1).unwrap();
    b.set(Cell::Cross, 0, 1).unwrap();
    assert_eq!(b.set(Cell::Circle, 1, 2), Ok(Some(Cell::Circle)));
    let mut buf = Buffer::empty(Rect::new(0, 0, 13, 7));
    b.render(&mut buf);
    for i in 0..4 {
        assert_eq!(val_at(&buf, 6, 2 * i), "|");
        assert_eq!(fg_at(&buf, 6, 2 * i), TermColor::Red);
    }
}

#[test]
fn generalised_board_diagonal_strike() {
    // A 5x5 board with win length 4: Cross completes the falling
    // diagonal from (1,1); the strike-through is five backslashes
    // stepping four columns and two rows at a time.
    let mut b = Board::new(5, 5, 4);
    b.set(Cell::Cross, 1, 1).unwrap();
    b.set(Cell::Circle, 0, 0).unwrap();
    b.set(Cell::Cross, 2, 2).unwrap();
    b.set(Cell::Circle, 0, 1).unwrap();
    b.set(Cell::Cross, 3, 3).unwrap();
    b.set(Cell::Circle, 0, 2).unwrap();
    assert_eq!(b.set(Cell::Cross, 4, 4), Ok(Some(Cell::Cross)));
    assert_eq!(
        b.win,
        Some(tictactoe::board::WinSegment {
            origin: Coord { x: 1, y: 1 },
            dir: tictactoe::board::Dir::DownRight,
        })
    );
    let mut buf = Buffer::empty(Rect::new(0, 0, 21, 11));
    b.render(&mut buf);
    for i in 0..5 {
        assert_eq!(val_at(&buf, 4 + 4 * i, 2 + 2 * i), "\\");
        assert_eq!(fg_at(&buf, 4 + 4 * i, 2 + 2 * i), TermColor::Green);
    }
    // The thickening fillers between the backslashes.
    assert_eq!(val_at(&buf, 5, 3), "`");
    assert_eq!(val_at(&buf, 7, 3), "⹁");
}

#[test]
fn anti_diagonal_win_draws_slashes() {
    let mut b = Board::new(3, 3, 3);
    b.set(Cell::Cross, 2, 0).unwrap();
    b.set(Cell::Circle, 0, 0).unwrap();
    b.set(Cell::Cross, 1, 1).unwrap();
    b.set(Cell::Circle, 0, 1).unwrap();
    assert_eq!(b.set(Cell::Cross, 0, 2), Ok(Some(Cell::Cross)));
    let mut buf = Buffer::empty(Rect::new(0, 0, 13, 7));
    b.render(&mut buf);
    // Slashes from the top-right of the winning cell, stepping left.
    assert_eq!(val_at(&buf, 12, 0), "/");
    assert_eq!(val_at(&buf, 8, 2), "/");
    assert_eq!(val_at(&buf, 4, 4), "/");
    assert_eq!(val_at(&buf, 0, 6), "/");
    // The thickening fillers between the slashes.
    assert_eq!(val_at(&buf, 9, 1), ",");
    assert_eq!(val_at(&buf, 11, 1), "'");
}

#[test]
fn board_extent_matches_geometry() {
    let b = Board::new(3, 3, 3);
    assert_eq!(b.width(), 13);
    assert_eq!(b.height(), 7);
    let b = Board::new(5, 4, 3);
    assert_eq!(b.width(), 21);
    assert_eq!(b.height(), 9);
}
