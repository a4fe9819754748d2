//! The input controller: maps abstract input events to board operations,
//! tracks whose turn it is and the score, and says when to re-render.

use vstd::prelude::*;

use crate::board::{grid_idx, is_restarted, Board, Coord};
use crate::buffer::Color;
use crate::cell::Cell;
use crate::error::Error;

verus! {

/// An abstract input event, as the event source hands it to the
/// controller. The controller depends on no richer event model.
#[derive(Debug, PartialEq, Eq, Structural, Clone, Copy)]
pub enum Input {
    Up,
    Down,
    Left,
    Right,
    Confirm,
    Restart,
    ResetScore,
    Quit,
    Resize,
    Other,
}

/// The controller state: one board, whose turn it is, and the score of
/// the two players (cross wins, circle wins; a draw counts for both).
#[derive(Debug, Clone)]
pub struct Game {
    pub board: Board,
    pub player: Cell,
    pub score_cross: usize,
    pub score_circle: usize,
}

impl Game {
    /// Well-formedness: the board is well-formed and the turn marker is an
    /// actual player.
    pub open spec fn wf(self) -> bool {
        &&& self.board.wf()
        &&& self.player != Cell::Empty
    }

    /// Creates a controller around a fresh board, with Cross to move and a
    /// zero score.
    pub fn new(width: usize, height: usize, win_len: usize) -> (g: Game)
        requires
            width >= 3,
            height >= 3,
            win_len >= 3,
            width * height <= usize::MAX,
        ensures
            g.wf(),
            g.board.size == (Coord { x: width, y: height }),
            g.board.win_len == win_len,
            g.board.selected == (Coord { x: width / 2, y: height / 2 }),
            g.board.cells@ == Seq::new((width * height) as nat, |i: int| Cell::Empty),
            g.board.state is None,
            g.board.win is None,
            g.player == Cell::Cross,
            g.score_cross == 0,
            g.score_circle == 0,
    {
        Game {
            board: Board::new(width, height, win_len),
            player: Cell::Cross,
            score_cross: 0,
            score_circle: 0,
        }
    }

    /// Handles one input event.
    ///
    /// Directional events move the cursor; `Confirm` places the current
    /// player's mark at the cursor, advancing the turn on success and
    /// changing nothing on a rejected placement; `Restart` restarts the
    /// board and gives Cross the move; `ResetScore` zeroes the score;
    /// `Quit` signals the `Exit` condition; `Resize` changes nothing;
    /// any other event is ignored.
    ///
    /// Returns `Ok(true)` when the screen must be re-rendered, `Ok(false)`
    /// when the event is ignored, and `Err(Error::Exit)` for `Quit`.
    pub fn key_handler(&mut self, input: Input) -> (r: Result<bool, Error>)
        requires
            old(self).wf(),
        ensures
            final(self).wf(),
            final(self).board.size == old(self).board.size,
            final(self).board.win_len == old(self).board.win_len,
            match input {
                Input::Up => {
                    &&& r == Ok::<bool, Error>(true)
                    &&& final(self).player == old(self).player
                    &&& final(self).score_cross == old(self).score_cross
                    &&& final(self).score_circle == old(self).score_circle
                    &&& final(self).board.cells == old(self).board.cells
                    &&& final(self).board.state == old(self).board.state
                    &&& final(self).board.win == old(self).board.win
                    &&& final(self).board.selected.x == old(self).board.selected.x
                    &&& final(self).board.selected.y == if old(self).board.selected.y > 0 {
                        old(self).board.selected.y - 1
                    } else {
                        0int
                    }
                },
                Input::Down => {
                    &&& r == Ok::<bool, Error>(true)
                    &&& final(self).player == old(self).player
                    &&& final(self).score_cross == old(self).score_cross
                    &&& final(self).score_circle == old(self).score_circle
                    &&& final(self).board.cells == old(self).board.cells
                    &&& final(self).board.state == old(self).board.state
                    &&& final(self).board.win == old(self).board.win
                    &&& final(self).board.selected.x == old(self).board.selected.x
                    &&& final(self).board.selected.y == if old(self).board.selected.y + 1
                        < old(self).board.size.y {
                        old(self).board.selected.y + 1
                    } else {
                        old(self).board.size.y - 1
                    }
                },
                Input::Left => {
                    &&& r == Ok::<bool, Error>(true)
                    &&& final(self).player == old(self).player
                    &&& final(self).score_cross == old(self).score_cross
                    &&& final(self).score_circle == old(self).score_circle
                    &&& final(self).board.cells == old(self).board.cells
                    &&& final(self).board.state == old(self).board.state
                    &&& final(self).board.win == old(self).board.win
                    &&& final(self).board.selected.y == old(self).board.selected.y
                    &&& final(self).board.selected.x == if old(self).board.selected.x > 0 {
                        old(self).board.selected.x - 1
                    } else {
                        0int
                    }
                },
                Input::Right => {
                    &&& r == Ok::<bool, Error>(true)
                    &&& final(self).player == old(self).player
                    &&& final(self).score_cross == old(self).score_cross
                    &&& final(self).score_circle == old(self).score_circle
                    &&& final(self).board.cells == old(self).board.cells
                    &&& final(self).board.state == old(self).board.state
                    &&& final(self).board.win == old(self).board.win
                    &&& final(self).board.selected.y == old(self).board.selected.y
                    &&& final(self).board.selected.x == if old(self).board.selected.x + 1
                        < old(self).board.size.x {
                        old(self).board.selected.x + 1
                    } else {
                        old(self).board.size.x - 1
                    }
                },
                Input::Confirm => {
                    &&& r == Ok::<bool, Error>(true)
                    &&& final(self).board.selected == old(self).board.selected
                    &&& (old(self).board.state is Some ==> *final(self) == *old(self))
                    &&& (old(self).board.state is None && old(self).board.cells@[grid_idx(
                        old(self).board.w(),
                        old(self).board.selected.x as int,
                        old(self).board.selected.y as int,
                    )] != Cell::Empty ==> *final(self) == *old(self))
                    &&& (old(self).board.state is None && old(self).board.cells@[grid_idx(
                        old(self).board.w(),
                        old(self).board.selected.x as int,
                        old(self).board.selected.y as int,
                    )] == Cell::Empty ==> {
                        &&& final(self).board.cells@ == old(self).board.cells@.update(
                            grid_idx(
                                old(self).board.w(),
                                old(self).board.selected.x as int,
                                old(self).board.selected.y as int,
                            ),
                            old(self).player,
                        )
                        &&& final(self).player == old(self).player.spec_next()
                        &&& final(self).score_cross == spec_bump(
                            old(self).score_cross,
                            final(self).board.state == Some(Cell::Cross) || final(self).board.state
                                == Some(Cell::Empty),
                        )
                        &&& final(self).score_circle == spec_bump(
                            old(self).score_circle,
                            final(self).board.state == Some(Cell::Circle) || final(self).board.state
                                == Some(Cell::Empty),
                        )
                    })
                },
                Input::Restart => {
                    &&& r == Ok::<bool, Error>(true)
                    &&& is_restarted(old(self).board, final(self).board)
                    &&& final(self).player == Cell::Cross
                    &&& final(self).score_cross == old(self).score_cross
                    &&& final(self).score_circle == old(self).score_circle
                },
                Input::ResetScore => {
                    &&& r == Ok::<bool, Error>(true)
                    &&& final(self).board == old(self).board
                    &&& final(self).player == old(self).player
                    &&& final(self).score_cross == 0
                    &&& final(self).score_circle == 0
                },
                Input::Quit => r == Err::<bool, Error>(Error::Exit) && *final(self) == *old(self),
                Input::Resize => r == Ok::<bool, Error>(true) && *final(self) == *old(self),
                Input::Other => r == Ok::<bool, Error>(false) && *final(self) == *old(self),
            },
    {
        match input {
            Input::Up => {
                self.board.up();
                Ok(true)
            },
            Input::Down => {
                self.board.down();
                Ok(true)
            },
            Input::Left => {
                self.board.left();
                Ok(true)
            },
            Input::Right => {
                self.board.right();
                Ok(true)
            },
            Input::Confirm => {
                let player = self.player;
                match self.board.set_selected(player) {
                    Ok(st) => {
                        self.player = player.next();
                        match st {
                            Some(Cell::Cross) => {
                                self.score_cross = bump(self.score_cross);
                            },
                            Some(Cell::Circle) => {
                                self.score_circle = bump(self.score_circle);
                            },
                            Some(Cell::Empty) => {
                                self.score_cross = bump(self.score_cross);
                                self.score_circle = bump(self.score_circle);
                            },
                            None => {},
                        }
                    },
                    Err(_) => {},
                }
                Ok(true)
            },
            Input::Restart => {
                self.board.restart();
                self.player = Cell::Cross;
                Ok(true)
            },
            Input::ResetScore => {
                self.score_cross = 0;
                self.score_circle = 0;
                Ok(true)
            },
            Input::Quit => Err(Error::Exit),
            Input::Resize => Ok(true),
            Input::Other => Ok(false),
        }
    }

    /// The status banner for the current state: the winner and " wins!"
    /// after a win, "Draw!" after a draw, and the current player and
    /// " turn." while the game goes on.
    pub fn status_text(&self) -> (r: String)
        ensures
            r@ == self.spec_status_text(),
    {
        match self.board.state() {
            Some(Cell::Empty) => "Draw!".to_owned(),
            Some(Cell::Cross) => "X wins!".to_owned(),
            Some(Cell::Circle) => "O wins!".to_owned(),
            None => {
                if let Cell::Circle = self.player {
                    "O turn.".to_owned()
                } else {
                    "X turn.".to_owned()
                }
            },
        }
    }

    /// What `status_text` returns.
    pub open spec fn spec_status_text(self) -> Seq<char> {
        match self.board.state {
            Some(c) => {
                if c == Cell::Empty {
                    "Draw!"@
                } else if c == Cell::Cross {
                    "X wins!"@
                } else {
                    "O wins!"@
                }
            },
            None => {
                if self.player == Cell::Circle {
                    "O turn."@
                } else {
                    "X turn."@
                }
            },
        }
    }
}

/// What a score counter becomes when its player is credited: one more,
/// saturating at the top of `usize`.
pub open spec fn spec_bump(n: usize, credited: bool) -> int {
    if credited {
        if n < usize::MAX {
            n + 1
        } else {
            n as int
        }
    } else {
        n as int
    }
}

/// One more, saturating at the top of `usize`.
fn bump(n: usize) -> (r: usize)
    ensures
        r == spec_bump(n, true),
{
    if n < usize::MAX {
        n + 1
    } else {
        n
    }
}

/// The default win length for a W x H board: the larger dimension, capped
/// at five.
pub fn default_win_len(width: usize, height: usize) -> (r: usize)
    ensures
        r == if width >= height {
            if width < 5 {
                width as int
            } else {
                5
            }
        } else {
            if height < 5 {
                height as int
            } else {
                5
            }
        },
{
    let m = if width >= height {
        width
    } else {
        height
    };
    if m < 5 {
        m
    } else {
        5
    }
}

/// The board size derived from the terminal size: as many 4-column cells
/// as fit beside the border, and as many 2-row cells as fit under the
/// status line and the help text, each at least 3.
pub fn fullscreen_size(term_w: usize, term_h: usize, help_height: usize) -> (r: (usize, usize))
    ensures
        r.0 == spec_fit_dim(term_w, 1, 4),
        r.1 == spec_fit_dim(term_h, 2 + help_height as int, 2),
{
    let w = if term_w > 0 {
        (term_w - 1) / 4
    } else {
        0
    };
    let h = if term_h > 2 && term_h - 2 > help_height {
        (term_h - 2 - help_height) / 2
    } else {
        0
    };
    (if w > 3 {
        w
    } else {
        3
    }, if h > 3 {
        h
    } else {
        3
    })
}

/// How many cells of `cell_extent` character cells fit in `avail`
/// terminal cells after `reserved` are taken off, at least 3.
pub open spec fn spec_fit_dim(avail: usize, reserved: int, cell_extent: int) -> int {
    let room = if avail > reserved {
        (avail - reserved) / cell_extent
    } else {
        0
    };
    if room > 3 {
        room
    } else {
        3
    }
}


impl Game {
    /// The colour of the status banner: the colour of the mark it names —
    /// green for Cross, red for Circle, and none on a draw.
    pub open spec fn spec_status_color(self) -> Color {
        match self.board.state {
            Some(c) => {
                if c == Cell::Empty {
                    Color::Default
                } else if c == Cell::Cross {
                    Color::Green
                } else {
                    Color::Red
                }
            },
            None => {
                if self.player == Cell::Circle {
                    Color::Red
                } else {
                    Color::Green
                }
            },
        }
    }

    /// Picks the status banner's colour.
    pub fn status_color(&self) -> (r: Color)
        ensures
            r == self.spec_status_color(),
    {
        match self.board.state() {
            Some(Cell::Empty) => Color::Default,
            Some(Cell::Cross) => Color::Green,
            Some(Cell::Circle) => Color::Red,
            None => {
                if let Cell::Circle = self.player {
                    Color::Red
                } else {
                    Color::Green
                }
            },
        }
    }

    /// What `score_text` returns: cross wins, a colon, circle wins.
    pub open spec fn spec_score_text(self) -> Seq<char> {
        dec_rep(self.score_cross as int) + ":"@ + dec_rep(self.score_circle as int)
    }

    /// The score line, both counters in decimal.
    pub fn score_text(&self) -> (r: String)
        ensures
            r@ == self.spec_score_text(),
    {
        let mut s = to_decimal(self.score_cross);
        s.append(":");
        let tail = to_decimal(self.score_circle);
        s.append(tail.as_str());
        s
    }

    /// Whether the status banner and the score line fit side by side in
    /// the board's drawn width.
    pub fn score_fits(&self) -> (r: bool)
        requires
            4 * self.board.w() + 1 <= usize::MAX,
        ensures
            r == (self.spec_status_text().len() + self.spec_score_text().len() <= 4 * self.board.w()
                + 1),
    {
        let limit = self.board.size.x * 4 + 1;
        let status = self.status_text();
        let score = self.score_text();
        let status_len = status.as_str().unicode_len();
        let score_len = score.as_str().unicode_len();
        if score_len > limit {
            false
        } else {
            status_len <= limit - score_len
        }
    }
}

/// The character of one decimal digit.
pub open spec fn digit_char(d: int) -> char {
    if d == 1 {
        '1'
    } else if d == 2 {
        '2'
    } else if d == 3 {
        '3'
    } else if d == 4 {
        '4'
    } else if d == 5 {
        '5'
    } else if d == 6 {
        '6'
    } else if d == 7 {
        '7'
    } else if d == 8 {
        '8'
    } else if d == 9 {
        '9'
    } else {
        '0'
    }
}

/// The decimal text of `n`, most significant digit first.
pub open spec fn dec_rep(n: int) -> Seq<char>
    decreases n,
{
    if n < 10 {
        seq![digit_char(n)]
    } else {
        dec_rep(n / 10) + seq![digit_char(n % 10)]
    }
}

/// The digits collected lowest first, reversed back into display order.
spec fn digits_rev(ds: Seq<usize>) -> Seq<char> {
    Seq::new(ds.len(), |i: int| digit_char(ds[ds.len() - 1 - i] as int))
}

/// The one-character string of a decimal digit.
fn digit_str(d: usize) -> (r: &'static str)
    requires
        d < 10,
    ensures
        r@ == seq![digit_char(d as int)],
{
    proof {
        reveal_strlit("0");
        reveal_strlit("1");
        reveal_strlit("2");
        reveal_strlit("3");
        reveal_strlit("4");
        reveal_strlit("5");
        reveal_strlit("6");
        reveal_strlit("7");
        reveal_strlit("8");
        reveal_strlit("9");
    }
    let r: &'static str = if d == 0 {
        "0"
    } else if d == 1 {
        "1"
    } else if d == 2 {
        "2"
    } else if d == 3 {
        "3"
    } else if d == 4 {
        "4"
    } else if d == 5 {
        "5"
    } else if d == 6 {
        "6"
    } else if d == 7 {
        "7"
    } else if d == 8 {
        "8"
    } else {
        "9"
    };
    proof {
        assert(r@ =~= seq![digit_char(d as int)]);
    }
    r
}

/// Formats `n` in decimal.
fn to_decimal(n: usize) -> (s: String)
    ensures
        s@ == dec_rep(n as int),
{
    let mut digits: Vec<usize> = Vec::new();
    let mut m = n;
    while m >= 10
        invariant
            forall|i: int| 0 <= i < digits@.len() ==> digits@[i] < 10,
            dec_rep(n as int) == dec_rep(m as int) + digits_rev(digits@),
        decreases m,
    {
        let d = m % 10;
        let ghost ds0 = digits@;
        digits.push(d);
        proof {
            assert(digits_rev(ds0.push(d)) =~= seq![digit_char(d as int)] + digits_rev(ds0));
            assert(dec_rep(m as int) == dec_rep(m as int / 10) + seq![
                digit_char(m as int % 10),
            ]);
            assert(dec_rep(n as int) =~= dec_rep((m / 10) as int) + digits_rev(digits@));
        }
        m = m / 10;
    }
    let lead = m;
    let mut s = String::from_str(digit_str(lead));
    proof {
        assert(dec_rep(lead as int) == seq![digit_char(lead as int)]);
        assert(s@ =~= seq![digit_char(lead as int)] + digits_rev(digits@).subrange(0, 0));
    }
    let mut idx = digits.len();
    while idx > 0
        invariant
            idx <= digits@.len(),
            lead < 10,
            forall|i: int| 0 <= i < digits@.len() ==> digits@[i] < 10,
            dec_rep(n as int) == seq![digit_char(lead as int)] + digits_rev(digits@),
            s@ == seq![digit_char(lead as int)] + digits_rev(digits@).subrange(
                0,
                digits@.len() - idx,
            ),
        decreases idx,
    {
        idx = idx - 1;
        let d = digits[idx];
        s.append(digit_str(d));
        proof {
            let ds = digits@;
            assert(digits_rev(ds)[ds.len() - idx - 1] == digit_char(ds[idx as int] as int));
            assert(s@ =~= seq![digit_char(lead as int)] + digits_rev(ds).subrange(
                0,
                ds.len() - idx,
            ));
        }
    }
    proof {
        assert(digits_rev(digits@).subrange(0, digits@.len() as int) =~= digits_rev(digits@));
    }
    s
}

} // verus!
