//! The box-drawing renderer: paints a board into a terminal back-buffer.
//!
//! The painting is layered, later layers overpainting earlier ones: the
//! inner grid fill, the outer frame, the marks, the cursor frame, and the
//! strike-through over a winning run. Each layer is a mathematical map
//! from absolute buffer positions to characters (and one to colour
//! codes), and the renderer's contract says that the buffer's content
//! after the call is the old content overlaid with exactly those maps —
//! rendering is a pure function of the board and the buffer's rectangle.

use vstd::prelude::*;

use termint::buffer::Buffer;

use crate::board::{grid_idx, lemma_grid_idx_bounds, Board, Dir};
use crate::cell::Cell;
use crate::buffer::{
    buf_chars, buf_fg, buf_h, buf_height, buf_left, buf_set_char, buf_set_fg, buf_top, buf_w,
    buf_width, buf_x, buf_y, in_buf, same_rect, Color,
};

verus! {

/// The board fits the buffer: the drawn extent (4W+1 columns by 2H+1
/// rows) lies inside the buffer's rectangle, whose corners stay within
/// the machine's address range.
pub open spec fn render_fits(b: Board, buf: Buffer) -> bool {
    &&& 4 * b.w() + 1 <= buf_width(buf)
    &&& 2 * b.h() + 1 <= buf_height(buf)
    &&& buf_left(buf) + buf_width(buf) <= usize::MAX
    &&& buf_top(buf) + buf_height(buf) <= usize::MAX
}

/// One horizontal run of the 4-periodic border pattern: `n` characters at
/// `(x0 + j, y)`, a `join` at every fourth position (`j % 4 == 3`) and a
/// `dash` elsewhere.
pub open spec fn hrun_chars(x0: int, y: int, n: int, dash: char, join: char) -> Map<
    (int, int),
    char,
> {
    Map::new(
        |p: (int, int)| p.1 == y && x0 <= p.0 < x0 + n,
        |p: (int, int)|
            if (p.0 - x0) % 4 == 3 {
                join
            } else {
                dash
            },
    )
}

/// A constant colour code over the same horizontal run.
pub open spec fn hrun_fg(x0: int, y: int, n: int, cc: int) -> Map<(int, int), int> {
    Map::new(|p: (int, int)| p.1 == y && x0 <= p.0 < x0 + n, |p: (int, int)| cc)
}

/// The characters of the string `s` written from `(x0, y)` rightwards.
pub open spec fn str_chars(x0: int, y: int, s: Seq<char>) -> Map<(int, int), char> {
    Map::new(|p: (int, int)| p.1 == y && x0 <= p.0 < x0 + s.len(), |p: (int, int)| s[p.0 - x0])
}

/// The inner fill of the board: everything strictly inside the outer
/// frame. Even relative rows hold the horizontal rules (`─` with a `┼`
/// under each cell boundary), odd rows the cell interiors (spaces with a
/// `│` at each cell boundary).
pub open spec fn inner_dom(b: Board, l: int, t: int, p: (int, int)) -> bool {
    &&& 1 <= p.0 - l <= 4 * b.w()
    &&& 1 <= p.1 - t <= 2 * b.h() - 1
}

pub open spec fn inner_glyph(b: Board, l: int, t: int, p: (int, int)) -> char {
    if (p.1 - t) % 2 == 0 {
        if (p.0 - l) % 4 == 0 {
            '┼'
        } else {
            '─'
        }
    } else {
        if (p.0 - l) % 4 == 0 {
            '│'
        } else {
            ' '
        }
    }
}

pub open spec fn inner_chars(b: Board, l: int, t: int) -> Map<(int, int), char> {
    Map::new(|p: (int, int)| inner_dom(b, l, t, p), |p: (int, int)| inner_glyph(b, l, t, p))
}

pub open spec fn inner_fg(b: Board, l: int, t: int) -> Map<(int, int), int> {
    Map::new(|p: (int, int)| inner_dom(b, l, t, p), |p: (int, int)| Color::Gray.code())
}

/// Writes one character and one foreground colour at (x, y).
fn paint_cell(buffer: &mut Buffer, c: char, color: Color, x: usize, y: usize)
    requires
        in_buf(*old(buffer), x as int, y as int),
    ensures
        same_rect(*old(buffer), *final(buffer)),
        buf_chars(*final(buffer)) == buf_chars(*old(buffer)).insert((x as int, y as int), c),
        buf_fg(*final(buffer)) == buf_fg(*old(buffer)).insert((x as int, y as int), color.code()),
{
    buf_set_char(buffer, c, x, y);
    buf_set_fg(buffer, color, x, y);
}

/// Paints one horizontal run of the 4-periodic border pattern, in one
/// colour.
fn paint_hrun(buffer: &mut Buffer, x0: usize, y: usize, n: usize, dash: char, join: char, color: Color)
    requires
        buf_left(*old(buffer)) + buf_width(*old(buffer)) <= usize::MAX,
        buf_left(*old(buffer)) <= x0 as int,
        x0 + n <= buf_left(*old(buffer)) + buf_width(*old(buffer)),
        buf_top(*old(buffer)) <= y as int,
        (y as int) < buf_top(*old(buffer)) + buf_height(*old(buffer)),
    ensures
        same_rect(*old(buffer), *final(buffer)),
        buf_chars(*final(buffer)) == buf_chars(*old(buffer)).union_prefer_right(
            hrun_chars(x0 as int, y as int, n as int, dash, join),
        ),
        buf_fg(*final(buffer)) == buf_fg(*old(buffer)).union_prefer_right(
            hrun_fg(x0 as int, y as int, n as int, color.code()),
        ),
{
    let mut j: usize = 0;
    proof {
        assert(buf_chars(*buffer) =~= buf_chars(*old(buffer)).union_prefer_right(
            hrun_chars(x0 as int, y as int, 0, dash, join),
        ));
        assert(buf_fg(*buffer) =~= buf_fg(*old(buffer)).union_prefer_right(
            hrun_fg(x0 as int, y as int, 0, color.code()),
        ));
    }
    while j < n
        invariant
            same_rect(*old(buffer), *buffer),
            buf_left(*old(buffer)) + buf_width(*old(buffer)) <= usize::MAX,
            buf_left(*old(buffer)) <= x0 as int,
            x0 + n <= buf_left(*old(buffer)) + buf_width(*old(buffer)),
            buf_top(*old(buffer)) <= y as int,
        (y as int) < buf_top(*old(buffer)) + buf_height(*old(buffer)),
            j <= n,
            buf_chars(*buffer) == buf_chars(*old(buffer)).union_prefer_right(
                hrun_chars(x0 as int, y as int, j as int, dash, join),
            ),
            buf_fg(*buffer) == buf_fg(*old(buffer)).union_prefer_right(
                hrun_fg(x0 as int, y as int, j as int, color.code()),
            ),
        decreases n - j,
    {
        let c = if j % 4 == 3 {
            join
        } else {
            dash
        };
        let ghost chars_pre = buf_chars(*buffer);
        let ghost fg_pre = buf_fg(*buffer);
        paint_cell(buffer, c, color, x0 + j, y);
        proof {
            assert(chars_pre.insert(((x0 + j) as int, y as int), c) =~= buf_chars(
                *old(buffer),
            ).union_prefer_right(hrun_chars(x0 as int, y as int, j + 1, dash, join)));
            assert(fg_pre.insert(((x0 + j) as int, y as int), color.code()) =~= buf_fg(
                *old(buffer),
            ).union_prefer_right(hrun_fg(x0 as int, y as int, j + 1, color.code())));
        }
        j = j + 1;
    }
}

/// Writes the string `s` from `(x0, y)` rightwards, one character per
/// cell, leaving the colours alone.
fn paint_str(buffer: &mut Buffer, s: &str, x0: usize, y: usize)
    requires
        buf_left(*old(buffer)) + buf_width(*old(buffer)) <= usize::MAX,
        buf_left(*old(buffer)) <= x0 as int,
        x0 + s@.len() <= buf_left(*old(buffer)) + buf_width(*old(buffer)),
        buf_top(*old(buffer)) <= y as int,
        (y as int) < buf_top(*old(buffer)) + buf_height(*old(buffer)),
    ensures
        same_rect(*old(buffer), *final(buffer)),
        buf_chars(*final(buffer)) == buf_chars(*old(buffer)).union_prefer_right(
            str_chars(x0 as int, y as int, s@),
        ),
        buf_fg(*final(buffer)) == buf_fg(*old(buffer)),
{
    let n = s.unicode_len();
    let mut j: usize = 0;
    proof {
        assert(buf_chars(*buffer) =~= buf_chars(*old(buffer)).union_prefer_right(
            str_chars(x0 as int, y as int, s@.subrange(0, 0)),
        ));
    }
    while j < n
        invariant
            same_rect(*old(buffer), *buffer),
            buf_left(*old(buffer)) + buf_width(*old(buffer)) <= usize::MAX,
            buf_left(*old(buffer)) <= x0 as int,
            x0 + s@.len() <= buf_left(*old(buffer)) + buf_width(*old(buffer)),
            buf_top(*old(buffer)) <= y as int,
        (y as int) < buf_top(*old(buffer)) + buf_height(*old(buffer)),
            n == s@.len(),
            j <= n,
            buf_chars(*buffer) == buf_chars(*old(buffer)).union_prefer_right(
                str_chars(x0 as int, y as int, s@.subrange(0, j as int)),
            ),
            buf_fg(*buffer) == buf_fg(*old(buffer)),
        decreases n - j,
    {
        let c = s.get_char(j);
        let ghost chars_pre = buf_chars(*buffer);
        buf_set_char(buffer, c, x0 + j, y);
        proof {
            assert(chars_pre.insert(((x0 + j) as int, y as int), c) =~= buf_chars(
                *old(buffer),
            ).union_prefer_right(str_chars(x0 as int, y as int, s@.subrange(0, j + 1))));
        }
        j = j + 1;
    }
    proof {
        assert(s@.subrange(0, n as int) =~= s@);
    }
}

impl Board {
    /// The total drawn width of the board in character cells, the right
    /// border column included.
    pub fn width(&self) -> (r: usize)
        requires
            self.wf(),
            4 * self.w() + 1 <= usize::MAX,
        ensures
            r == 4 * self.w() + 1,
    {
        self.size.x * 4 + 1
    }

    /// The drawn height of the board in character cells.
    pub fn height(&self) -> (r: usize)
        requires
            self.wf(),
            2 * self.h() + 1 <= usize::MAX,
        ensures
            r == 2 * self.h() + 1,
    {
        self.size.y * 2 + 1
    }

    /// Paints the inner fill: the horizontal rules between cell rows and
    /// the cell interiors with their vertical bars, all gray.
    fn render_inner(&self, buffer: &mut Buffer)
        requires
            self.wf(),
            render_fits(*self, *old(buffer)),
        ensures
            same_rect(*old(buffer), *final(buffer)),
            buf_chars(*final(buffer)) == buf_chars(*old(buffer)).union_prefer_right(
                inner_chars(*self, buf_left(*old(buffer)), buf_top(*old(buffer))),
            ),
            buf_fg(*final(buffer)) == buf_fg(*old(buffer)).union_prefer_right(
                inner_fg(*self, buf_left(*old(buffer)), buf_top(*old(buffer))),
            ),
    {
        let l = buf_x(buffer);
        let t = buf_y(buffer);
        let w = self.size.x;
        let h = self.size.y;
        let ghost li = l as int;
        let ghost ti = t as int;
        let mut y: usize = 1;
        proof {
            assert(buf_chars(*buffer) =~= buf_chars(*old(buffer)).union_prefer_right(
                inner_rules_upto(*self, li, ti, 1),
            ));
            assert(buf_fg(*buffer) =~= buf_fg(*old(buffer)).union_prefer_right(
                inner_rules_fg_upto(*self, li, ti, 1),
            ));
        }
        while y < h
            invariant
                self.wf(),
                render_fits(*self, *old(buffer)),
                same_rect(*old(buffer), *buffer),
                li == buf_left(*old(buffer)),
                ti == buf_top(*old(buffer)),
                l == li,
                t == ti,
                w == self.size.x,
                h == self.size.y,
                1 <= y <= h,
                buf_chars(*buffer) == buf_chars(*old(buffer)).union_prefer_right(
                    inner_rules_upto(*self, li, ti, y as int),
                ),
                buf_fg(*buffer) == buf_fg(*old(buffer)).union_prefer_right(
                    inner_rules_fg_upto(*self, li, ti, y as int),
                ),
            decreases h - y,
        {
            let ghost chars_pre = buf_chars(*buffer);
            let ghost fg_pre = buf_fg(*buffer);
            paint_hrun(buffer, l + 1, t + 2 * y, 4 * w, '─', '┼', Color::Gray);
            proof {
                assert(chars_pre.union_prefer_right(
                    hrun_chars(li + 1, ti + 2 * y, 4 * self.w(), '─', '┼'),
                ) =~= buf_chars(*old(buffer)).union_prefer_right(
                    inner_rules_upto(*self, li, ti, y + 1),
                ));
                assert(fg_pre.union_prefer_right(
                    hrun_fg(li + 1, ti + 2 * y, 4 * self.w(), Color::Gray.code()),
                ) =~= buf_fg(*old(buffer)).union_prefer_right(
                    inner_rules_fg_upto(*self, li, ti, y + 1),
                ));
            }
            y = y + 1;
        }
        let ghost chars_mid = buf_chars(*buffer);
        let ghost fg_mid = buf_fg(*buffer);
        let mut y2: usize = 0;
        proof {
            assert(buf_chars(*buffer) =~= chars_mid.union_prefer_right(
                inner_bars_upto(*self, li, ti, 0),
            ));
            assert(buf_fg(*buffer) =~= fg_mid.union_prefer_right(
                inner_bars_fg_upto(*self, li, ti, 0),
            ));
        }
        while y2 < h
            invariant
                self.wf(),
                render_fits(*self, *old(buffer)),
                same_rect(*old(buffer), *buffer),
                li == buf_left(*old(buffer)),
                ti == buf_top(*old(buffer)),
                l == li,
                t == ti,
                w == self.size.x,
                h == self.size.y,
                y2 <= h,
                buf_chars(*buffer) == chars_mid.union_prefer_right(
                    inner_bars_upto(*self, li, ti, y2 as int),
                ),
                buf_fg(*buffer) == fg_mid.union_prefer_right(
                    inner_bars_fg_upto(*self, li, ti, y2 as int),
                ),
            decreases h - y2,
        {
            let ghost chars_pre = buf_chars(*buffer);
            let ghost fg_pre = buf_fg(*buffer);
            paint_hrun(buffer, l + 1, t + 2 * y2 + 1, 4 * w, ' ', '│', Color::Gray);
            proof {
                assert(chars_pre.union_prefer_right(
                    hrun_chars(li + 1, ti + 2 * y2 + 1, 4 * self.w(), ' ', '│'),
                ) =~= chars_mid.union_prefer_right(inner_bars_upto(*self, li, ti, y2 + 1)));
                assert(fg_pre.union_prefer_right(
                    hrun_fg(li + 1, ti + 2 * y2 + 1, 4 * self.w(), Color::Gray.code()),
                ) =~= fg_mid.union_prefer_right(inner_bars_fg_upto(*self, li, ti, y2 + 1)));
            }
            y2 = y2 + 1;
        }
        proof {
            assert(buf_chars(*buffer) =~= buf_chars(*old(buffer)).union_prefer_right(
                inner_chars(*self, li, ti),
            ));
            assert(buf_fg(*buffer) =~= buf_fg(*old(buffer)).union_prefer_right(
                inner_fg(*self, li, ti),
            ));
        }
    }
}

/// The horizontal rules of the inner fill, in the rows strictly above
/// cell row `rows`.
pub open spec fn inner_rules_upto(b: Board, l: int, t: int, rows: int) -> Map<(int, int), char> {
    Map::new(
        |p: (int, int)|
            1 <= p.0 - l <= 4 * b.w() && (p.1 - t) % 2 == 0 && 2 <= p.1 - t <= 2 * rows - 2,
        |p: (int, int)| inner_glyph(b, l, t, p),
    )
}

pub open spec fn inner_rules_fg_upto(b: Board, l: int, t: int, rows: int) -> Map<(int, int), int> {
    Map::new(
        |p: (int, int)|
            1 <= p.0 - l <= 4 * b.w() && (p.1 - t) % 2 == 0 && 2 <= p.1 - t <= 2 * rows - 2,
        |p: (int, int)| Color::Gray.code(),
    )
}

/// The cell-interior rows of the inner fill, in the cell rows strictly
/// above `rows`.
pub open spec fn inner_bars_upto(b: Board, l: int, t: int, rows: int) -> Map<(int, int), char> {
    Map::new(
        |p: (int, int)|
            1 <= p.0 - l <= 4 * b.w() && (p.1 - t) % 2 == 1 && 1 <= p.1 - t <= 2 * rows - 1,
        |p: (int, int)| inner_glyph(b, l, t, p),
    )
}

pub open spec fn inner_bars_fg_upto(b: Board, l: int, t: int, rows: int) -> Map<(int, int), int> {
    Map::new(
        |p: (int, int)|
            1 <= p.0 - l <= 4 * b.w() && (p.1 - t) % 2 == 1 && 1 <= p.1 - t <= 2 * rows - 1,
        |p: (int, int)| Color::Gray.code(),
    )
}


/// The outer frame of the board: the top and bottom rules, the side
/// columns, and the four corners, all gray.
pub open spec fn outer_dom(b: Board, l: int, t: int, p: (int, int)) -> bool {
    ||| (p.1 - t == 0 || p.1 - t == 2 * b.h()) && 0 <= p.0 - l <= 4 * b.w()
    ||| (p.0 - l == 0 || p.0 - l == 4 * b.w()) && 0 <= p.1 - t <= 2 * b.h()
}

pub open spec fn outer_glyph(b: Board, l: int, t: int, p: (int, int)) -> char {
    let du = p.0 - l;
    let dv = p.1 - t;
    if du == 0 && dv == 0 {
        '┌'
    } else if du == 4 * b.w() && dv == 0 {
        '┐'
    } else if du == 0 && dv == 2 * b.h() {
        '└'
    } else if du == 4 * b.w() && dv == 2 * b.h() {
        '┘'
    } else if dv == 0 {
        if du % 4 == 0 {
            '┬'
        } else {
            '─'
        }
    } else if dv == 2 * b.h() {
        if du % 4 == 0 {
            '┴'
        } else {
            '─'
        }
    } else if du == 0 {
        if dv % 2 == 1 {
            '│'
        } else {
            '├'
        }
    } else {
        if dv % 2 == 1 {
            '│'
        } else {
            '┤'
        }
    }
}

pub open spec fn outer_chars(b: Board, l: int, t: int) -> Map<(int, int), char> {
    Map::new(|p: (int, int)| outer_dom(b, l, t, p), |p: (int, int)| outer_glyph(b, l, t, p))
}

pub open spec fn outer_fg(b: Board, l: int, t: int) -> Map<(int, int), int> {
    Map::new(|p: (int, int)| outer_dom(b, l, t, p), |p: (int, int)| Color::Gray.code())
}

/// The side columns of the outer frame, down to cell row `rows`: a `│`
/// beside each cell interior and a `├` or `┤` beside each rule below it.
pub open spec fn sides_upto(b: Board, l: int, t: int, rows: int) -> Map<(int, int), char> {
    Map::new(
        |p: (int, int)| (p.0 - l == 0 || p.0 - l == 4 * b.w()) && 1 <= p.1 - t <= 2 * rows,
        |p: (int, int)|
            if (p.1 - t) % 2 == 1 {
                '│'
            } else if p.0 - l == 0 {
                '├'
            } else {
                '┤'
            },
    )
}

pub open spec fn sides_fg_upto(b: Board, l: int, t: int, rows: int) -> Map<(int, int), int> {
    Map::new(
        |p: (int, int)| (p.0 - l == 0 || p.0 - l == 4 * b.w()) && 1 <= p.1 - t <= 2 * rows,
        |p: (int, int)| Color::Gray.code(),
    )
}

/// The marks: an `X` or an `O` at the centre character of each non-empty
/// cell, green for Cross and red for Circle.
pub open spec fn marks_dom(b: Board, l: int, t: int, p: (int, int)) -> bool {
    let du = p.0 - l;
    let dv = p.1 - t;
    &&& du >= 2
    &&& (du - 2) % 4 == 0
    &&& (du - 2) / 4 < b.w()
    &&& dv >= 1
    &&& (dv - 1) % 2 == 0
    &&& (dv - 1) / 2 < b.h()
    &&& b.cells@[grid_idx(b.w(), (du - 2) / 4, (dv - 1) / 2)] != Cell::Empty
}

pub open spec fn mark_at(b: Board, l: int, t: int, p: (int, int)) -> Cell {
    b.cells@[grid_idx(b.w(), (p.0 - l - 2) / 4, (p.1 - t - 1) / 2)]
}

pub open spec fn marks_chars(b: Board, l: int, t: int) -> Map<(int, int), char> {
    Map::new(
        |p: (int, int)| marks_dom(b, l, t, p),
        |p: (int, int)|
            if mark_at(b, l, t, p) == Cell::Cross {
                'X'
            } else {
                'O'
            },
    )
}

pub open spec fn marks_fg(b: Board, l: int, t: int) -> Map<(int, int), int> {
    Map::new(
        |p: (int, int)| marks_dom(b, l, t, p),
        |p: (int, int)|
            if mark_at(b, l, t, p) == Cell::Cross {
                Color::Green.code()
            } else {
                Color::Red.code()
            },
    )
}

/// The marks of the cells the row-major scan has passed: every cell row
/// before `y`, and the cells left of `x` in row `y`.
pub open spec fn marks_upto(b: Board, l: int, t: int, y: int, x: int) -> Map<(int, int), char> {
    Map::new(
        |p: (int, int)|
            marks_dom(b, l, t, p) && ((p.1 - t - 1) / 2 < y || ((p.1 - t - 1) / 2 == y && (p.0 - l
                - 2) / 4 < x)),
        |p: (int, int)|
            if mark_at(b, l, t, p) == Cell::Cross {
                'X'
            } else {
                'O'
            },
    )
}

pub open spec fn marks_fg_upto(b: Board, l: int, t: int, y: int, x: int) -> Map<(int, int), int> {
    Map::new(
        |p: (int, int)|
            marks_dom(b, l, t, p) && ((p.1 - t - 1) / 2 < y || ((p.1 - t - 1) / 2 == y && (p.0 - l
                - 2) / 4 < x)),
        |p: (int, int)|
            if mark_at(b, l, t, p) == Cell::Cross {
                Color::Green.code()
            } else {
                Color::Red.code()
            },
    )
}

impl Board {
    /// Paints the outer frame: the top and bottom rules, the side
    /// columns, and the four corners, all gray.
    fn render_outer(&self, buffer: &mut Buffer)
        requires
            self.wf(),
            render_fits(*self, *old(buffer)),
        ensures
            same_rect(*old(buffer), *final(buffer)),
            buf_chars(*final(buffer)) == buf_chars(*old(buffer)).union_prefer_right(
                outer_chars(*self, buf_left(*old(buffer)), buf_top(*old(buffer))),
            ),
            buf_fg(*final(buffer)) == buf_fg(*old(buffer)).union_prefer_right(
                outer_fg(*self, buf_left(*old(buffer)), buf_top(*old(buffer))),
            ),
    {
        let l = buf_x(buffer);
        let t = buf_y(buffer);
        let w = self.size.x;
        let h = self.size.y;
        let ghost li = l as int;
        let ghost ti = t as int;
        let bottom = 2 * h;
        let right = 4 * w;
        paint_hrun(buffer, l + 1, t, 4 * w, '─', '┬', Color::Gray);
        paint_hrun(buffer, l + 1, t + bottom, 4 * w, '─', '┴', Color::Gray);
        let ghost chars_mid = buf_chars(*buffer);
        let ghost fg_mid = buf_fg(*buffer);
        let mut y: usize = 0;
        proof {
            assert(buf_chars(*buffer) =~= chars_mid.union_prefer_right(
                sides_upto(*self, li, ti, 0),
            ));
            assert(buf_fg(*buffer) =~= fg_mid.union_prefer_right(sides_fg_upto(*self, li, ti, 0)));
        }
        while y < h
            invariant
                self.wf(),
                render_fits(*self, *old(buffer)),
                same_rect(*old(buffer), *buffer),
                li == buf_left(*old(buffer)),
                ti == buf_top(*old(buffer)),
                l == li,
                t == ti,
                w == self.size.x,
                h == self.size.y,
                right == 4 * w,
                y <= h,
                buf_chars(*buffer) == chars_mid.union_prefer_right(
                    sides_upto(*self, li, ti, y as int),
                ),
                buf_fg(*buffer) == fg_mid.union_prefer_right(
                    sides_fg_upto(*self, li, ti, y as int),
                ),
            decreases h - y,
        {
            let ghost chars_pre = buf_chars(*buffer);
            let ghost fg_pre = buf_fg(*buffer);
            paint_cell(buffer, '│', Color::Gray, l, t + 2 * y + 1);
            paint_cell(buffer, '├', Color::Gray, l, t + 2 * y + 2);
            paint_cell(buffer, '│', Color::Gray, l + right, t + 2 * y + 1);
            paint_cell(buffer, '┤', Color::Gray, l + right, t + 2 * y + 2);
            proof {
                assert(buf_chars(*buffer) =~= chars_mid.union_prefer_right(
                    sides_upto(*self, li, ti, y + 1),
                ));
                assert(buf_fg(*buffer) =~= fg_mid.union_prefer_right(
                    sides_fg_upto(*self, li, ti, y + 1),
                ));
            }
            y = y + 1;
        }
        paint_cell(buffer, '┌', Color::Gray, l, t);
        paint_cell(buffer, '┐', Color::Gray, l + right, t);
        paint_cell(buffer, '┘', Color::Gray, l + right, t + bottom);
        paint_cell(buffer, '└', Color::Gray, l, t + bottom);
        proof {
            assert(buf_chars(*buffer) =~= buf_chars(*old(buffer)).union_prefer_right(
                outer_chars(*self, li, ti),
            ));
            assert(buf_fg(*buffer) =~= buf_fg(*old(buffer)).union_prefer_right(
                outer_fg(*self, li, ti),
            ));
        }
    }

    /// Paints the marks: an `X` or an `O` at the centre of each non-empty
    /// cell, green for Cross and red for Circle.
    fn render_cells(&self, buffer: &mut Buffer)
        requires
            self.wf(),
            render_fits(*self, *old(buffer)),
        ensures
            same_rect(*old(buffer), *final(buffer)),
            buf_chars(*final(buffer)) == buf_chars(*old(buffer)).union_prefer_right(
                marks_chars(*self, buf_left(*old(buffer)), buf_top(*old(buffer))),
            ),
            buf_fg(*final(buffer)) == buf_fg(*old(buffer)).union_prefer_right(
                marks_fg(*self, buf_left(*old(buffer)), buf_top(*old(buffer))),
            ),
    {
        let l = buf_x(buffer);
        let t = buf_y(buffer);
        let w = self.size.x;
        let h = self.size.y;
        let ghost li = l as int;
        let ghost ti = t as int;
        let mut y: usize = 0;
        proof {
            assert(buf_chars(*buffer) =~= buf_chars(*old(buffer)).union_prefer_right(
                marks_upto(*self, li, ti, 0, 0),
            ));
            assert(buf_fg(*buffer) =~= buf_fg(*old(buffer)).union_prefer_right(
                marks_fg_upto(*self, li, ti, 0, 0),
            ));
        }
        while y < h
            invariant
                self.wf(),
                render_fits(*self, *old(buffer)),
                same_rect(*old(buffer), *buffer),
                li == buf_left(*old(buffer)),
                ti == buf_top(*old(buffer)),
                l == li,
                t == ti,
                w == self.size.x,
                h == self.size.y,
                y <= h,
                buf_chars(*buffer) == buf_chars(*old(buffer)).union_prefer_right(
                    marks_upto(*self, li, ti, y as int, 0),
                ),
                buf_fg(*buffer) == buf_fg(*old(buffer)).union_prefer_right(
                    marks_fg_upto(*self, li, ti, y as int, 0),
                ),
            decreases h - y,
        {
            let mut x: usize = 0;
            while x < w
                invariant
                    self.wf(),
                    render_fits(*self, *old(buffer)),
                    same_rect(*old(buffer), *buffer),
                    li == buf_left(*old(buffer)),
                    ti == buf_top(*old(buffer)),
                    l == li,
                    t == ti,
                    w == self.size.x,
                    h == self.size.y,
                    y < h,
                    x <= w,
                    buf_chars(*buffer) == buf_chars(*old(buffer)).union_prefer_right(
                        marks_upto(*self, li, ti, y as int, x as int),
                    ),
                    buf_fg(*buffer) == buf_fg(*old(buffer)).union_prefer_right(
                        marks_fg_upto(*self, li, ti, y as int, x as int),
                    ),
                decreases w - x,
            {
                proof {
                    lemma_grid_idx_bounds(w as int, h as int, x as int, y as int);
                }
                let ghost chars_pre = buf_chars(*buffer);
                let ghost fg_pre = buf_fg(*buffer);
                match self.cells[x + y * w] {
                    Cell::Cross => {
                        paint_cell(buffer, 'X', Color::Green, l + 4 * x + 2, t + 2 * y + 1);
                    },
                    Cell::Circle => {
                        paint_cell(buffer, 'O', Color::Red, l + 4 * x + 2, t + 2 * y + 1);
                    },
                    Cell::Empty => {},
                }
                proof {
                    assert(((li + 4 * x + 2) - li - 2) / 4 == x as int);
                    assert(((ti + 2 * y + 1) - ti - 1) / 2 == y as int);
                    assert(buf_chars(*buffer) =~= buf_chars(*old(buffer)).union_prefer_right(
                        marks_upto(*self, li, ti, y as int, x + 1),
                    ));
                    assert(buf_fg(*buffer) =~= buf_fg(*old(buffer)).union_prefer_right(
                        marks_fg_upto(*self, li, ti, y as int, x + 1),
                    ));
                }
                x = x + 1;
            }
            proof {
                assert(buf_chars(*buffer) =~= buf_chars(*old(buffer)).union_prefer_right(
                    marks_upto(*self, li, ti, y + 1, 0),
                ));
                assert(buf_fg(*buffer) =~= buf_fg(*old(buffer)).union_prefer_right(
                    marks_fg_upto(*self, li, ti, y + 1, 0),
                ));
            }
            y = y + 1;
        }
        proof {
            assert(buf_chars(*buffer) =~= buf_chars(*old(buffer)).union_prefer_right(
                marks_chars(*self, li, ti),
            ));
            assert(buf_fg(*buffer) =~= buf_fg(*old(buffer)).union_prefer_right(
                marks_fg(*self, li, ti),
            ));
        }
    }
}


/// The map `m` recoloured: the same domain, every value the colour code
/// `cc`.
pub open spec fn with_cc(m: Map<(int, int), char>, cc: int) -> Map<(int, int), int> {
    Map::new(|p: (int, int)| m.dom().contains(p), |p: (int, int)| cc)
}

/// The top string of the cursor frame: chosen from the nine-way table
/// keyed by which grid edges the cursor touches, so that the heavy frame
/// meshes with the light border already drawn.
pub open spec fn sel_top(b: Board) -> Seq<char> {
    if b.selected.x == 0 && b.selected.y == 0 {
        "┏━━━┱"@
    } else if b.selected.x == 0 && b.selected.y + 1 == b.size.y {
        "┢━━━╅"@
    } else if b.selected.x + 1 == b.size.x && b.selected.y == 0 {
        "┲━━━┓"@
    } else if b.selected.x + 1 == b.size.x && b.selected.y + 1 == b.size.y {
        "╆━━━┪"@
    } else if b.selected.y == 0 {
        "┲━━━┱"@
    } else if b.selected.y + 1 == b.size.y {
        "╆━━━╅"@
    } else if b.selected.x == 0 {
        "┢━━━╅"@
    } else if b.selected.x + 1 == b.size.x {
        "╆━━━┪"@
    } else {
        "╆━━━╅"@
    }
}

/// The bottom string of the cursor frame, from the same nine-way table.
pub open spec fn sel_bot(b: Board) -> Seq<char> {
    if b.selected.x == 0 && b.selected.y == 0 {
        "┡━━━╃"@
    } else if b.selected.x == 0 && b.selected.y + 1 == b.size.y {
        "┗━━━┹"@
    } else if b.selected.x + 1 == b.size.x && b.selected.y == 0 {
        "╄━━━┩"@
    } else if b.selected.x + 1 == b.size.x && b.selected.y + 1 == b.size.y {
        "┺━━━┛"@
    } else if b.selected.y == 0 {
        "╄━━━╃"@
    } else if b.selected.y + 1 == b.size.y {
        "┺━━━┹"@
    } else if b.selected.x == 0 {
        "┡━━━╃"@
    } else if b.selected.x + 1 == b.size.x {
        "╄━━━┩"@
    } else {
        "╄━━━╃"@
    }
}

/// The cursor frame: the five-character top and bottom strings around the
/// selected cell and the heavy verticals beside it. It writes characters
/// only, leaving the colours below it alone.
pub open spec fn sel_dom(b: Board, l: int, t: int, p: (int, int)) -> bool {
    let du = p.0 - (l + 4 * b.selected.x);
    let dv = p.1 - (t + 2 * b.selected.y);
    ||| (dv == 0 || dv == 2) && 0 <= du <= 4
    ||| dv == 1 && (du == 0 || du == 4)
}

pub open spec fn sel_glyph(b: Board, l: int, t: int, p: (int, int)) -> char {
    let du = p.0 - (l + 4 * b.selected.x);
    let dv = p.1 - (t + 2 * b.selected.y);
    if dv == 0 {
        sel_top(b)[du]
    } else if dv == 2 {
        sel_bot(b)[du]
    } else {
        '┃'
    }
}

pub open spec fn sel_chars(b: Board, l: int, t: int) -> Map<(int, int), char> {
    Map::new(|p: (int, int)| sel_dom(b, l, t, p), |p: (int, int)| sel_glyph(b, l, t, p))
}

/// The dashes of a horizontal strike-through: `n` of them, every second
/// character cell starting one right of the winning cell's left edge.
pub open spec fn strike_right(ox: int, oy: int, n: int) -> Map<(int, int), char> {
    Map::new(
        |p: (int, int)| p.1 == oy + 1 && (p.0 - (ox + 1)) % 2 == 0 && 0 <= p.0 - (ox + 1) < 2 * n,
        |p: (int, int)| '-',
    )
}

/// A vertical strike-through of all rows strictly above `e_max` (relative
/// to the winning cell's top edge): a bar on the cell's centre column in
/// even rows, blanks beside the centre in odd rows.
pub open spec fn strike_down(ox: int, oy: int, e_max: int) -> Map<(int, int), char> {
    Map::new(
        |p: (int, int)|
            0 <= p.1 - oy < e_max && if (p.1 - oy) % 2 == 0 {
                p.0 == ox + 2
            } else {
                p.0 == ox + 1 || p.0 == ox + 3
            },
        |p: (int, int)|
            if (p.1 - oy) % 2 == 0 {
                '|'
            } else {
                ' '
            },
    )
}

/// A falling diagonal strike-through of all rows strictly above `e_max`:
/// a backslash every second row stepping four columns right, thickened in
/// the rows between by a backtick-and-comma pair.
pub open spec fn strike_diag(ox: int, oy: int, e_max: int) -> Map<(int, int), char> {
    Map::new(
        |p: (int, int)|
            0 <= p.1 - oy < e_max && if (p.1 - oy) % 2 == 0 {
                p.0 == ox + 2 * (p.1 - oy)
            } else {
                p.0 == ox + 2 * (p.1 - oy) - 1 || p.0 == ox + 2 * (p.1 - oy) + 1
            },
        |p: (int, int)|
            if (p.1 - oy) % 2 == 0 {
                '\\'
            } else if p.0 == ox + 2 * (p.1 - oy) - 1 {
                '`'
            } else {
                '⹁'
            },
    )
}

/// A rising diagonal strike-through of all rows strictly above `e_max`:
/// a slash every second row stepping four columns left, thickened in the
/// rows between by a comma-and-quote pair.
pub open spec fn strike_anti(ox: int, oy: int, e_max: int) -> Map<(int, int), char> {
    Map::new(
        |p: (int, int)|
            0 <= p.1 - oy < e_max && if (p.1 - oy) % 2 == 0 {
                p.0 == ox + 4 - 2 * (p.1 - oy)
            } else {
                p.0 == ox + 4 - 2 * (p.1 - oy) - 1 || p.0 == ox + 4 - 2 * (p.1 - oy) + 1
            },
        |p: (int, int)|
            if (p.1 - oy) % 2 == 0 {
                '/'
            } else if p.0 == ox + 4 - 2 * (p.1 - oy) - 1 {
                ','
            } else {
                '\''
            },
    )
}

/// The colour code of the strike-through: the colour of the winning mark.
pub open spec fn win_cc(b: Board) -> int {
    match b.win {
        Some(seg) => match b.cells@[grid_idx(
            b.w(),
            seg.origin.x as int,
            seg.origin.y as int,
        )] {
            Cell::Cross => Color::Green.code(),
            Cell::Circle => Color::Red.code(),
            Cell::Empty => Color::Default.code(),
        },
        None => Color::Default.code(),
    }
}

/// The strike-through over the winning run, empty when no win is
/// recorded.
pub open spec fn win_chars(b: Board, l: int, t: int) -> Map<(int, int), char> {
    match b.win {
        None => Map::empty(),
        Some(seg) => {
            let ox = l + 4 * seg.origin.x;
            let oy = t + 2 * seg.origin.y;
            match seg.dir {
                Dir::Right => strike_right(ox, oy, 2 * b.k()),
                Dir::Down => strike_down(ox, oy, 2 * b.k() + 1),
                Dir::DownRight => strike_diag(ox, oy, 2 * b.k() + 1),
                Dir::DownLeft => strike_anti(ox, oy, 2 * b.k() + 1),
            }
        },
    }
}

pub open spec fn win_fg(b: Board, l: int, t: int) -> Map<(int, int), int> {
    with_cc(win_chars(b, l, t), win_cc(b))
}

/// The whole rendering, as one function of the board, the buffer's
/// rectangle and the content already there: the five layers overlaid in
/// order.
pub open spec fn rendered_chars(b: Board, l: int, t: int, m: Map<(int, int), char>) -> Map<
    (int, int),
    char,
> {
    m.union_prefer_right(inner_chars(b, l, t)).union_prefer_right(
        outer_chars(b, l, t),
    ).union_prefer_right(marks_chars(b, l, t)).union_prefer_right(
        sel_chars(b, l, t),
    ).union_prefer_right(win_chars(b, l, t))
}

/// The foreground colours after rendering: the colouring layers overlaid
/// in order (the cursor frame colours nothing).
pub open spec fn rendered_fg(b: Board, l: int, t: int, m: Map<(int, int), int>) -> Map<
    (int, int),
    int,
> {
    m.union_prefer_right(inner_fg(b, l, t)).union_prefer_right(
        outer_fg(b, l, t),
    ).union_prefer_right(marks_fg(b, l, t)).union_prefer_right(win_fg(b, l, t))
}

impl Board {
    /// Paints the cursor frame: a heavy five-character top and bottom
    /// chosen from the nine-way edge table, and heavy verticals beside the
    /// selected cell. Characters only; colours stay as they were.
    fn render_sel(&self, buffer: &mut Buffer)
        requires
            self.wf(),
            render_fits(*self, *old(buffer)),
        ensures
            same_rect(*old(buffer), *final(buffer)),
            buf_chars(*final(buffer)) == buf_chars(*old(buffer)).union_prefer_right(
                sel_chars(*self, buf_left(*old(buffer)), buf_top(*old(buffer))),
            ),
            buf_fg(*final(buffer)) == buf_fg(*old(buffer)),
    {
        let l = buf_x(buffer);
        let t = buf_y(buffer);
        let ghost li = l as int;
        let ghost ti = t as int;
        let sx = self.selected.x;
        let sy = self.selected.y;
        let first_x = sx == 0;
        let last_x = sx + 1 == self.size.x;
        let first_y = sy == 0;
        let last_y = sy + 1 == self.size.y;
        let top: &str;
        let bottom: &str;
        if first_x && first_y {
            top = "┏━━━┱";
            bottom = "┡━━━╃";
        } else if first_x && last_y {
            top = "┢━━━╅";
            bottom = "┗━━━┹";
        } else if last_x && first_y {
            top = "┲━━━┓";
            bottom = "╄━━━┩";
        } else if last_x && last_y {
            top = "╆━━━┪";
            bottom = "┺━━━┛";
        } else if first_y {
            top = "┲━━━┱";
            bottom = "╄━━━╃";
        } else if last_y {
            top = "╆━━━╅";
            bottom = "┺━━━┹";
        } else if first_x {
            top = "┢━━━╅";
            bottom = "┡━━━╃";
        } else if last_x {
            top = "╆━━━┪";
            bottom = "╄━━━┩";
        } else {
            top = "╆━━━╅";
            bottom = "╄━━━╃";
        }
        proof {
            reveal_strlit("┏━━━┱");
            reveal_strlit("┢━━━╅");
            reveal_strlit("┲━━━┓");
            reveal_strlit("╆━━━┪");
            reveal_strlit("┲━━━┱");
            reveal_strlit("╆━━━╅");
            reveal_strlit("┡━━━╃");
            reveal_strlit("┗━━━┹");
            reveal_strlit("╄━━━┩");
            reveal_strlit("┺━━━┛");
            reveal_strlit("╄━━━╃");
            reveal_strlit("┺━━━┹");
            assert(top@ == sel_top(*self));
            assert(bottom@ == sel_bot(*self));
            assert(top@.len() == 5);
            assert(bottom@.len() == 5);
        }
        let sel_x = l + 4 * sx;
        let sel_y = t + 2 * sy;
        let ghost chars_0 = buf_chars(*buffer);
        paint_str(buffer, top, sel_x, sel_y);
        paint_str(buffer, bottom, sel_x, sel_y + 2);
        buf_set_char(buffer, '┃', sel_x, sel_y + 1);
        buf_set_char(buffer, '┃', sel_x + 4, sel_y + 1);
        proof {
            assert(buf_chars(*buffer) =~= buf_chars(*old(buffer)).union_prefer_right(
                sel_chars(*self, li, ti),
            ));
        }
    }

    /// Paints the strike-through over the winning run, in the winner's
    /// colour, when a win is recorded; otherwise does nothing.
    fn render_win(&self, buffer: &mut Buffer)
        requires
            self.wf(),
            render_fits(*self, *old(buffer)),
        ensures
            same_rect(*old(buffer), *final(buffer)),
            buf_chars(*final(buffer)) == buf_chars(*old(buffer)).union_prefer_right(
                win_chars(*self, buf_left(*old(buffer)), buf_top(*old(buffer))),
            ),
            buf_fg(*final(buffer)) == buf_fg(*old(buffer)).union_prefer_right(
                win_fg(*self, buf_left(*old(buffer)), buf_top(*old(buffer))),
            ),
    {
        let l = buf_x(buffer);
        let t = buf_y(buffer);
        let w = self.size.x;
        let h = self.size.y;
        let k = self.win_len;
        let ghost li = l as int;
        let ghost ti = t as int;
        let seg = match self.win {
            Some(seg) => seg,
            None => {
                proof {
                    assert(buf_chars(*buffer) =~= buf_chars(*old(buffer)).union_prefer_right(
                        win_chars(*self, li, ti),
                    ));
                    assert(buf_fg(*buffer) =~= buf_fg(*old(buffer)).union_prefer_right(
                        win_fg(*self, li, ti),
                    ));
                }
                return ;
            },
        };
        let ox = seg.origin.x;
        let oy = seg.origin.y;
        proof {
            lemma_grid_idx_bounds(self.w(), self.h(), ox as int, oy as int);
        }
        let color = match self.cells[ox + oy * w] {
            Cell::Cross => Color::Green,
            Cell::Circle => Color::Red,
            Cell::Empty => Color::Default,
        };
        let ghost cc = win_cc(*self);
        let bx = l + 4 * ox;
        let by = t + 2 * oy;
        let ghost bxi = bx as int;
        let ghost byi = by as int;
        match seg.dir {
            Dir::Right => {
                let n = 2 * k;
                let mut i: usize = 0;
                proof {
                    assert(buf_chars(*buffer) =~= buf_chars(*old(buffer)).union_prefer_right(
                        strike_right(bxi, byi, 0),
                    ));
                    assert(buf_fg(*buffer) =~= buf_fg(*old(buffer)).union_prefer_right(
                        with_cc(strike_right(bxi, byi, 0), cc),
                    ));
                }
                while i < n
                    invariant
                        self.wf(),
                        render_fits(*self, *old(buffer)),
                        same_rect(*old(buffer), *buffer),
                        li == buf_left(*old(buffer)),
                        ti == buf_top(*old(buffer)),
                        l == li,
                        t == ti,
                        w == self.size.x,
                        k == self.win_len,
                        n == 2 * k,
                        bxi == li + 4 * ox,
                        byi == ti + 2 * oy,
                        bx == bxi,
                        by == byi,
                        ox + k <= w,
                        (oy as int) < self.h(),
                        cc == color.code(),
                        i <= n,
                        buf_chars(*buffer) == buf_chars(*old(buffer)).union_prefer_right(
                            strike_right(bxi, byi, i as int),
                        ),
                        buf_fg(*buffer) == buf_fg(*old(buffer)).union_prefer_right(
                            with_cc(strike_right(bxi, byi, i as int), cc),
                        ),
                    decreases n - i,
                {
                    let ghost chars_pre = buf_chars(*buffer);
                    let ghost fg_pre = buf_fg(*buffer);
                    paint_cell(buffer, '-', color, bx + 1 + 2 * i, by + 1);
                    proof {
                        assert(buf_chars(*buffer) =~= buf_chars(*old(buffer)).union_prefer_right(
                            strike_right(bxi, byi, i + 1),
                        ));
                        assert(buf_fg(*buffer) =~= buf_fg(*old(buffer)).union_prefer_right(
                            with_cc(strike_right(bxi, byi, i + 1), cc),
                        ));
                    }
                    i = i + 1;
                }
            },
            Dir::Down => {
                let mut i: usize = 0;
                proof {
                    assert(buf_chars(*buffer) =~= buf_chars(*old(buffer)).union_prefer_right(
                        strike_down(bxi, byi, 0),
                    ));
                    assert(buf_fg(*buffer) =~= buf_fg(*old(buffer)).union_prefer_right(
                        with_cc(strike_down(bxi, byi, 0), cc),
                    ));
                }
                while i < k
                    invariant
                        self.wf(),
                        render_fits(*self, *old(buffer)),
                        same_rect(*old(buffer), *buffer),
                        li == buf_left(*old(buffer)),
                        ti == buf_top(*old(buffer)),
                        l == li,
                        t == ti,
                        w == self.size.x,
                        h == self.size.y,
                        k == self.win_len,
                        bxi == li + 4 * ox,
                        byi == ti + 2 * oy,
                        bx == bxi,
                        by == byi,
                        (ox as int) < self.w(),
                        oy + k <= h,
                        cc == color.code(),
                        i <= k,
                        buf_chars(*buffer) == buf_chars(*old(buffer)).union_prefer_right(
                            strike_down(bxi, byi, 2 * i as int),
                        ),
                        buf_fg(*buffer) == buf_fg(*old(buffer)).union_prefer_right(
                            with_cc(strike_down(bxi, byi, 2 * i as int), cc),
                        ),
                    decreases k - i,
                {
                    paint_cell(buffer, '|', color, bx + 2, by + 2 * i);
                    paint_cell(buffer, ' ', color, bx + 1, by + 2 * i + 1);
                    paint_cell(buffer, ' ', color, bx + 3, by + 2 * i + 1);
                    proof {
                        assert(buf_chars(*buffer) =~= buf_chars(*old(buffer)).union_prefer_right(
                            strike_down(bxi, byi, 2 * (i + 1)),
                        ));
                        assert(buf_fg(*buffer) =~= buf_fg(*old(buffer)).union_prefer_right(
                            with_cc(strike_down(bxi, byi, 2 * (i + 1)), cc),
                        ));
                    }
                    i = i + 1;
                }
                paint_cell(buffer, '|', color, bx + 2, by + 2 * k);
                proof {
                    assert(buf_chars(*buffer) =~= buf_chars(*old(buffer)).union_prefer_right(
                        strike_down(bxi, byi, 2 * k as int + 1),
                    ));
                    assert(buf_fg(*buffer) =~= buf_fg(*old(buffer)).union_prefer_right(
                        with_cc(strike_down(bxi, byi, 2 * k as int + 1), cc),
                    ));
                }
            },
            Dir::DownRight => {
                let mut i: usize = 0;
                proof {
                    assert(buf_chars(*buffer) =~= buf_chars(*old(buffer)).union_prefer_right(
                        strike_diag(bxi, byi, 0),
                    ));
                    assert(buf_fg(*buffer) =~= buf_fg(*old(buffer)).union_prefer_right(
                        with_cc(strike_diag(bxi, byi, 0), cc),
                    ));
                }
                while i < k
                    invariant
                        self.wf(),
                        render_fits(*self, *old(buffer)),
                        same_rect(*old(buffer), *buffer),
                        li == buf_left(*old(buffer)),
                        ti == buf_top(*old(buffer)),
                        l == li,
                        t == ti,
                        w == self.size.x,
                        h == self.size.y,
                        k == self.win_len,
                        bxi == li + 4 * ox,
                        byi == ti + 2 * oy,
                        bx == bxi,
                        by == byi,
                        ox + k <= w,
                        oy + k <= h,
                        cc == color.code(),
                        i <= k,
                        buf_chars(*buffer) == buf_chars(*old(buffer)).union_prefer_right(
                            strike_diag(bxi, byi, 2 * i as int),
                        ),
                        buf_fg(*buffer) == buf_fg(*old(buffer)).union_prefer_right(
                            with_cc(strike_diag(bxi, byi, 2 * i as int), cc),
                        ),
                    decreases k - i,
                {
                    paint_cell(buffer, '\\', color, bx + 4 * i, by + 2 * i);
                    paint_cell(buffer, '`', color, bx + 4 * i + 1, by + 2 * i + 1);
                    paint_cell(buffer, '⹁', color, bx + 4 * i + 3, by + 2 * i + 1);
                    proof {
                        assert(buf_chars(*buffer) =~= buf_chars(*old(buffer)).union_prefer_right(
                            strike_diag(bxi, byi, 2 * (i + 1)),
                        ));
                        assert(buf_fg(*buffer) =~= buf_fg(*old(buffer)).union_prefer_right(
                            with_cc(strike_diag(bxi, byi, 2 * (i + 1)), cc),
                        ));
                    }
                    i = i + 1;
                }
                paint_cell(buffer, '\\', color, bx + 4 * k, by + 2 * k);
                proof {
                    assert(buf_chars(*buffer) =~= buf_chars(*old(buffer)).union_prefer_right(
                        strike_diag(bxi, byi, 2 * k as int + 1),
                    ));
                    assert(buf_fg(*buffer) =~= buf_fg(*old(buffer)).union_prefer_right(
                        with_cc(strike_diag(bxi, byi, 2 * k as int + 1), cc),
                    ));
                }
            },
            Dir::DownLeft => {
                let bx0 = bx + 4;
                let ghost bx0i = bx0 as int;
                let mut i: usize = 0;
                proof {
                    assert(buf_chars(*buffer) =~= buf_chars(*old(buffer)).union_prefer_right(
                        strike_anti(bxi, byi, 0),
                    ));
                    assert(buf_fg(*buffer) =~= buf_fg(*old(buffer)).union_prefer_right(
                        with_cc(strike_anti(bxi, byi, 0), cc),
                    ));
                }
                while i < k
                    invariant
                        self.wf(),
                        render_fits(*self, *old(buffer)),
                        same_rect(*old(buffer), *buffer),
                        li == buf_left(*old(buffer)),
                        ti == buf_top(*old(buffer)),
                        l == li,
                        t == ti,
                        w == self.size.x,
                        h == self.size.y,
                        k == self.win_len,
                        bxi == li + 4 * ox,
                        byi == ti + 2 * oy,
                        bx == bxi,
                        by == byi,
                        bx0 == bx + 4,
                        bx0i == bx0,
                        ox + 1 >= k,
                        (ox as int) < self.w(),
                        oy + k <= h,
                        cc == color.code(),
                        i <= k,
                        buf_chars(*buffer) == buf_chars(*old(buffer)).union_prefer_right(
                            strike_anti(bxi, byi, 2 * i as int),
                        ),
                        buf_fg(*buffer) == buf_fg(*old(buffer)).union_prefer_right(
                            with_cc(strike_anti(bxi, byi, 2 * i as int), cc),
                        ),
                    decreases k - i,
                {
                    paint_cell(buffer, '/', color, bx0 - 4 * i, by + 2 * i);
                    paint_cell(buffer, ',', color, bx0 - 4 * i - 3, by + 2 * i + 1);
                    paint_cell(buffer, '\'', color, bx0 - 4 * i - 1, by + 2 * i + 1);
                    proof {
                        assert(buf_chars(*buffer) =~= buf_chars(*old(buffer)).union_prefer_right(
                            strike_anti(bxi, byi, 2 * (i + 1)),
                        ));
                        assert(buf_fg(*buffer) =~= buf_fg(*old(buffer)).union_prefer_right(
                            with_cc(strike_anti(bxi, byi, 2 * (i + 1)), cc),
                        ));
                    }
                    i = i + 1;
                }
                paint_cell(buffer, '/', color, bx0 - 4 * k, by + 2 * k);
                proof {
                    assert(buf_chars(*buffer) =~= buf_chars(*old(buffer)).union_prefer_right(
                        strike_anti(bxi, byi, 2 * k as int + 1),
                    ));
                    assert(buf_fg(*buffer) =~= buf_fg(*old(buffer)).union_prefer_right(
                        with_cc(strike_anti(bxi, byi, 2 * k as int + 1), cc),
                    ));
                }
            },
        }
    }

    /// Renders the board into the back-buffer: the inner fill, the outer
    /// frame, the marks, the cursor frame, and the strike-through, in that
    /// order.
    ///
    /// Rendering is a pure function of the board: the buffer's content
    /// afterwards is exactly `rendered_chars` / `rendered_fg` of the board,
    /// the buffer's rectangle, and the content before — so rendering the
    /// same board twice into equal buffers leaves equal buffers. A board
    /// that does not fit the buffer leaves it untouched.
    pub fn render(&self, buffer: &mut Buffer)
        requires
            self.wf(),
        ensures
            same_rect(*old(buffer), *final(buffer)),
            render_fits(*self, *old(buffer)) ==> {
                &&& buf_chars(*final(buffer)) == rendered_chars(
                    *self,
                    buf_left(*old(buffer)),
                    buf_top(*old(buffer)),
                    buf_chars(*old(buffer)),
                )
                &&& buf_fg(*final(buffer)) == rendered_fg(
                    *self,
                    buf_left(*old(buffer)),
                    buf_top(*old(buffer)),
                    buf_fg(*old(buffer)),
                )
            },
            !render_fits(*self, *old(buffer)) ==> buf_chars(*final(buffer)) == buf_chars(
                *old(buffer),
            ) && buf_fg(*final(buffer)) == buf_fg(*old(buffer)),
    {
        let l = buf_x(buffer);
        let t = buf_y(buffer);
        let bw = buf_w(buffer);
        let bh = buf_h(buffer);
        if bw < 1 || bh < 1 {
            return ;
        }
        if (bw - 1) / 4 < self.size.x || (bh - 1) / 2 < self.size.y {
            return ;
        }
        if bw > usize::MAX - l || bh > usize::MAX - t {
            return ;
        }
        proof {
            assert(4 * self.w() + 1 <= buf_width(*old(buffer)));
            assert(2 * self.h() + 1 <= buf_height(*old(buffer)));
        }
        self.render_inner(buffer);
        self.render_outer(buffer);
        self.render_cells(buffer);
        self.render_sel(buffer);
        self.render_win(buffer);
    }
}

} // verus!
