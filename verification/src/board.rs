//! The board state machine: the cell grid, the cursor, placement rules and
//! the generalized K-in-a-row win scanner.

use vstd::prelude::*;

use crate::cell::Cell;
use crate::error::Error;

verus! {

/// A grid coordinate: column `x`, row `y`.
#[derive(Debug, PartialEq, Eq, Structural, Clone, Copy)]
pub struct Coord {
    pub x: usize,
    pub y: usize,
}

/// One of the four canonical half-axes scanned for a winning run, as a
/// step vector: `Right` is (1,0), `Down` is (0,1), `DownRight` is (1,1)
/// and `DownLeft` is (-1,1). No other direction occurs.
#[derive(Debug, PartialEq, Eq, Structural, Clone, Copy)]
pub enum Dir {
    Right,
    Down,
    DownRight,
    DownLeft,
}

impl Dir {
    /// The signed column step of the direction.
    pub open spec fn dx(self) -> int {
        match self {
            Dir::Right => 1,
            Dir::Down => 0,
            Dir::DownRight => 1,
            Dir::DownLeft => -1,
        }
    }

    /// The signed row step of the direction.
    pub open spec fn dy(self) -> int {
        match self {
            Dir::Right => 0,
            _ => 1,
        }
    }

    /// The position of the direction in the scanner's fixed order.
    pub open spec fn rank(self) -> int {
        match self {
            Dir::Right => 0,
            Dir::Down => 1,
            Dir::DownRight => 2,
            Dir::DownLeft => 3,
        }
    }
}

/// The record of a winning run: its first cell and the step vector along
/// it. The full run covers `origin + i * dir` for `i` in `[0, K)`.
#[derive(Debug, PartialEq, Eq, Structural, Clone, Copy)]
pub struct WinSegment {
    pub origin: Coord,
    pub dir: Dir,
}

/// The row-major index of the coordinate (x, y) in a grid of width `w`.
pub open spec fn grid_idx(w: int, x: int, y: int) -> int {
    x + y * w
}

pub proof fn lemma_grid_idx_bounds(w: int, h: int, x: int, y: int)
    requires
        0 <= x < w,
        0 <= y < h,
    ensures
        0 <= grid_idx(w, x, y) < w * h,
{
    assert(0 <= x + y * w < w * h) by (nonlinear_arith)
        requires
            0 <= x < w,
            0 <= y < h,
    ;
}

pub proof fn lemma_grid_idx_decompose(w: int, h: int, i: int)
    requires
        0 < w,
        0 <= i < w * h,
    ensures
        0 <= i % w < w,
        0 <= i / w < h,
        grid_idx(w, i % w, i / w) == i,
{
    assert(0 <= i % w < w && 0 <= i / w < h && i % w + (i / w) * w == i) by (nonlinear_arith)
        requires
            0 < w,
            0 <= i < w * h,
    ;
}

/// The bounds test under which all K cells `(x, y) + i * d` for `i` in
/// `[0, K)` lie inside a `w x h` grid.
pub open spec fn run_in_bounds(w: int, h: int, k: int, x: int, y: int, d: Dir) -> bool {
    match d {
        Dir::Right => x + k <= w && y < h,
        Dir::Down => x < w && y + k <= h,
        Dir::DownRight => x + k <= w && y + k <= h,
        Dir::DownLeft => x + 1 >= k && x < w && y + k <= h,
    }
}

pub proof fn lemma_run_pos_in_grid(w: int, h: int, k: int, x: int, y: int, d: Dir, i: int)
    requires
        0 <= x,
        0 <= y,
        1 <= k,
        run_in_bounds(w, h, k, x, y, d),
        0 <= i < k,
    ensures
        0 <= x + i * d.dx() < w,
        0 <= y + i * d.dy() < h,
{
    match d {
        Dir::Right => {
            assert(x + i * 1 == x + i);
            assert(y + i * 0 == y);
        },
        Dir::Down => {
            assert(x + i * 0 == x);
            assert(y + i * 1 == y + i);
        },
        Dir::DownRight => {
            assert(x + i * 1 == x + i);
            assert(y + i * 1 == y + i);
        },
        Dir::DownLeft => {
            assert(x + i * (-1) == x - i);
            assert(y + i * 1 == y + i);
        },
    }
}

/// The row-major index of position `i` along the run from (x, y) in
/// direction `d`.
pub open spec fn run_idx(w: int, x: int, y: int, d: Dir, i: int) -> int {
    grid_idx(w, x + i * d.dx(), y + i * d.dy())
}

/// The cell at position `i` along the run from (x, y) in direction `d`.
pub open spec fn run_cell(cells: Seq<Cell>, w: int, x: int, y: int, d: Dir, i: int) -> Cell {
    cells[run_idx(w, x, y, d, i)]
}

/// All K cells along the run starting at (x, y) in direction `d` hold the
/// same mark as the run's first cell.
pub open spec fn run_matches(cells: Seq<Cell>, w: int, k: int, x: int, y: int, d: Dir) -> bool {
    forall|i: int| 0 <= i < k ==> run_cell(cells, w, x, y, d, i) == cells[grid_idx(w, x, y)]
}

/// The segment `seg` names an in-bounds K-run of identical non-Empty marks.
pub open spec fn seg_wins(cells: Seq<Cell>, w: int, h: int, k: int, seg: WinSegment) -> bool {
    &&& seg.origin.x < w
    &&& seg.origin.y < h
    &&& cells[grid_idx(w, seg.origin.x as int, seg.origin.y as int)] != Cell::Empty
    &&& run_in_bounds(w, h, k, seg.origin.x as int, seg.origin.y as int, seg.dir)
    &&& run_matches(cells, w, k, seg.origin.x as int, seg.origin.y as int, seg.dir)
}

/// Some in-bounds K-run of identical non-Empty marks exists.
pub open spec fn has_win(cells: Seq<Cell>, w: int, h: int, k: int) -> bool {
    exists|seg: WinSegment| seg_wins(cells, w, h, k, seg)
}

/// No cell of the grid is empty.
pub open spec fn is_full(cells: Seq<Cell>) -> bool {
    forall|i: int| 0 <= i < cells.len() ==> cells[i] != Cell::Empty
}

/// `a` comes strictly before `b` in the scanner's order: row-major on the
/// origin, then by direction rank.
pub open spec fn seg_precedes(a: WinSegment, b: WinSegment) -> bool {
    ||| a.origin.y < b.origin.y
    ||| a.origin.y == b.origin.y && a.origin.x < b.origin.x
    ||| a.origin.y == b.origin.y && a.origin.x == b.origin.x && a.dir.rank() < b.dir.rank()
}

/// The tic-tac-toe board: the W x H cell grid in row-major order, the
/// cursor, the win length K, the record of the winning run if one exists,
/// and the cached terminal state.
///
/// `state` is `None` while the game is in progress, `Some(Cell::Empty)` on
/// a draw, and `Some(c)` when mark `c` has won.
#[derive(Debug, Clone)]
pub struct Board {
    pub cells: Vec<Cell>,
    pub selected: Coord,
    pub size: Coord,
    pub win_len: usize,
    pub win: Option<WinSegment>,
    pub state: Option<Cell>,
}

impl Board {
    /// Grid width as a mathematical integer.
    pub open spec fn w(self) -> int {
        self.size.x as int
    }

    /// Grid height as a mathematical integer.
    pub open spec fn h(self) -> int {
        self.size.y as int
    }

    /// Win length as a mathematical integer.
    pub open spec fn k(self) -> int {
        self.win_len as int
    }

    /// The cached terminal state agrees with the grid: an in-progress
    /// board has no winning run and an empty cell; a drawn board is full
    /// without a winning run; a won board records the scan-order-first
    /// winning run of the winning mark.
    pub open spec fn state_consistent(self) -> bool {
        match self.state {
            None => {
                &&& self.win is None
                &&& !has_win(self.cells@, self.w(), self.h(), self.k())
                &&& !is_full(self.cells@)
            },
            Some(c) => {
                if c == Cell::Empty {
                    &&& self.win is None
                    &&& is_full(self.cells@)
                    &&& !has_win(self.cells@, self.w(), self.h(), self.k())
                } else {
                    &&& self.win matches Some(seg)
                    &&& seg_wins(self.cells@, self.w(), self.h(), self.k(), seg)
                    &&& self.cells@[grid_idx(self.w(), seg.origin.x as int, seg.origin.y as int)]
                        == c
                    &&& forall|other: WinSegment|
                        seg_wins(self.cells@, self.w(), self.h(), self.k(), other)
                            ==> !seg_precedes(other, seg)
                }
            },
        }
    }

    /// Well-formedness: the dimension bounds, the grid size, the cursor
    /// bounds, and the agreement of the cached state with the grid.
    pub open spec fn wf(self) -> bool {
        &&& self.size.x >= 3
        &&& self.size.y >= 3
        &&& self.win_len >= 3
        &&& self.w() * self.h() <= usize::MAX
        &&& self.cells@.len() == self.w() * self.h()
        &&& self.selected.x < self.size.x
        &&& self.selected.y < self.size.y
        &&& self.state_consistent()
    }

    /// Creates a new board with all cells empty, the cursor at the grid
    /// centre, and the game in progress.
    pub fn new(width: usize, height: usize, win_len: usize) -> (b: Board)
        requires
            width >= 3,
            height >= 3,
            win_len >= 3,
            width * height <= usize::MAX,
        ensures
            b.wf(),
            b.size == (Coord { x: width, y: height }),
            b.win_len == win_len,
            b.selected == (Coord { x: width / 2, y: height / 2 }),
            b.cells@ == Seq::new((width * height) as nat, |i: int| Cell::Empty),
            b.state is None,
            b.win is None,
    {
        let n = width * height;
        let b = Board {
            cells: empty_cells(n),
            selected: Coord { x: width / 2, y: height / 2 },
            size: Coord { x: width, y: height },
            win_len,
            win: None,
            state: None,
        };
        proof {
            lemma_empty_grid_quiet(b.cells@, width as int, height as int, win_len as int);
        }
        b
    }

    /// Restarts the game: zeroes the cells and clears the cached state and
    /// the win record, but keeps the cursor where it is.
    pub fn restart(&mut self)
        requires
            old(self).wf(),
        ensures
            final(self).wf(),
            is_restarted(*old(self), *final(self)),
    {
        let n = self.size.x * self.size.y;
        self.cells = empty_cells(n);
        self.state = None;
        self.win = None;
        proof {
            lemma_empty_grid_quiet(
                self.cells@,
                self.size.x as int,
                self.size.y as int,
                self.win_len as int,
            );
        }
    }

    /// Places `cell` at (x, y) and recomputes the cached terminal state.
    ///
    /// Fails with `GameEnded` when the game is already over and with
    /// `CellOccupied` when the target cell is not empty; both leave the
    /// board unchanged. On success returns the new cached state: `None`
    /// while the game goes on, `Some(Cell::Empty)` on a draw, and
    /// `Some(cell)` when the placement completed a winning run.
    ///
    /// A cell that is non-Empty before the call is unchanged by it, and a
    /// board whose state is terminal is unchanged by any `set`.
    pub fn set(&mut self, cell: Cell, x: usize, y: usize) -> (r: Result<Option<Cell>, Error>)
        requires
            old(self).wf(),
            x < old(self).size.x,
            y < old(self).size.y,
        ensures
            final(self).wf(),
            final(self).size == old(self).size,
            final(self).win_len == old(self).win_len,
            final(self).selected == old(self).selected,
            old(self).state is Some ==> r == Err::<Option<Cell>, Error>(Error::GameEnded)
                && *final(self) == *old(self),
            old(self).state is None && old(self).cells@[grid_idx(old(self).w(), x as int, y as int)]
                != Cell::Empty ==> r == Err::<Option<Cell>, Error>(Error::CellOccupied)
                && *final(self) == *old(self),
            old(self).state is None && old(self).cells@[grid_idx(old(self).w(), x as int, y as int)]
                == Cell::Empty ==> {
                &&& final(self).cells@ == old(self).cells@.update(
                    grid_idx(old(self).w(), x as int, y as int),
                    cell,
                )
                &&& r == Ok::<Option<Cell>, Error>(final(self).state)
                &&& (final(self).state == Some(cell) && cell != Cell::Empty <==> has_win(
                    final(self).cells@,
                    old(self).w(),
                    old(self).h(),
                    old(self).k(),
                ))
                &&& (final(self).state == Some(Cell::Empty) <==> is_full(final(self).cells@)
                    && !has_win(final(self).cells@, old(self).w(), old(self).h(), old(self).k()))
                &&& (final(self).state is None <==> !is_full(final(self).cells@) && !has_win(
                    final(self).cells@,
                    old(self).w(),
                    old(self).h(),
                    old(self).k(),
                ))
            },
            forall|i: int|
                0 <= i < old(self).cells@.len() && old(self).cells@[i] != Cell::Empty
                    ==> final(self).cells@[i] == old(self).cells@[i],
    {
        if self.state.is_some() {
            return Err(Error::GameEnded);
        }
        proof {
            lemma_grid_idx_bounds(self.w(), self.h(), x as int, y as int);
        }
        let id = x + y * self.size.x;
        match self.cells[id] {
            Cell::Empty => {
                self.cells[id] = cell;
                let st = self.check_state();
                self.state = st;
                proof {
                    if cell == Cell::Empty {
                        assert(self.cells@ =~= old(self).cells@);
                    }
                    if self.state matches Some(c) && c != Cell::Empty {
                        let seg = self.win->Some_0;
                        lemma_new_run_is_placed_mark(
                            old(self).cells@,
                            self.w(),
                            self.h(),
                            self.k(),
                            x as int,
                            y as int,
                            cell,
                            seg,
                        );
                        assert(has_win(self.cells@, self.w(), self.h(), self.k()));
                    }
                }
                Ok(st)
            },
            _ => Err(Error::CellOccupied),
        }
    }

    /// Places `cell` at the cursor: shorthand for `set` at `selected`.
    pub fn set_selected(&mut self, cell: Cell) -> (r: Result<Option<Cell>, Error>)
        requires
            old(self).wf(),
        ensures
            final(self).wf(),
            final(self).size == old(self).size,
            final(self).win_len == old(self).win_len,
            final(self).selected == old(self).selected,
            old(self).state is Some ==> r == Err::<Option<Cell>, Error>(Error::GameEnded)
                && *final(self) == *old(self),
            old(self).state is None && old(self).cells@[grid_idx(
                old(self).w(),
                old(self).selected.x as int,
                old(self).selected.y as int,
            )] != Cell::Empty ==> r == Err::<Option<Cell>, Error>(Error::CellOccupied)
                && *final(self) == *old(self),
            old(self).state is None && old(self).cells@[grid_idx(
                old(self).w(),
                old(self).selected.x as int,
                old(self).selected.y as int,
            )] == Cell::Empty ==> {
                &&& final(self).cells@ == old(self).cells@.update(
                    grid_idx(
                        old(self).w(),
                        old(self).selected.x as int,
                        old(self).selected.y as int,
                    ),
                    cell,
                )
                &&& r == Ok::<Option<Cell>, Error>(final(self).state)
                &&& (final(self).state == Some(cell) && cell != Cell::Empty <==> has_win(
                    final(self).cells@,
                    old(self).w(),
                    old(self).h(),
                    old(self).k(),
                ))
                &&& (final(self).state == Some(Cell::Empty) <==> is_full(final(self).cells@)
                    && !has_win(final(self).cells@, old(self).w(), old(self).h(), old(self).k()))
                &&& (final(self).state is None <==> !is_full(final(self).cells@) && !has_win(
                    final(self).cells@,
                    old(self).w(),
                    old(self).h(),
                    old(self).k(),
                ))
            },
            forall|i: int|
                0 <= i < old(self).cells@.len() && old(self).cells@[i] != Cell::Empty
                    ==> final(self).cells@[i] == old(self).cells@[i],
    {
        let x = self.selected.x;
        let y = self.selected.y;
        self.set(cell, x, y)
    }

    /// Moves the cursor to `coords` unconditionally; `coords` must lie in
    /// the grid.
    pub fn select(&mut self, coords: Coord)
        requires
            old(self).wf(),
            coords.x < old(self).size.x,
            coords.y < old(self).size.y,
        ensures
            final(self).wf(),
            final(self).selected == coords,
            final(self).cells == old(self).cells,
            final(self).size == old(self).size,
            final(self).win_len == old(self).win_len,
            final(self).win == old(self).win,
            final(self).state == old(self).state,
    {
        self.selected = coords;
    }

    /// Moves the cursor up one row, saturating at the top edge.
    pub fn up(&mut self)
        requires
            old(self).wf(),
        ensures
            final(self).wf(),
            final(self).selected.x == old(self).selected.x,
            final(self).selected.y == if old(self).selected.y > 0 {
                old(self).selected.y - 1
            } else {
                0int
            },
            final(self).cells == old(self).cells,
            final(self).size == old(self).size,
            final(self).win_len == old(self).win_len,
            final(self).win == old(self).win,
            final(self).state == old(self).state,
    {
        if self.selected.y > 0 {
            self.selected.y = self.selected.y - 1;
        }
    }

    /// Moves the cursor down one row, clamping at the bottom edge.
    pub fn down(&mut self)
        requires
            old(self).wf(),
        ensures
            final(self).wf(),
            final(self).selected.x == old(self).selected.x,
            final(self).selected.y == if old(self).selected.y + 1 < old(self).size.y {
                old(self).selected.y + 1
            } else {
                old(self).size.y - 1
            },
            final(self).cells == old(self).cells,
            final(self).size == old(self).size,
            final(self).win_len == old(self).win_len,
            final(self).win == old(self).win,
            final(self).state == old(self).state,
    {
        if self.selected.y + 1 < self.size.y {
            self.selected.y = self.selected.y + 1;
        } else {
            self.selected.y = self.size.y - 1;
        }
    }

    /// Moves the cursor left one column, saturating at the left edge.
    pub fn left(&mut self)
        requires
            old(self).wf(),
        ensures
            final(self).wf(),
            final(self).selected.y == old(self).selected.y,
            final(self).selected.x == if old(self).selected.x > 0 {
                old(self).selected.x - 1
            } else {
                0int
            },
            final(self).cells == old(self).cells,
            final(self).size == old(self).size,
            final(self).win_len == old(self).win_len,
            final(self).win == old(self).win,
            final(self).state == old(self).state,
    {
        if self.selected.x > 0 {
            self.selected.x = self.selected.x - 1;
        }
    }

    /// Moves the cursor right one column, clamping at the right edge.
    pub fn right(&mut self)
        requires
            old(self).wf(),
        ensures
            final(self).wf(),
            final(self).selected.y == old(self).selected.y,
            final(self).selected.x == if old(self).selected.x + 1 < old(self).size.x {
                old(self).selected.x + 1
            } else {
                old(self).size.x - 1
            },
            final(self).cells == old(self).cells,
            final(self).size == old(self).size,
            final(self).win_len == old(self).win_len,
            final(self).win == old(self).win,
            final(self).state == old(self).state,
    {
        if self.selected.x + 1 < self.size.x {
            self.selected.x = self.selected.x + 1;
        } else {
            self.selected.x = self.size.x - 1;
        }
    }

    /// Reads the cached terminal state.
    pub fn state(&self) -> (r: Option<Cell>)
        ensures
            r == self.state,
    {
        self.state
    }

    /// Scans the whole grid in row-major order, each cell's directions in
    /// the fixed order, for a winning K-run. Returns `Some(c)` for the
    /// mark `c` of the first winning run found (recording that run in
    /// `win`), `Some(Cell::Empty)` for a draw, and `None` while the game
    /// goes on; `win` is untouched unless a run is found.
    fn check_state(&mut self) -> (r: Option<Cell>)
        requires
            old(self).size.x >= 1,
            old(self).size.y >= 1,
            old(self).win_len >= 1,
            old(self).w() * old(self).h() <= usize::MAX,
            old(self).cells@.len() == old(self).w() * old(self).h(),
        ensures
            final(self).cells == old(self).cells,
            final(self).size == old(self).size,
            final(self).win_len == old(self).win_len,
            final(self).selected == old(self).selected,
            final(self).state == old(self).state,
            ({
                let cells = old(self).cells@;
                let w = old(self).w();
                let h = old(self).h();
                let k = old(self).k();
                match r {
                    None => {
                        &&& !has_win(cells, w, h, k)
                        &&& !is_full(cells)
                        &&& final(self).win == old(self).win
                    },
                    Some(c) => {
                        if c == Cell::Empty {
                            &&& !has_win(cells, w, h, k)
                            &&& is_full(cells)
                            &&& final(self).win == old(self).win
                        } else {
                            &&& final(self).win matches Some(seg)
                            &&& seg_wins(cells, w, h, k, seg)
                            &&& cells[grid_idx(w, seg.origin.x as int, seg.origin.y as int)] == c
                            &&& forall|other: WinSegment|
                                seg_wins(cells, w, h, k, other) ==> !seg_precedes(other, seg)
                        }
                    },
                }
            }),
    {
        let w = self.size.x;
        let h = self.size.y;
        let k = self.win_len;
        let ghost cells = self.cells@;
        let mut draw = true;
        let mut y: usize = 0;
        while y < h
            invariant
                *self == *old(self),
                w == self.size.x,
                h == self.size.y,
                k == self.win_len,
                cells == self.cells@,
                cells.len() == self.w() * self.h(),
                self.w() * self.h() <= usize::MAX,
                w >= 1,
                h >= 1,
                k >= 1,
                y <= h,
                forall|s: WinSegment|
                    s.origin.y < y ==> !seg_wins(cells, w as int, h as int, k as int, s),
                draw ==> forall|cx: int, cy: int|
                    0 <= cx < w && 0 <= cy < y ==> cells[grid_idx(w as int, cx, cy)] != Cell::Empty,
                !draw ==> !is_full(cells),
            decreases h - y,
        {
            let mut x: usize = 0;
            while x < w
                invariant
                    *self == *old(self),
                    w == self.size.x,
                    h == self.size.y,
                    k == self.win_len,
                    cells == self.cells@,
                    cells.len() == self.w() * self.h(),
                    self.w() * self.h() <= usize::MAX,
                    w >= 1,
                    h >= 1,
                    k >= 1,
                    y < h,
                    x <= w,
                    forall|s: WinSegment|
                        s.origin.y < y ==> !seg_wins(cells, w as int, h as int, k as int, s),
                    forall|s: WinSegment|
                        s.origin.y == y && s.origin.x < x ==> !seg_wins(
                            cells,
                            w as int,
                            h as int,
                            k as int,
                            s,
                        ),
                    draw ==> forall|cx: int, cy: int|
                        0 <= cx < w && 0 <= cy < y ==> cells[grid_idx(w as int, cx, cy)]
                            != Cell::Empty,
                    draw ==> forall|cx: int|
                        0 <= cx < x ==> cells[grid_idx(w as int, cx, y as int)] != Cell::Empty,
                    !draw ==> !is_full(cells),
                decreases w - x,
            {
                proof {
                    lemma_grid_idx_bounds(w as int, h as int, x as int, y as int);
                }
                let c = self.cells[x + y * w];
                assert(c == cells[grid_idx(w as int, x as int, y as int)]);
                if c == Cell::Empty {
                    draw = false;
                } else {
                    if k <= w - x && self.check_win(x, y, Dir::Right) {
                        proof {
                            let seg = WinSegment { origin: Coord { x, y }, dir: Dir::Right };
                            assert(seg_wins(cells, w as int, h as int, k as int, seg));
                            assert forall|other: WinSegment|
                                seg_wins(cells, w as int, h as int, k as int, other)
                                    implies !seg_precedes(other, seg) by {}
                        }
                        return Some(c);
                    }
                    if k <= h - y {
                        if self.check_win(x, y, Dir::Down) {
                            proof {
                                let seg = WinSegment { origin: Coord { x, y }, dir: Dir::Down };
                                assert(seg_wins(cells, w as int, h as int, k as int, seg));
                                assert forall|other: WinSegment|
                                    seg_wins(cells, w as int, h as int, k as int, other)
                                        implies !seg_precedes(other, seg) by {}
                            }
                            return Some(c);
                        }
                        if k <= w - x && self.check_win(x, y, Dir::DownRight) {
                            proof {
                                let seg = WinSegment {
                                    origin: Coord { x, y },
                                    dir: Dir::DownRight,
                                };
                                assert(seg_wins(cells, w as int, h as int, k as int, seg));
                                assert forall|other: WinSegment|
                                    seg_wins(cells, w as int, h as int, k as int, other)
                                        implies !seg_precedes(other, seg) by {}
                            }
                            return Some(c);
                        }
                        if x + 1 >= k && self.check_win(x, y, Dir::DownLeft) {
                            proof {
                                let seg = WinSegment {
                                    origin: Coord { x, y },
                                    dir: Dir::DownLeft,
                                };
                                assert(seg_wins(cells, w as int, h as int, k as int, seg));
                                assert forall|other: WinSegment|
                                    seg_wins(cells, w as int, h as int, k as int, other)
                                        implies !seg_precedes(other, seg) by {}
                            }
                            return Some(c);
                        }
                    }
                    proof {
                        assert forall|s: WinSegment|
                            s.origin.y == y && s.origin.x == x implies !seg_wins(
                            cells,
                            w as int,
                            h as int,
                            k as int,
                            s,
                        ) by {
                            if s.dir == Dir::Right {
                                assert(s == WinSegment { origin: Coord { x, y }, dir: Dir::Right });
                            } else if s.dir == Dir::Down {
                                assert(s == WinSegment { origin: Coord { x, y }, dir: Dir::Down });
                            } else if s.dir == Dir::DownRight {
                                assert(s == WinSegment {
                                    origin: Coord { x, y },
                                    dir: Dir::DownRight,
                                });
                            } else {
                                assert(s == WinSegment {
                                    origin: Coord { x, y },
                                    dir: Dir::DownLeft,
                                });
                            }
                        }
                    }
                }
                x = x + 1;
            }
            y = y + 1;
        }
        proof {
            assert forall|s: WinSegment| !seg_wins(cells, w as int, h as int, k as int, s) by {}
            if draw {
                assert forall|i: int| 0 <= i < cells.len() implies cells[i] != Cell::Empty by {
                    lemma_grid_idx_decompose(w as int, h as int, i);
                }
            }
        }
        if draw {
            Some(Cell::Empty)
        } else {
            None
        }
    }

    /// Compares the K cells from (x, y) along `dir` with the starting
    /// cell; on a full match records the run in `win` and reports success,
    /// otherwise leaves `win` alone.
    fn check_win(&mut self, x: usize, y: usize, dir: Dir) -> (r: bool)
        requires
            old(self).size.x >= 1,
            old(self).size.y >= 1,
            old(self).win_len >= 1,
            old(self).w() * old(self).h() <= usize::MAX,
            old(self).cells@.len() == old(self).w() * old(self).h(),
            x < old(self).size.x,
            y < old(self).size.y,
            run_in_bounds(old(self).w(), old(self).h(), old(self).k(), x as int, y as int, dir),
        ensures
            final(self).cells == old(self).cells,
            final(self).size == old(self).size,
            final(self).win_len == old(self).win_len,
            final(self).selected == old(self).selected,
            final(self).state == old(self).state,
            r == run_matches(
                old(self).cells@,
                old(self).w(),
                old(self).k(),
                x as int,
                y as int,
                dir,
            ),
            r ==> final(self).win == Some(WinSegment { origin: Coord { x, y }, dir }),
            !r ==> final(self).win == old(self).win,
    {
        let w = self.size.x;
        let k = self.win_len;
        let ghost cells = self.cells@;
        proof {
            lemma_grid_idx_bounds(self.w(), self.h(), x as int, y as int);
        }
        let cell = self.cells[x + y * w];
        let mut cx = x;
        let mut cy = y;
        let mut i: usize = 1;
        proof {
            assert(run_cell(cells, w as int, x as int, y as int, dir, 0) == cell) by {
                assert(x + 0 * dir.dx() == x as int);
                assert(y + 0 * dir.dy() == y as int);
            }
        }
        while i < k
            invariant
                *self == *old(self),
                w == self.size.x,
                k == self.win_len,
                cells == self.cells@,
                cells.len() == self.w() * self.h(),
                self.w() * self.h() <= usize::MAX,
                x < self.size.x,
                y < self.size.y,
                run_in_bounds(self.w(), self.h(), k as int, x as int, y as int, dir),
                cell == cells[grid_idx(w as int, x as int, y as int)],
                1 <= i <= k,
                dir == Dir::Right ==> cx as int == x + (i - 1) && cy == y,
                dir == Dir::Down ==> cx == x && cy as int == y + (i - 1),
                dir == Dir::DownRight ==> cx as int == x + (i - 1) && cy as int == y + (i - 1),
                dir == Dir::DownLeft ==> cx as int == x - (i - 1) && cy as int == y + (i - 1),
                forall|j: int| 0 <= j < i ==> run_cell(cells, w as int, x as int, y as int, dir, j)
                    == cell,
            decreases k - i,
        {
            proof {
                lemma_run_pos_in_grid(
                    self.w(),
                    self.h(),
                    k as int,
                    x as int,
                    y as int,
                    dir,
                    i as int,
                );
                match dir {
                    Dir::Right => {
                        assert(x + (i as int) * dir.dx() == x + i);
                        assert(y + (i as int) * dir.dy() == y as int);
                    },
                    Dir::Down => {
                        assert(x + (i as int) * dir.dx() == x as int);
                        assert(y + (i as int) * dir.dy() == y + i);
                    },
                    Dir::DownRight => {
                        assert(x + (i as int) * dir.dx() == x + i);
                        assert(y + (i as int) * dir.dy() == y + i);
                    },
                    Dir::DownLeft => {
                        assert(x + (i as int) * dir.dx() == x - i);
                        assert(y + (i as int) * dir.dy() == y + i);
                    },
                }
            }
            match dir {
                Dir::Right => {
                    cx = cx + 1;
                },
                Dir::Down => {
                    cy = cy + 1;
                },
                Dir::DownRight => {
                    cx = cx + 1;
                    cy = cy + 1;
                },
                Dir::DownLeft => {
                    cx = cx - 1;
                    cy = cy + 1;
                },
            }
            proof {
                assert(cx as int == x + (i as int) * dir.dx());
                assert(cy as int == y + (i as int) * dir.dy());
                lemma_grid_idx_bounds(self.w(), self.h(), cx as int, cy as int);
                assert(run_idx(w as int, x as int, y as int, dir, i as int) == cx + cy * w);
            }
            if self.cells[cx + cy * w] != cell {
                proof {
                    assert(run_cell(cells, w as int, x as int, y as int, dir, i as int)
                        != cells[grid_idx(w as int, x as int, y as int)]);
                }
                return false;
            }
            proof {
                assert(run_cell(cells, w as int, x as int, y as int, dir, i as int) == cell);
            }
            i = i + 1;
        }
        self.win = Some(WinSegment { origin: Coord { x, y }, dir });
        true
    }
}

/// Restarting relates the old and the new board: the grid is zeroed and
/// the cached state and win record are cleared, while the cursor, the
/// dimensions and the win length are kept.
pub open spec fn is_restarted(pre: Board, post: Board) -> bool {
    &&& post.cells@ == Seq::new(pre.cells@.len(), |i: int| Cell::Empty)
    &&& post.selected == pre.selected
    &&& post.size == pre.size
    &&& post.win_len == pre.win_len
    &&& post.state is None
    &&& post.win is None
}

/// Builds the all-empty grid of `n` cells.
fn empty_cells(n: usize) -> (v: Vec<Cell>)
    ensures
        v@ == Seq::new(n as nat, |i: int| Cell::Empty),
{
    let mut v: Vec<Cell> = Vec::new();
    while v.len() < n
        invariant
            v@.len() <= n,
            forall|i: int| 0 <= i < v@.len() ==> v@[i] == Cell::Empty,
        decreases n - v@.len(),
    {
        v.push(Cell::Empty);
    }
    proof {
        assert(v@ =~= Seq::new(n as nat, |i: int| Cell::Empty));
    }
    v
}

/// An all-empty grid has no winning run and is not full.
proof fn lemma_empty_grid_quiet(cells: Seq<Cell>, w: int, h: int, k: int)
    requires
        w >= 1,
        h >= 1,
        k >= 1,
        cells.len() == w * h,
        forall|i: int| 0 <= i < cells.len() ==> cells[i] == Cell::Empty,
    ensures
        !has_win(cells, w, h, k),
        !is_full(cells),
{
    assert forall|seg: WinSegment| !seg_wins(cells, w, h, k, seg) by {
        if seg.origin.x < w && seg.origin.y < h {
            lemma_grid_idx_bounds(w, h, seg.origin.x as int, seg.origin.y as int);
        }
    }
    lemma_grid_idx_bounds(w, h, 0, 0);
    assert(cells[0] == Cell::Empty);
}

/// Completing a run on a board that had none: any winning run of the new
/// grid passes through the placed cell, so its mark is the placed mark.
pub proof fn lemma_new_run_is_placed_mark(
    cells: Seq<Cell>,
    w: int,
    h: int,
    k: int,
    x: int,
    y: int,
    c: Cell,
    seg: WinSegment,
)
    requires
        1 <= k,
        0 <= x < w,
        0 <= y < h,
        cells.len() == w * h,
        !has_win(cells, w, h, k),
        cells[grid_idx(w, x, y)] == Cell::Empty,
        seg_wins(cells.update(grid_idx(w, x, y), c), w, h, k, seg),
    ensures
        cells.update(grid_idx(w, x, y), c)[grid_idx(w, seg.origin.x as int, seg.origin.y as int)]
            == c,
{
    let t = grid_idx(w, x, y);
    let new = cells.update(t, c);
    let ox = seg.origin.x as int;
    let oy = seg.origin.y as int;
    let d = seg.dir;
    lemma_grid_idx_bounds(w, h, x, y);
    lemma_grid_idx_bounds(w, h, ox, oy);
    assert(run_idx(w, ox, oy, d, 0) == grid_idx(w, ox, oy)) by {
        assert(ox + 0 * d.dx() == ox);
        assert(oy + 0 * d.dy() == oy);
    }
    if forall|i: int| 0 <= i < k ==> #[trigger] run_idx(w, ox, oy, d, i) != t {
        assert forall|i: int| 0 <= i < k implies run_cell(cells, w, ox, oy, d, i) == cells[grid_idx(
            w,
            ox,
            oy,
        )] by {
            lemma_run_pos_in_grid(w, h, k, ox, oy, d, i);
            lemma_grid_idx_bounds(w, h, ox + i * d.dx(), oy + i * d.dy());
            assert(run_idx(w, ox, oy, d, i) != t);
            assert(new[run_idx(w, ox, oy, d, i)] == cells[run_idx(w, ox, oy, d, i)]);
            assert(run_idx(w, ox, oy, d, 0) != t);
            assert(new[grid_idx(w, ox, oy)] == cells[grid_idx(w, ox, oy)]);
            assert(run_cell(new, w, ox, oy, d, i) == new[grid_idx(w, ox, oy)]);
        }
        assert(run_idx(w, ox, oy, d, 0) != t);
        assert(new[grid_idx(w, ox, oy)] == cells[grid_idx(w, ox, oy)]);
        assert(seg_wins(cells, w, h, k, seg));
        assert(false);
    } else {
        let i = choose|i: int| 0 <= i < k && #[trigger] run_idx(w, ox, oy, d, i) == t;
        lemma_run_pos_in_grid(w, h, k, ox, oy, d, i);
        assert(new[run_idx(w, ox, oy, d, i)] == c);
        assert(run_cell(new, w, ox, oy, d, i) == new[grid_idx(w, ox, oy)]);
    }
}

/// Win soundness: on a well-formed board in a won state, the recorded
/// segment exists and its K cells are all in bounds and all hold the
/// winning mark.
pub proof fn lemma_win_soundness(b: Board)
    requires
        b.wf(),
        b.state matches Some(c) && c != Cell::Empty,
    ensures
        b.win matches Some(seg) && {
            &&& seg_wins(b.cells@, b.w(), b.h(), b.k(), seg)
            &&& forall|i: int|
                0 <= i < b.k() ==> 0 <= #[trigger] run_idx(
                    b.w(),
                    seg.origin.x as int,
                    seg.origin.y as int,
                    seg.dir,
                    i,
                ) < b.cells@.len()
            &&& forall|i: int|
                0 <= i < b.k() ==> #[trigger] run_cell(
                    b.cells@,
                    b.w(),
                    seg.origin.x as int,
                    seg.origin.y as int,
                    seg.dir,
                    i,
                ) == b.state->Some_0
        },
{
    let seg = b.win->Some_0;
    let ox = seg.origin.x as int;
    let oy = seg.origin.y as int;
    let d = seg.dir;
    assert(run_idx(b.w(), ox, oy, d, 0) == grid_idx(b.w(), ox, oy)) by {
        assert(ox + 0 * d.dx() == ox);
        assert(oy + 0 * d.dy() == oy);
    }
    assert forall|i: int| 0 <= i < b.k() implies 0 <= #[trigger] run_idx(b.w(), ox, oy, d, i)
        < b.cells@.len() by {
        lemma_run_pos_in_grid(b.w(), b.h(), b.k(), ox, oy, d, i);
        lemma_grid_idx_bounds(b.w(), b.h(), ox + i * d.dx(), oy + i * d.dy());
    }
    assert forall|i: int| 0 <= i < b.k() implies #[trigger] run_cell(b.cells@, b.w(), ox, oy, d, i)
        == b.state->Some_0 by {
        assert(run_cell(b.cells@, b.w(), ox, oy, d, i) == b.cells@[grid_idx(b.w(), ox, oy)]);
    }
}

/// Draw correctness: on a well-formed board the cached state is the draw
/// state exactly when no cell is empty and no winning run exists.
pub proof fn lemma_draw_correctness(b: Board)
    requires
        b.wf(),
    ensures
        b.state == Some(Cell::Empty) <==> is_full(b.cells@) && !has_win(
            b.cells@,
            b.w(),
            b.h(),
            b.k(),
        ),
{
    if b.state matches Some(c) && c != Cell::Empty {
        let seg = b.win->Some_0;
        assert(seg_wins(b.cells@, b.w(), b.h(), b.k(), seg));
        assert(has_win(b.cells@, b.w(), b.h(), b.k()));
    }
}

/// Size and cursor invariants: a well-formed board has exactly W * H
/// cells and a cursor inside the grid; every board operation preserves
/// `wf`.
pub proof fn lemma_board_invariants(b: Board)
    requires
        b.wf(),
    ensures
        b.cells@.len() == b.size.x * b.size.y,
        b.selected.x < b.size.x,
        b.selected.y < b.size.y,
{
}

/// Restart is idempotent, and the cursor survives it: restarting a board
/// twice leaves exactly what one restart leaves, and the cursor is the
/// one from before the first restart.
pub proof fn lemma_restart_idempotent(a: Board, b: Board, c: Board)
    requires
        is_restarted(a, b),
        is_restarted(b, c),
    ensures
        c.cells@ == b.cells@,
        c.selected == b.selected && b.selected == a.selected,
        c.size == b.size,
        c.win_len == b.win_len,
        c.state == b.state,
        c.win == b.win,
{
    assert(c.cells@ =~= b.cells@);
}

} // verus!
