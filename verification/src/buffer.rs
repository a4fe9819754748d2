//! The trusted boundary around termint's character back-buffer.
//!
//! The renderer paints into `termint::buffer::Buffer`. Verus sees the
//! buffer through two named views — the character at each absolute
//! (column, row) and the foreground colour code at each — plus the
//! buffer's rectangle, and through small wrappers around the methods the
//! renderer calls, each with a contract over those views.

use vstd::prelude::*;

use termint::buffer::Buffer;
use termint::geometry::Vec2;

verus! {

/// The foreground colours the renderer uses.
#[derive(Debug, PartialEq, Eq, Structural, Clone, Copy)]
pub enum Color {
    Default,
    Gray,
    Green,
    Red,
}

impl Color {
    /// The colour's code in the buffer's foreground view.
    pub open spec fn code(self) -> int {
        match self {
            Color::Default => 0,
            Color::Gray => 1,
            Color::Green => 2,
            Color::Red => 3,
        }
    }
}

#[verifier::external_type_specification]
#[verifier::external_body]
pub struct ExBuffer(Buffer);

/// The character shown in each cell of the buffer, keyed by absolute
/// (column, row).
pub uninterp spec fn buf_chars(b: Buffer) -> Map<(int, int), char>;

/// The foreground colour code of each cell of the buffer, keyed by
/// absolute (column, row); the codes are those of `Color::code`.
pub uninterp spec fn buf_fg(b: Buffer) -> Map<(int, int), int>;

/// The column of the buffer's left edge.
pub uninterp spec fn buf_left(b: Buffer) -> int;

/// The row of the buffer's top edge.
pub uninterp spec fn buf_top(b: Buffer) -> int;

/// The buffer's width in character cells.
pub uninterp spec fn buf_width(b: Buffer) -> int;

/// The buffer's height in character cells.
pub uninterp spec fn buf_height(b: Buffer) -> int;

/// The position (x, y) lies inside the buffer's rectangle.
pub open spec fn in_buf(b: Buffer, x: int, y: int) -> bool {
    &&& buf_left(b) <= x < buf_left(b) + buf_width(b)
    &&& buf_top(b) <= y < buf_top(b) + buf_height(b)
}

/// The two buffers have the same rectangle.
pub open spec fn same_rect(a: Buffer, b: Buffer) -> bool {
    &&& buf_left(b) == buf_left(a)
    &&& buf_top(b) == buf_top(a)
    &&& buf_width(b) == buf_width(a)
    &&& buf_height(b) == buf_height(a)
}

/// Relies on `Buffer::x`: the column of the buffer's left edge.
#[verifier::external_body]
pub(crate) fn buf_x(b: &Buffer) -> (r: usize)
    ensures
        r as int == buf_left(*b),
{
    b.x()
}

/// Relies on `Buffer::y`: the row of the buffer's top edge.
#[verifier::external_body]
pub(crate) fn buf_y(b: &Buffer) -> (r: usize)
    ensures
        r as int == buf_top(*b),
{
    b.y()
}

/// Relies on `Buffer::width`: the buffer's width in character cells.
#[verifier::external_body]
pub(crate) fn buf_w(b: &Buffer) -> (r: usize)
    ensures
        r as int == buf_width(*b),
{
    b.width()
}

/// Relies on `Buffer::height`: the buffer's height in character cells.
#[verifier::external_body]
pub(crate) fn buf_h(b: &Buffer) -> (r: usize)
    ensures
        r as int == buf_height(*b),
{
    b.height()
}

/// Relies on `Buffer::set_char`: writes one character at an in-buffer
/// position and touches nothing else — not the other cells, not the
/// colours, not the rectangle.
#[verifier::external_body]
pub(crate) fn buf_set_char(b: &mut Buffer, c: char, x: usize, y: usize)
    requires
        in_buf(*old(b), x as int, y as int),
    ensures
        buf_chars(*final(b)) == buf_chars(*old(b)).insert((x as int, y as int), c),
        buf_fg(*final(b)) == buf_fg(*old(b)),
        same_rect(*old(b), *final(b)),
{
    b.set_char(c, &Vec2::new(x, y));
}

/// Relies on `Buffer::set_fg`: sets the foreground colour at an in-buffer
/// position and touches nothing else — not the characters, not the other
/// cells' colours, not the rectangle.
#[verifier::external_body]
pub(crate) fn buf_set_fg(b: &mut Buffer, color: Color, x: usize, y: usize)
    requires
        in_buf(*old(b), x as int, y as int),
    ensures
        buf_fg(*final(b)) == buf_fg(*old(b)).insert((x as int, y as int), color.code()),
        buf_chars(*final(b)) == buf_chars(*old(b)),
        same_rect(*old(b), *final(b)),
{
    let fg = match color {
        Color::Default => termint::enums::Color::Default,
        Color::Gray => termint::enums::Color::Gray,
        Color::Green => termint::enums::Color::Green,
        Color::Red => termint::enums::Color::Red,
    };
    b.set_fg(fg, &Vec2::new(x, y));
}

} // verus!
