//! The screen of a terminal, which the `vt100` crate keeps.

use vstd::prelude::*;

verus! {

/// A terminal as `vt100` keeps it.
#[verifier::external_type_specification]
#[verifier::external_body]
pub struct ExParser(vt100::Parser);

/// A colour that the remote side asked for.
#[derive(Clone, Copy, PartialEq, Eq, Debug, Structural)]
pub enum CellColor {
    /// Whatever colour is usual.
    Usual,
    /// A colour of the palette.
    Idx(u8),
    /// Red, green and blue.
    Rgb(u8, u8, u8),
}

/// One place of a screen.
#[derive(Debug)]
pub struct Cell {
    /// Its text; empty where nothing was written.
    pub contents: String,
    pub fg: CellColor,
    pub bg: CellColor,
    pub bold: bool,
    pub italic: bool,
    pub underline: bool,
    pub inverse: bool,
    /// Whether its character takes two places, and whether it is the second of two such places.
    pub wide: bool,
    pub continuation: bool,
}

/// The model of `Cell`.
#[verifier::ext_equal]
pub struct CellState {
    pub contents: Seq<char>,
    pub fg: CellColor,
    pub bg: CellColor,
    pub bold: bool,
    pub italic: bool,
    pub underline: bool,
    pub inverse: bool,
    pub wide: bool,
    pub continuation: bool,
}

impl View for Cell {
    type V = CellState;

    open spec fn view(&self) -> CellState {
        CellState {
            contents: self.contents@,
            fg: self.fg,
            bg: self.bg,
            bold: self.bold,
            italic: self.italic,
            underline: self.underline,
            inverse: self.inverse,
            wide: self.wide,
            continuation: self.continuation,
        }
    }
}

/// The model of an optional cell.
pub open spec fn cell_state(c: Option<Cell>) -> Option<CellState> {
    match c {
        Some(c) => Some(c@),
        None => None,
    }
}

/// The rows that a terminal holds: those that have left the screen, oldest first, then those of
/// the screen.
pub uninterp spec fn stored_rows(p: vt100::Parser) -> Seq<Seq<CellState>>;

/// The height and width of its screen.
pub uninterp spec fn screen_size(p: vt100::Parser) -> (u16, u16);

/// By how many rows the view is scrolled back.
pub uninterp spec fn scroll_offset(p: vt100::Parser) -> nat;

/// The row and column of its cursor.
pub uninterp spec fn cursor_at(p: vt100::Parser) -> (u16, u16);

/// Whether its cursor is hidden.
pub uninterp spec fn cursor_hidden(p: vt100::Parser) -> bool;

/// The model of a terminal.
#[verifier::ext_equal]
pub struct ScreenState {
    pub rows: Seq<Seq<CellState>>,
    pub size: (u16, u16),
    pub offset: nat,
    pub cursor: (u16, u16),
    pub hidden: bool,
}

/// The model of this terminal.
pub open spec fn screen_state(p: vt100::Parser) -> ScreenState {
    ScreenState {
        rows: stored_rows(p),
        size: screen_size(p),
        offset: scroll_offset(p),
        cursor: cursor_at(p),
        hidden: cursor_hidden(p),
    }
}

impl ScreenState {
    /// How many rows have left the screen and can be scrolled back to.
    pub open spec fn history(self) -> int {
        self.rows.len() - self.size.0
    }

    /// The terminal scrolled back by `n` rows, or by all there are.
    pub open spec fn scrolled_to(self, n: nat) -> ScreenState {
        ScreenState {
            offset: if n <= self.history() {
                n
            } else {
                self.history() as nat
            },
            ..self
        }
    }

    /// The cell in view at this place, if there is one.
    pub open spec fn cell(self, row: nat, col: nat) -> Option<CellState> {
        let cells = self.rows[self.history() - self.offset + row];
        if row < self.size.0 && col < cells.len() {
            Some(cells[col as int])
        } else {
            None
        }
    }
}

/// `vt100::Screen::size`: the height and width of the screen.
#[verifier::external_body]
pub(crate) fn size(p: &vt100::Parser) -> (r: (u16, u16))
    ensures
        r == screen_size(*p),
{
    p.screen().size()
}

/// `vt100::Screen::scrollback`: by how many rows the view is scrolled back.
#[verifier::external_body]
pub(crate) fn scrollback(p: &vt100::Parser) -> (r: usize)
    ensures
        r == scroll_offset(*p),
{
    p.screen().scrollback()
}

/// `vt100::Parser::set_scrollback`: scrolls the view back by `rows` rows, or by all rows that
/// have left the screen where those are fewer, and changes nothing else.
#[verifier::external_body]
pub(crate) fn set_scrollback(p: &mut vt100::Parser, rows: usize)
    ensures
        scroll_offset(*final(p)) == screen_state(*old(p)).scrolled_to(rows as nat).offset,
        stored_rows(*final(p)) == stored_rows(*old(p)),
        screen_size(*final(p)) == screen_size(*old(p)),
        cursor_at(*final(p)) == cursor_at(*old(p)),
        cursor_hidden(*final(p)) == cursor_hidden(*old(p)),
{
    p.set_scrollback(rows)
}

/// `vt100::Screen::cursor_position`: the row and column of the cursor.
#[verifier::external_body]
pub(crate) fn cursor_position(p: &vt100::Parser) -> (r: (u16, u16))
    ensures
        r == cursor_at(*p),
{
    p.screen().cursor_position()
}

/// `vt100::Screen::hide_cursor`: whether the cursor is hidden.
#[verifier::external_body]
pub(crate) fn hide_cursor(p: &vt100::Parser) -> (r: bool)
    ensures
        r == cursor_hidden(*p),
{
    p.screen().hide_cursor()
}

/// `vt100::Screen::cell`, its cell taken apart by the getters of `vt100::Cell`: the cell in view
/// at this place, if there is one. It subtracts the scrolled rows from the screen's height, and
/// panics where they are more.
#[verifier::external_body]
pub(crate) fn cell(p: &vt100::Parser, row: u16, col: u16) -> (r: Option<Cell>)
    requires
        scroll_offset(*p) <= screen_size(*p).0,
    ensures
        cell_state(r) == screen_state(*p).cell(row as nat, col as nat),
{
    let plain = |c: vt100::Color| match c {
        vt100::Color::Default => CellColor::Usual,
        vt100::Color::Idx(i) => CellColor::Idx(i),
        vt100::Color::Rgb(r, g, b) => CellColor::Rgb(r, g, b),
    };
    p.screen().cell(row, col).map(|c| Cell {
        contents: c.contents(), fg: plain(c.fgcolor()), bg: plain(c.bgcolor()),
        bold: c.bold(), italic: c.italic(), underline: c.underline(), inverse: c.inverse(),
        wide: c.is_wide(), continuation: c.is_wide_continuation(),
    })
}

} // verus!
