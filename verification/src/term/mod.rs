pub mod frame;
pub mod snapshot;

pub use frame::{Color, Frame, Row, Run, Style};

use vstd::prelude::*;

use crate::term::frame::FrameView;
use crate::term::snapshot::{frame_of, snapshot_grid, Cell, CellView, Grid, GridView};

verus! {

/// A screen of the `vt100` terminal emulator.
#[verifier::external_type_specification]
#[verifier::external_body]
pub struct ExScreen(vt100::Screen);

/// The rows and columns of a screen.
pub uninterp spec fn screen_size(screen: vt100::Screen) -> (u16, u16);

/// What a screen holds at a row and column, where it holds a cell.
pub uninterp spec fn screen_cell(screen: vt100::Screen, row: u16, col: u16) -> Option<CellView>;

/// Whether a screen hides its cursor.
pub uninterp spec fn screen_hides_cursor(screen: vt100::Screen) -> bool;

/// The row and column of a screen's cursor.
pub uninterp spec fn screen_cursor(screen: vt100::Screen) -> (u16, u16);

/// The size of a screen, from `vt100::Screen::size`.
///
/// Trusted: the size is the emulator's and is only named here.
#[verifier::external_body]
fn size_of(screen: &vt100::Screen) -> (r: (u16, u16))
    ensures
        r == screen_size(*screen),
{
    screen.size()
}

/// One cell of a screen, from `vt100::Screen::cell`, read out through the
/// cell's accessors.
///
/// Trusted: the cell is the emulator's and is only named here.
#[verifier::external_body]
fn cell_at(screen: &vt100::Screen, row: u16, col: u16) -> (c: Option<Cell>)
    ensures
        match c {
            Some(x) => screen_cell(*screen, row, col) == Some(x@),
            None => screen_cell(*screen, row, col) is None,
        },
{
    let conv = |c: vt100::Color| match c {
        vt100::Color::Default => Color::Default,
        vt100::Color::Idx(i) => Color::Idx(i),
        vt100::Color::Rgb(r, g, b) => Color::Rgb(r, g, b),
    };
    screen.cell(row, col).map(|x| Cell {
        contents: x.contents(), fg: conv(x.fgcolor()), bg: conv(x.bgcolor()), bold: x.bold(),
        italic: x.italic(), underline: x.underline(), inverse: x.inverse(), wide: x.is_wide(),
        wide_continuation: x.is_wide_continuation(),
    })
}

/// Whether a screen hides its cursor, from `vt100::Screen::hide_cursor`.
///
/// Trusted: the flag is the emulator's and is only named here.
#[verifier::external_body]
fn hides_cursor(screen: &vt100::Screen) -> (b: bool)
    ensures
        b == screen_hides_cursor(*screen),
{
    screen.hide_cursor()
}

/// Where a screen's cursor is, from `vt100::Screen::cursor_position`.
///
/// Trusted: the position is the emulator's and is only named here.
#[verifier::external_body]
fn cursor_at(screen: &vt100::Screen) -> (p: (u16, u16))
    ensures
        p == screen_cursor(*screen),
{
    screen.cursor_position()
}

/// A screen read out: every cell of every row, and the cursor where the
/// screen shows it within its bounds.
pub open spec fn grid_of(screen: vt100::Screen) -> GridView {
    let (rows, cols) = screen_size(screen);
    let (cr, cc) = screen_cursor(screen);
    GridView {
        cells: Seq::new(
            rows as nat,
            |r: int| Seq::new(cols as nat, |c: int| screen_cell(screen, r as u16, c as u16)),
        ),
        cursor: if screen_hides_cursor(screen) || cr >= rows || cc >= cols {
            None
        } else {
            Some((cr, cc))
        },
    }
}

fn read_row(screen: &vt100::Screen, r: u16, cols: u16) -> (v: Vec<Option<Cell>>)
    ensures
        crate::term::snapshot::cell_row_view(v@) == Seq::new(
            cols as nat,
            |c: int| screen_cell(*screen, r, c as u16),
        ),
{
    let mut v: Vec<Option<Cell>> = Vec::new();
    let mut c: u16 = 0;
    while c < cols
        invariant
            c <= cols,
            crate::term::snapshot::cell_row_view(v@) == Seq::new(
                c as nat,
                |k: int| screen_cell(*screen, r, k as u16),
            ),
        decreases cols - c,
    {
        let cell = cell_at(screen, r, c);
        let ghost gc = match &cell {
            Some(x) => Some(x@),
            None => None,
        };
        assert(gc == screen_cell(*screen, r, c));
        let ghost before = crate::term::snapshot::cell_row_view(v@);
        v.push(cell);
        assert(crate::term::snapshot::cell_row_view(v@) =~= before.push(gc));
        assert(crate::term::snapshot::cell_row_view(v@) =~= Seq::new(
            (c + 1) as nat,
            |k: int| screen_cell(*screen, r, k as u16),
        ));
        c = c + 1;
    }
    v
}

/// The frame a screen shows, as [`frame_of`] says of it read out: its
/// cells gathered row by row into runs of one style, blank runs dropped,
/// and the cursor where it is shown.
pub fn snapshot(screen: &vt100::Screen) -> (f: Frame)
    ensures
        f@ == frame_of(grid_of(*screen)),
{
    let (rows, cols) = size_of(screen);
    let ghost want = grid_of(*screen);
    let mut cells: Vec<Vec<Option<Cell>>> = Vec::new();
    let mut r: u16 = 0;
    while r < rows
        invariant
            r <= rows,
            (rows, cols) == screen_size(*screen),
            want == grid_of(*screen),
            cells@.len() == r,
            forall|k: int| 0 <= k < r ==> crate::term::snapshot::cell_row_view((#[trigger] cells@[k])@)
                == want.cells[k],
        decreases rows - r,
    {
        let row = read_row(screen, r, cols);
        cells.push(row);
        r = r + 1;
    }
    let hidden = hides_cursor(screen);
    let (cr, cc) = cursor_at(screen);
    let cursor = if hidden || cr >= rows || cc >= cols {
        None
    } else {
        Some((cr, cc))
    };
    let grid = Grid { cells, cursor };
    assert(grid@.cells =~= want.cells);
    snapshot_grid(&grid)
}

} // verus!
