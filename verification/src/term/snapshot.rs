use vstd::prelude::*;

use crate::chars::{chars_of, push_str, same_chars, trim, trimmed};
use crate::term::frame::{Color, Frame, FrameView, Row, Run, RunView, Style};

verus! {

broadcast use vstd::string::group_string_axioms;

/// One cell of a terminal screen, as the emulator holds it.
#[derive(Clone, Debug)]
pub struct Cell {
    pub contents: String,
    pub fg: Color,
    pub bg: Color,
    pub bold: bool,
    pub italic: bool,
    pub underline: bool,
    pub inverse: bool,
    pub wide: bool,
    pub wide_continuation: bool,
}

pub struct CellView {
    pub contents: Seq<char>,
    pub fg: Color,
    pub bg: Color,
    pub bold: bool,
    pub italic: bool,
    pub underline: bool,
    pub inverse: bool,
    pub wide: bool,
    pub wide_continuation: bool,
}

impl View for Cell {
    type V = CellView;

    open spec fn view(&self) -> CellView {
        CellView {
            contents: self.contents@,
            fg: self.fg,
            bg: self.bg,
            bold: self.bold,
            italic: self.italic,
            underline: self.underline,
            inverse: self.inverse,
            wide: self.wide,
            wide_continuation: self.wide_continuation,
        }
    }
}

/// A terminal screen read out: its cells row by row, a cell left empty where
/// the emulator has none, and the cursor where it is shown.
#[derive(Clone, Debug)]
pub struct Grid {
    pub cells: Vec<Vec<Option<Cell>>>,
    pub cursor: Option<(u16, u16)>,
}

pub open spec fn cell_opt_view(c: Option<Cell>) -> Option<CellView> {
    match c {
        Some(c) => Some(c@),
        None => None,
    }
}

pub open spec fn cell_row_view(row: Seq<Option<Cell>>) -> Seq<Option<CellView>> {
    row.map_values(|c: Option<Cell>| cell_opt_view(c))
}

pub struct GridView {
    pub cells: Seq<Seq<Option<CellView>>>,
    pub cursor: Option<(u16, u16)>,
}

impl View for Grid {
    type V = GridView;

    open spec fn view(&self) -> GridView {
        GridView {
            cells: self.cells@.map_values(|r: Vec<Option<Cell>>| cell_row_view(r@)),
            cursor: self.cursor,
        }
    }
}

/// How a cell is drawn: its colors, swapped where it is shown inverse, and
/// its attributes.
pub open spec fn cell_style(c: CellView) -> Style {
    Style {
        fg: if c.inverse {
            c.bg
        } else {
            c.fg
        },
        bg: if c.inverse {
            c.fg
        } else {
            c.bg
        },
        bold: c.bold,
        italic: c.italic,
        underline: c.underline,
    }
}

/// What a cell shows: its contents, or a space where it has none.
pub open spec fn cell_text(c: CellView) -> Seq<char> {
    if c.contents.len() == 0 {
        seq![' ']
    } else {
        c.contents
    }
}

/// `acc` with cell `c` at column `col` added: onto the last run where that
/// run has the same style and ends just before the cell, as a new run
/// otherwise. A width never passes the largest a run can hold.
pub open spec fn add_cell(acc: Seq<RunView>, c: CellView, col: nat) -> Seq<RunView> {
    let w: nat = if c.wide {
        2
    } else {
        1
    };
    let st = cell_style(c);
    let t = cell_text(c);
    if acc.len() > 0 && acc.last().style == st && acc.last().col + acc.last().width == col {
        acc.update(
            acc.len() - 1,
            RunView {
                text: acc.last().text + t,
                width: if acc.last().width + w <= u16::MAX {
                    (acc.last().width + w) as u16
                } else {
                    u16::MAX
                },
                ..acc.last()
            },
        )
    } else {
        acc.push(RunView { col: col as u16, width: w as u16, text: t, style: st })
    }
}

/// The runs of a row of cells from column `col` on, added to `acc`: a cell
/// the emulator lacks and the right half of a wide character are skipped,
/// and a wide character takes two columns.
pub open spec fn scan(row: Seq<Option<CellView>>, col: nat, acc: Seq<RunView>) -> Seq<RunView>
    decreases row.len() + 1 - col,
{
    if col >= row.len() {
        acc
    } else {
        match row[col as int] {
            None => scan(row, col + 1, acc),
            Some(c) => if c.wide_continuation {
                scan(row, col + 1, acc)
            } else {
                scan(
                    row,
                    col + if c.wide {
                        2nat
                    } else {
                        1nat
                    },
                    add_cell(acc, c, col),
                )
            },
        }
    }
}

/// Whether a run shows anything: a blank run of spaces is dropped.
pub open spec fn visible(r: RunView) -> bool {
    !(r.style.bg is Default && !r.style.underline && trim(r.text).len() == 0)
}

pub open spec fn keep_visible(runs: Seq<RunView>) -> Seq<RunView>
    decreases runs.len(),
{
    if runs.len() == 0 {
        Seq::empty()
    } else {
        let before = keep_visible(runs.drop_last());
        if visible(runs.last()) {
            before.push(runs.last())
        } else {
            before
        }
    }
}

/// Whether a cell is padding: missing, or showing at most a space with no
/// background or underline.
pub open spec fn padding(c: Option<CellView>) -> bool {
    match c {
        None => true,
        Some(c) => (c.contents.len() == 0 || c.contents == seq![' ']) && cell_style(c).bg is Default
            && !c.underline,
    }
}

/// Where the content of a row ends: the padding after its last other cell
/// is not part of it.
pub open spec fn content_end(row: Seq<Option<CellView>>) -> nat
    decreases row.len(),
{
    if row.len() == 0 {
        0
    } else if padding(row.last()) {
        content_end(row.drop_last())
    } else {
        row.len()
    }
}

/// The runs of one row of cells: its content without the trailing padding,
/// gathered into runs, with blank runs dropped.
pub open spec fn row_runs(row: Seq<Option<CellView>>) -> Seq<RunView> {
    keep_visible(scan(row.take(content_end(row) as int), 0, Seq::empty()))
}

/// The frame a screen shows, as [`snapshot_grid`] makes it.
pub open spec fn frame_of(g: GridView) -> FrameView {
    FrameView {
        rows: g.cells.map_values(|row: Seq<Option<CellView>>| row_runs(row)),
        cursor: g.cursor,
    }
}

fn style_of(c: &Cell) -> (s: Style)
    ensures
        s == cell_style(c@),
{
    let s = Style {
        fg: if c.inverse {
            c.bg
        } else {
            c.fg
        },
        bg: if c.inverse {
            c.fg
        } else {
            c.bg
        },
        bold: c.bold,
        italic: c.italic,
        underline: c.underline,
    };
    assert(s.fg == cell_style(c@).fg);
    assert(s.bg == cell_style(c@).bg);
    s
}

fn text_of(c: &Cell) -> (t: String)
    ensures
        t@ == cell_text(c@),
{
    if c.contents.as_str().is_empty() {
        proof {
            reveal_strlit(" ");
        }
        assert(" "@ =~= seq![' ']);
        " ".to_owned()
    } else {
        c.contents.clone()
    }
}

/// The runs of one row of cells, before blank runs are dropped.
fn scan_row(row: &Vec<Option<Cell>>, n: usize) -> (runs: Vec<Run>)
    requires
        n <= row@.len() <= 65535,
    ensures
        runs@.map_values(|r: Run| r@) == scan(cell_row_view(row@).take(n as int), 0, Seq::empty()),
{
    let ghost v = cell_row_view(row@).take(n as int);
    let mut runs: Vec<Run> = Vec::new();
    let mut col: usize = 0;
    assert(runs@.map_values(|r: Run| r@) =~= Seq::<RunView>::empty());
    while col < n
        invariant
            n <= row@.len(),
            row@.len() <= 65535,
            v == cell_row_view(row@).take(n as int),
            col <= n + 1,
            scan(v, col as nat, runs@.map_values(|r: Run| r@)) == scan(v, 0, Seq::empty()),
        decreases n + 1 - col,
    {
        let ghost acc = runs@.map_values(|r: Run| r@);
        match &row[col] {
            None => {
                col = col + 1;
            },
            Some(c) => {
                if c.wide_continuation {
                    col = col + 1;
                } else {
                    let w: usize = if c.wide {
                        2
                    } else {
                        1
                    };
                    let st = style_of(c);
                    let t = text_of(c);
                    let k = runs.len();
                    let merge = k > 0 && runs[k - 1].style == st && runs[k - 1].col as usize
                        + runs[k - 1].width as usize == col;
                    if merge {
                        let mut last = runs.pop().unwrap();
                        push_str(&mut last.text, t.as_str());
                        last.width = last.width.saturating_add(w as u16);
                        runs.push(last);
                        assert(runs@.map_values(|r: Run| r@) =~= add_cell(acc, c@, col as nat));
                    } else {
                        runs.push(Run { col: col as u16, width: w as u16, text: t, style: st });
                        assert(runs@.map_values(|r: Run| r@) =~= add_cell(acc, c@, col as nat));
                    }
                    col = col + w;
                }
            },
        }
    }
    assert(scan(v, col as nat, runs@.map_values(|r: Run| r@)) == runs@.map_values(|r: Run| r@));
    runs
}

fn is_padding(c: &Option<Cell>) -> (b: bool)
    ensures
        b == padding(cell_opt_view(*c)),
{
    match c {
        None => true,
        Some(c) => {
            let t = chars_of(c.contents.as_str());
            proof {
                reveal_strlit(" ");
            }
            assert(" "@ =~= seq![' ']);
            let short = t.len() == 0 || same_chars(t.as_slice(), " ");
            assert(short == (c@.contents.len() == 0 || c@.contents == seq![' ']));
            let st = style_of(c);
            short && st.bg.is_default() && !c.underline
        },
    }
}

/// Where the content of a row ends, as [`content_end`] says.
fn content_end_of(row: &Vec<Option<Cell>>) -> (n: usize)
    ensures
        n == content_end(cell_row_view(row@)),
        n <= row@.len(),
{
    let ghost v = cell_row_view(row@);
    let mut n = row.len();
    assert(v.take(n as int) == v);
    while n > 0 && is_padding(&row[n - 1])
        invariant
            n <= row@.len(),
            v == cell_row_view(row@),
            content_end(v.take(n as int)) == content_end(v),
        decreases n,
    {
        assert(v.take(n as int).last() == cell_opt_view(row@[n - 1]));
        assert(v.take(n as int).drop_last() == v.take(n - 1));
        n = n - 1;
    }
    proof {
        if n > 0 {
            assert(v.take(n as int).last() == cell_opt_view(row@[n - 1]));
        }
        assert(v.take(row@.len() as int) == v);
    }
    n
}

fn blank_only(t: &str) -> (b: bool)
    ensures
        b == (trim(t@).len() == 0),
{
    let v = chars_of(t);
    trimmed(v.as_slice()).len() == 0
}

/// The runs of one row of cells, as [`row_runs`] says.
pub fn row_of(row: &Vec<Option<Cell>>) -> (r: Row)
    requires
        row@.len() <= 65535,
    ensures
        r@ == row_runs(cell_row_view(row@)),
{
    let end = content_end_of(row);
    let all = scan_row(row, end);
    let ghost s = all@.map_values(|r: Run| r@);
    let mut kept: Vec<Run> = Vec::new();
    let mut i: usize = 0;
    while i < all.len()
        invariant
            i <= all.len(),
            s == all@.map_values(|r: Run| r@),
            kept@.map_values(|r: Run| r@) == keep_visible(s.take(i as int)),
        decreases all.len() - i,
    {
        let run = &all[i];
        let show = !(run.style.bg.is_default() && !run.style.underline && blank_only(
            run.text.as_str(),
        ));
        assert(s.take(i + 1).drop_last() == s.take(i as int));
        if show {
            let copy = run.copy();
            kept.push(copy);
            assert(kept@.map_values(|r: Run| r@) == kept@.drop_last().map_values(|r: Run| r@).push(
                copy@,
            ));
        }
        i = i + 1;
    }
    assert(s.take(all.len() as int) == s);
    Row { runs: kept }
}

/// The frame a read-out screen shows, as [`frame_of`] says: each row's cells
/// gathered into runs of one style, blank runs dropped, and the cursor where
/// it is shown.
pub fn snapshot_grid(grid: &Grid) -> (f: Frame)
    requires
        forall|r: int| 0 <= r < grid@.cells.len() ==> (#[trigger] grid@.cells[r]).len() <= 65535,
    ensures
        f@ == frame_of(grid@),
{
    let ghost g = grid@;
    let mut rows: Vec<Row> = Vec::new();
    let mut r: usize = 0;
    while r < grid.cells.len()
        invariant
            r <= grid.cells.len(),
            g == grid@,
            forall|k: int| 0 <= k < g.cells.len() ==> (#[trigger] g.cells[k]).len() <= 65535,
            rows@.map_values(|x: Row| x@) == g.cells.take(r as int).map_values(
                |row: Seq<Option<CellView>>| row_runs(row),
            ),
        decreases grid.cells.len() - r,
    {
        assert(g.cells[r as int] == cell_row_view(grid.cells@[r as int]@));
        let row = row_of(&grid.cells[r]);
        rows.push(row);
        assert(g.cells.take(r + 1) == g.cells.take(r as int).push(g.cells[r as int]));
        assert(g.cells.take(r + 1).map_values(|row: Seq<Option<CellView>>| row_runs(row))
            =~= g.cells.take(r as int).map_values(|row: Seq<Option<CellView>>| row_runs(row)).push(
            row_runs(g.cells[r as int]),
        ));
        assert(rows@.map_values(|x: Row| x@) == rows@.drop_last().map_values(|x: Row| x@).push(row@));
        r = r + 1;
    }
    assert(g.cells.take(grid.cells.len() as int) == g.cells);
    Frame { rows, cursor: grid.cursor }
}

/// Whether run `r` of a row is drawn in the attributes of the cell it starts
/// at: bold, italic and underlined as that cell is, in its colors, the text
/// and background colors trading places where the cell is shown inverse.
pub open spec fn drawn_as_cell(row: Seq<Option<CellView>>, r: RunView) -> bool {
    &&& r.col < row.len()
    &&& row[r.col as int] matches Some(c) && r.style.bold == c.bold && r.style.italic == c.italic
        && r.style.underline == c.underline && (c.inverse ==> r.style.fg == c.bg && r.style.bg
        == c.fg) && (!c.inverse ==> r.style.fg == c.fg && r.style.bg == c.bg)
}

proof fn lemma_scan_drawn(row: Seq<Option<CellView>>, col: nat, acc: Seq<RunView>)
    requires
        row.len() <= 65536,
        forall|k: int| 0 <= k < acc.len() ==> drawn_as_cell(row, #[trigger] acc[k]),
    ensures
        forall|k: int|
            0 <= k < scan(row, col, acc).len() ==> drawn_as_cell(row, #[trigger] scan(row, col, acc)[k]),
    decreases row.len() + 1 - col,
{
    if col < row.len() {
        match row[col as int] {
            None => {
                assert(scan(row, col, acc) == scan(row, col + 1, acc));
                lemma_scan_drawn(row, col + 1, acc);
            },
            Some(c) => if c.wide_continuation {
                assert(scan(row, col, acc) == scan(row, col + 1, acc));
                lemma_scan_drawn(row, col + 1, acc);
            } else {
                let acc2 = add_cell(acc, c, col);
                assert forall|k: int| 0 <= k < acc2.len() implies drawn_as_cell(row, #[trigger] acc2[k]) by {
                    let st = cell_style(c);
                    if acc.len() > 0 && acc.last().style == st && acc.last().col + acc.last().width == col {
                        if k < acc.len() - 1 {
                            assert(acc2[k] == acc[k]);
                        } else {
                            assert(drawn_as_cell(row, acc[acc.len() - 1]));
                            assert(acc2[k].col == acc.last().col && acc2[k].style == acc.last().style);
                        }
                    } else {
                        if k < acc.len() {
                            assert(acc2[k] == acc[k]);
                        } else {
                            assert(acc2[k].col == col);
                        }
                    }
                }
                let next = col + if c.wide {
                    2nat
                } else {
                    1nat
                };
                assert(scan(row, col, acc) == scan(row, next, acc2));
                lemma_scan_drawn(row, next, acc2);
            },
        }
    }
}

proof fn lemma_keep_drawn(row: Seq<Option<CellView>>, runs: Seq<RunView>)
    requires
        forall|k: int| 0 <= k < runs.len() ==> drawn_as_cell(row, #[trigger] runs[k]),
    ensures
        forall|k: int|
            0 <= k < keep_visible(runs).len() ==> drawn_as_cell(row, #[trigger] keep_visible(runs)[k]),
    decreases runs.len(),
{
    if runs.len() > 0 {
        assert forall|k: int| 0 <= k < runs.drop_last().len() implies drawn_as_cell(
            row,
            #[trigger] runs.drop_last()[k],
        ) by {
            assert(runs.drop_last()[k] == runs[k]);
        }
        lemma_keep_drawn(row, runs.drop_last());
        assert(drawn_as_cell(row, runs[runs.len() - 1]));
        let before = keep_visible(runs.drop_last());
        if visible(runs.last()) {
            let kv = before.push(runs.last());
            assert(keep_visible(runs) == kv);
            assert forall|k: int| 0 <= k < kv.len() implies drawn_as_cell(row, #[trigger] kv[k]) by {
                if k < before.len() {
                    assert(kv[k] == before[k]);
                }
            }
        } else {
            assert(keep_visible(runs) == before);
        }
    }
}

/// Every run of a snapshot is drawn in the attributes of the cell it starts
/// at: bold where that cell is bold, italic where it is italic, underlined
/// where it is underlined, and not otherwise.
pub proof fn law_runs_keep_attributes(g: GridView)
    requires
        forall|r: int| 0 <= r < g.cells.len() ==> (#[trigger] g.cells[r]).len() <= 65536,
    ensures
        forall|r: int, k: int|
            0 <= r < g.cells.len() && 0 <= k < frame_of(g).rows[r].len() ==> drawn_as_cell(
                g.cells[r],
                #[trigger] frame_of(g).rows[r][k],
            ),
{
    assert forall|r: int, k: int|
        0 <= r < g.cells.len() && 0 <= k < frame_of(g).rows[r].len() implies drawn_as_cell(
        g.cells[r],
        #[trigger] frame_of(g).rows[r][k],
    ) by {
        let row = g.cells[r];
        let t = row.take(content_end(row) as int);
        lemma_content_end_len(row);
        lemma_scan_drawn(t, 0, Seq::empty());
        lemma_keep_drawn(t, scan(t, 0, Seq::empty()));
        let run = frame_of(g).rows[r][k];
        assert(frame_of(g).rows[r] == row_runs(row));
        assert(drawn_as_cell(t, run));
        assert(t[run.col as int] == row[run.col as int]);
    }
}

proof fn lemma_content_end_len(row: Seq<Option<CellView>>)
    ensures
        content_end(row) <= row.len(),
    decreases row.len(),
{
    if row.len() > 0 {
        lemma_content_end_len(row.drop_last());
    }
}

} // verus!
