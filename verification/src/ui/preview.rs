use vstd::prelude::*;

use crate::chars::{chars_of, slice_of, string_of};
use crate::svg::theme::{hex_digit_value, hex_value, is_hex};
use crate::term::frame::{Color, Frame, FrameView, Row, Run, RunView, Style};

verus! {

broadcast use vstd::string::group_string_axioms;

/// A run of `text` at `col` in color `fg`, bold or not, as wide as its text.
pub open spec fn sample_run(col: u16, text: Seq<char>, fg: Color, bold: bool) -> RunView {
    RunView {
        col,
        width: (text.len() % 65536) as u16,
        text,
        style: Style { fg, bg: Color::Default, bold, italic: false, underline: false },
    }
}

/// The frame the wizard previews themes with: a shell prompt, the tool at
/// work, and a prompt waiting for the next command.
pub open spec fn sample_frame() -> FrameView {
    FrameView {
        rows: seq![
            seq![
                sample_run(0, "$"@, Color::Idx(2), true),
                sample_run(2, "ttysvg build examples/banner.tape"@, Color::Default, false),
            ],
            seq![
                sample_run(0, "ttysvg:"@, Color::Idx(4), true),
                sample_run(8, "building examples/banner.tape"@, Color::Idx(8), false),
                sample_run(38, "(14 ops)"@, Color::Idx(5), false),
            ],
            seq![
                sample_run(0, "ttysvg:"@, Color::Idx(4), true),
                sample_run(8, "wrote"@, Color::Idx(8), false),
                sample_run(14, "banner.svg"@, Color::Idx(6), true),
                sample_run(25, "61 frames"@, Color::Idx(3), false),
                sample_run(35, "7.2s"@, Color::Idx(3), false),
                sample_run(40, "74.1 KB"@, Color::Idx(3), false),
            ],
            Seq::empty(),
            seq![sample_run(0, "$"@, Color::Idx(2), true), sample_run(2, "\u{2588}"@, Color::Default, false)],
        ],
        cursor: None,
    }
}

fn run(col: u16, text: &str, fg: Color, bold: bool) -> (r: Run)
    ensures
        r@ == sample_run(col, text@, fg, bold),
{
    let n = chars_of(text).len();
    Run {
        col,
        width: (n % 65536) as u16,
        text: text.to_owned(),
        style: Style { fg, bg: Color::Default, bold, italic: false, underline: false },
    }
}

fn row2(a: Run, b: Run) -> (r: Row)
    ensures
        r@ == seq![a@, b@],
{
    let mut v: Vec<Run> = Vec::new();
    v.push(a);
    v.push(b);
    let r = Row { runs: v };
    assert(r@ =~= seq![a@, b@]);
    r
}

/// The frame the wizard previews themes with, as [`sample_frame`] says.
pub fn sample() -> (f: Frame)
    ensures
        f@ == sample_frame(),
{
    let dim = Color::Idx(8);
    let green = Color::Idx(2);
    let blue = Color::Idx(4);
    let cyan = Color::Idx(6);
    let yellow = Color::Idx(3);
    let magenta = Color::Idx(5);
    let first = row2(run(0, "$", green, true), run(2, "ttysvg build examples/banner.tape", Color::Default, false));
    let mut second: Vec<Run> = Vec::new();
    second.push(run(0, "ttysvg:", blue, true));
    second.push(run(8, "building examples/banner.tape", dim, false));
    second.push(run(38, "(14 ops)", magenta, false));
    let mut third: Vec<Run> = Vec::new();
    third.push(run(0, "ttysvg:", blue, true));
    third.push(run(8, "wrote", dim, false));
    third.push(run(14, "banner.svg", cyan, true));
    third.push(run(25, "61 frames", yellow, false));
    third.push(run(35, "7.2s", yellow, false));
    third.push(run(40, "74.1 KB", yellow, false));
    let last = row2(run(0, "$", green, true), run(2, "\u{2588}", Color::Default, false));
    let mut rows: Vec<Row> = Vec::new();
    rows.push(first);
    rows.push(Row { runs: second });
    rows.push(Row { runs: third });
    rows.push(Row { runs: Vec::new() });
    rows.push(last);
    let f = Frame { rows, cursor: None };
    assert(f@.rows[1] =~= sample_frame().rows[1]);
    assert(f@.rows[2] =~= sample_frame().rows[2]);
    assert(f@.rows[3] =~= sample_frame().rows[3]);
    assert(f@.rows =~= sample_frame().rows);
    f
}

/// A piece of a previewed line: blank cells, or text in a style.
#[derive(Clone, Debug, PartialEq, Eq)]
pub enum Piece {
    Gap(String),
    Text(String, Style),
}

pub enum PieceView {
    Gap(Seq<char>),
    Text(Seq<char>, Style),
}

impl View for Piece {
    type V = PieceView;

    open spec fn view(&self) -> PieceView {
        match self {
            Piece::Gap(t) => PieceView::Gap(t@),
            Piece::Text(t, s) => PieceView::Text(t@, *s),
        }
    }
}

pub open spec fn pieces_view(v: Seq<Piece>) -> Seq<PieceView> {
    v.map_values(|p: Piece| p@)
}

/// `n` spaces.
pub open spec fn spaces(n: nat) -> Seq<char> {
    Seq::new(n, |_i: int| ' ')
}

/// The rest of a row in a box `cols` cells wide, from run `i` on with the
/// cells before `at` drawn: a run that starts past the edge ends the row, a
/// gap before a run is filled with spaces, a run's text is cut at the edge
/// and a run with nothing left to show adds nothing; the row is filled with
/// spaces to the edge.
pub open spec fn pieces_from(runs: Seq<RunView>, i: int, at: nat, cols: nat) -> Seq<PieceView>
    decreases runs.len() - i,
{
    let fill = if at < cols {
        seq![PieceView::Gap(spaces((cols - at) as nat))]
    } else {
        Seq::empty()
    };
    if i < 0 || i >= runs.len() || runs[i].col >= cols {
        fill
    } else {
        let r = runs[i];
        let start = r.col as nat;
        let gap = if start > at {
            seq![PieceView::Gap(spaces((start - at) as nat))]
        } else {
            Seq::empty()
        };
        let from = if start > at {
            start
        } else {
            at
        };
        let room = if from <= cols {
            (cols - from) as nat
        } else {
            0
        };
        let shown = if r.text.len() <= room {
            r.text
        } else {
            r.text.take(room as int)
        };
        if shown.len() == 0 {
            gap + pieces_from(runs, i + 1, from, cols)
        } else {
            gap + seq![PieceView::Text(shown, r.style)] + pieces_from(runs, i + 1, from + shown.len(), cols)
        }
    }
}

/// A frame drawn in a box of `cols` by `rows` cells: each of its first rows
/// laid out as [`pieces_from`] says, and blank lines below a short frame.
pub open spec fn layout_of(f: FrameView, cols: nat, rows: nat) -> Seq<Seq<PieceView>> {
    Seq::new(
        rows,
        |r: int|
            if r < f.rows.len() {
                pieces_from(f.rows[r], 0, 0, cols)
            } else {
                seq![PieceView::Gap(spaces(cols))]
            },
    )
}

fn spaces_exec(n: u16) -> (s: String)
    ensures
        s@ == spaces(n as nat),
{
    let mut v: Vec<char> = Vec::new();
    let mut i: u16 = 0;
    while i < n
        invariant
            i <= n,
            v@ == spaces(i as nat),
        decreases n - i,
    {
        v.push(' ');
        i = i + 1;
        assert(v@ =~= spaces(i as nat));
    }
    string_of(v.as_slice())
}

fn row_pieces(runs: &Vec<Run>, cols: u16) -> (out: Vec<Piece>)
    ensures
        pieces_view(out@) == pieces_from(runs@.map_values(|r: Run| r@), 0, 0, cols as nat),
{
    let ghost rv = runs@.map_values(|r: Run| r@);
    let mut out: Vec<Piece> = Vec::new();
    let mut at: u16 = 0;
    let mut i: usize = 0;
    assert(pieces_view(out@) =~= Seq::<PieceView>::empty());
    while i < runs.len() && runs[i].col < cols
        invariant
            i <= runs.len(),
            at <= cols,
            rv == runs@.map_values(|r: Run| r@),
            pieces_view(out@) + pieces_from(rv, i as int, at as nat, cols as nat) == pieces_from(
                rv,
                0,
                0,
                cols as nat,
            ),
        decreases runs.len() - i,
    {
        let r = &runs[i];
        let ghost before = pieces_view(out@);
        let ghost rest = pieces_from(rv, i as int, at as nat, cols as nat);
        assert(rv[i as int] == r@);
        let start = r.col;
        let ghost gap = if start > at {
            seq![PieceView::Gap(spaces((start - at) as nat))]
        } else {
            Seq::<PieceView>::empty()
        };
        if start > at {
            let g = Piece::Gap(spaces_exec(start - at));
            out.push(g);
            at = start;
        }
        assert(pieces_view(out@) =~= before + gap);
        let room = cols - at;
        let chars = chars_of(r.text.as_str());
        let take: usize = if chars.len() <= room as usize {
            chars.len()
        } else {
            room as usize
        };
        let ghost shown = if r@.text.len() <= room {
            r@.text
        } else {
            r@.text.take(room as int)
        };
        let piece_text = slice_of(&chars, 0, take);
        assert(piece_text@ =~= shown);
        let ghost mid = pieces_view(out@);
        if take > 0 {
            let t = Piece::Text(string_of(piece_text.as_slice()), r.style);
            out.push(t);
            assert(pieces_view(out@) =~= mid.push(PieceView::Text(shown, r@.style)));
            at = at + take as u16;
        }
        assert(rest == gap + (if shown.len() == 0 {
            Seq::<PieceView>::empty()
        } else {
            seq![PieceView::Text(shown, r@.style)]
        }) + pieces_from(rv, i + 1, at as nat, cols as nat));
        i = i + 1;
        assert(pieces_view(out@) + pieces_from(rv, i as int, at as nat, cols as nat) =~= before + rest);
    }
    let ghost before = pieces_view(out@);
    if at < cols {
        let g = Piece::Gap(spaces_exec(cols - at));
        out.push(g);
    }
    assert(pieces_view(out@) =~= before + pieces_from(rv, i as int, at as nat, cols as nat));
    out
}

/// A frame laid out in a box of `cols` by `rows` cells, as [`layout_of`]
/// says.
pub fn layout(frame: &Frame, cols: u16, rows: u16) -> (out: Vec<Vec<Piece>>)
    ensures
        out@.len() == rows,
        forall|r: int| 0 <= r < rows ==> pieces_view(#[trigger] out@[r]@) == layout_of(frame@, cols as nat, rows as nat)[r],
{
    let mut out: Vec<Vec<Piece>> = Vec::new();
    let mut r: u16 = 0;
    while r < rows
        invariant
            r <= rows,
            out@.len() == r,
            forall|k: int| 0 <= k < r ==> pieces_view(#[trigger] out@[k]@) == layout_of(frame@, cols as nat, rows as nat)[k],
        decreases rows - r,
    {
        if (r as usize) < frame.rows.len() {
            let p = row_pieces(&frame.rows[r as usize].runs, cols);
            assert(frame@.rows[r as int] == frame.rows@[r as int].runs@.map_values(|x: Run| x@));
            out.push(p);
        } else {
            let mut p: Vec<Piece> = Vec::new();
            p.push(Piece::Gap(spaces_exec(cols)));
            assert(pieces_view(p@) =~= seq![PieceView::Gap(spaces(cols as nat))]);
            out.push(p);
        }
        r = r + 1;
    }
    out
}

/// How many cells a piece takes.
pub open spec fn piece_width(p: PieceView) -> nat {
    match p {
        PieceView::Gap(t) => t.len(),
        PieceView::Text(t, _) => t.len(),
    }
}

/// How many cells a line of pieces takes.
pub open spec fn line_width(ps: Seq<PieceView>) -> nat
    decreases ps.len(),
{
    if ps.len() == 0 {
        0
    } else {
        piece_width(ps[0]) + line_width(ps.drop_first())
    }
}

proof fn lemma_line_width_add(a: Seq<PieceView>, b: Seq<PieceView>)
    ensures
        line_width(a + b) == line_width(a) + line_width(b),
    decreases a.len(),
{
    if a.len() == 0 {
        assert(a + b =~= b);
    } else {
        lemma_line_width_add(a.drop_first(), b);
        assert((a + b).drop_first() =~= a.drop_first() + b);
    }
}

proof fn lemma_one_width(p: PieceView)
    ensures
        line_width(seq![p]) == piece_width(p),
{
    assert(seq![p].drop_first() =~= Seq::<PieceView>::empty());
    assert(line_width(Seq::<PieceView>::empty()) == 0);
    assert(seq![p][0] == p);
    assert(line_width(seq![p]) == piece_width(seq![p][0]) + line_width(seq![p].drop_first()));
}

proof fn lemma_pieces_width(runs: Seq<RunView>, i: int, at: nat, cols: nat)
    requires
        at <= cols,
    ensures
        line_width(pieces_from(runs, i, at, cols)) == cols - at,
    decreases runs.len() - i,
{
    let fill = if at < cols {
        seq![PieceView::Gap(spaces((cols - at) as nat))]
    } else {
        Seq::<PieceView>::empty()
    };
    if at < cols {
        lemma_one_width(PieceView::Gap(spaces((cols - at) as nat)));
    }
    if i < 0 || i >= runs.len() || runs[i].col >= cols {
        assert(pieces_from(runs, i, at, cols) == fill);
    } else {
        let r = runs[i];
        let start = r.col as nat;
        let from = if start > at {
            start
        } else {
            at
        };
        let room = (cols - from) as nat;
        let shown = if r.text.len() <= room {
            r.text
        } else {
            r.text.take(room as int)
        };
        let gap = if start > at {
            seq![PieceView::Gap(spaces((start - at) as nat))]
        } else {
            Seq::<PieceView>::empty()
        };
        if start > at {
            lemma_one_width(PieceView::Gap(spaces((start - at) as nat)));
        }
        assert(line_width(gap) == from - at);
        if shown.len() == 0 {
            lemma_pieces_width(runs, i + 1, from, cols);
            lemma_line_width_add(gap, pieces_from(runs, i + 1, from, cols));
        } else {
            let t = seq![PieceView::Text(shown, r.style)];
            lemma_one_width(PieceView::Text(shown, r.style));
            lemma_pieces_width(runs, i + 1, from + shown.len(), cols);
            lemma_line_width_add(gap, t);
            lemma_line_width_add(gap + t, pieces_from(runs, i + 1, from + shown.len(), cols));
        }
    }
}

/// Every line of a preview fills its box: there are as many lines as rows,
/// and each takes exactly as many cells as the box is wide.
pub proof fn law_preview_fills_the_box(f: FrameView, cols: nat, rows: nat)
    ensures
        layout_of(f, cols, rows).len() == rows,
        forall|r: int| 0 <= r < rows ==> line_width(#[trigger] layout_of(f, cols, rows)[r]) == cols,
{
    assert forall|r: int| 0 <= r < rows implies line_width(#[trigger] layout_of(f, cols, rows)[r]) == cols by {
        if r < f.rows.len() {
            lemma_pieces_width(f.rows[r], 0, 0, cols);
        } else {
            lemma_one_width(PieceView::Gap(spaces(cols)));
        }
    }
}

/// The byte two characters give read as a hexadecimal number the way
/// `u8::from_str_radix` reads it: two digits, or a `+` and one digit.
pub open spec fn hex_pair(a: char, b: char) -> Option<u8> {
    if a == '+' && is_hex(b) {
        Some(hex_value(b) as u8)
    } else if is_hex(a) && is_hex(b) {
        Some((hex_value(a) * 16 + hex_value(b)) as u8)
    } else {
        None
    }
}

/// The color a preview paints for `#rrggbb` text: three pairs of
/// characters after the `#`, each read as [`hex_pair`] reads it.
pub open spec fn hex_color_of(v: Seq<char>) -> Option<(u8, u8, u8)> {
    if v.len() == 7 && v[0] == '#' {
        match (hex_pair(v[1], v[2]), hex_pair(v[3], v[4]), hex_pair(v[5], v[6])) {
            (Some(r), Some(g), Some(b)) => Some((r, g, b)),
            _ => None,
        }
    } else {
        None
    }
}

fn read_pair(a: char, b: char) -> (r: Option<u8>)
    ensures
        r == hex_pair(a, b),
{
    let low = match hex_digit_value(b) {
        Some(v) => v,
        None => {
            return None;
        },
    };
    if a == '+' {
        return Some(low);
    }
    match hex_digit_value(a) {
        Some(high) => Some(high * 16 + low),
        None => None,
    }
}

/// The color a preview paints for a palette entry, as [`hex_color_of`] says.
pub fn hex_color(value: &str) -> (r: Option<(u8, u8, u8)>)
    ensures
        r == hex_color_of(value@),
{
    let v = chars_of(value);
    if v.len() != 7 || v[0] != '#' {
        return None;
    }
    let r = read_pair(v[1], v[2]);
    let g = read_pair(v[3], v[4]);
    let b = read_pair(v[5], v[6]);
    match (r, g, b) {
        (Some(r), Some(g), Some(b)) => Some((r, g, b)),
        _ => None,
    }
}

} // verus!
