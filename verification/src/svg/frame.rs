use vstd::prelude::*;

use crate::chars::{push_char, push_str, push_wide_uint, uint_text};
use crate::number::{decimals_text, pow10, push_decimals, round_div};
use crate::svg::text::{escape_text, fixed_text, push_escaped, push_fixed, round_div_exec};
use crate::svg::theme::{paint, paint_text};
use crate::svg::{fine, lemma_cell_times, RenderOpts, RenderOptsView};
use crate::term::frame::{Color, Frame, FrameView, Row, Run, RunView, Style};

verus! {

broadcast use vstd::string::group_string_axioms;

/// A length in hundred-millionths of a pixel written to the hundredth of a
/// pixel, as SVG lengths are.
pub open spec fn len_text(f: int) -> Seq<char> {
    fixed_text(round_div(f, 1_000_000), 2)
}

/// The bound on lengths that drawing keeps to.
pub open spec fn in_range(f: int) -> bool {
    -80_000_000_000_000_000_000_000_000_000_000_000_000 <= f
        <= 80_000_000_000_000_000_000_000_000_000_000_000_000
}

/// Appends a length, as [`len_text`] says.
pub fn push_len(s: &mut String, f: i128)
    requires
        in_range(f as int),
    ensures
        final(s)@ == old(s)@ + len_text(f as int),
{
    let r = round_div_exec(f, 1_000_000);
    push_fixed(s, r, 2);
}

/// `x` split at hundred-millionths: `x == q * 10^8 + r` with `0 <= r < 10^8`.
fn split_e8(x: i128) -> (qr: (i128, i128))
    ensures
        x == qr.0 * 100_000_000 + qr.1,
        0 <= qr.1 < 100_000_000,
        x >= 0 ==> 0 <= qr.0 <= x / 100_000_000,
        x < 0 ==> x / 100_000_000 - 1 <= qr.0 < 0,
{
    if x >= 0 {
        (x / 100_000_000, x % 100_000_000)
    } else {
        let y = -(x + 1);
        let q = y / 100_000_000;
        let r = y % 100_000_000;
        assert(x / 100_000_000 - 1 <= -q - 1) by (nonlinear_arith)
            requires
                x < 0,
                y == -(x + 1),
                q == y / 100_000_000,
        ;
        (-q - 1, 100_000_000 - 1 - r)
    }
}

/// Rounding a length split at hundred-millionths to hundredths of a pixel.
proof fn lemma_round_split(h: int, l: int)
    requires
        h >= 0,
        0 <= l <= 100_000_000,
    ensures
        (h * 100_000_000 + l + 500_000) / 1_000_000 == h * 100 + (l + 500_000) / 1_000_000,
        0 <= (l + 500_000) / 1_000_000 <= 100,
        (h * 100 + (l + 500_000) / 1_000_000) / 100 == h + ((l + 500_000) / 1_000_000) / 100,
        (h * 100 + (l + 500_000) / 1_000_000) % 100 == ((l + 500_000) / 1_000_000) % 100,
{
    let t = (l + 500_000) / 1_000_000;
    let u = (l + 500_000) % 1_000_000;
    vstd::arithmetic::div_mod::lemma_fundamental_div_mod(l + 500_000, 1_000_000);
    assert(h * 100_000_000 + l + 500_000 == (h * 100 + t) * 1_000_000 + u) by (nonlinear_arith)
        requires
            l + 500_000 == 1_000_000 * t + u,
    ;
    vstd::arithmetic::div_mod::lemma_fundamental_div_mod_converse(
        h * 100_000_000 + l + 500_000,
        1_000_000,
        h * 100 + t,
        u,
    );
    let t1 = t / 100;
    let t2 = t % 100;
    vstd::arithmetic::div_mod::lemma_fundamental_div_mod(t, 100);
    assert(h * 100 + t == (h + t1) * 100 + t2) by (nonlinear_arith)
        requires
            t == 100 * t1 + t2,
    ;
    vstd::arithmetic::div_mod::lemma_fundamental_div_mod_converse(h * 100 + t, 100, h + t1, t2);
}

/// Appends the length `k * f + b`, as [`len_text`] says, for any `k` and
/// `b`, with no product larger than 128 bits ever computed.
pub fn push_len_at(s: &mut String, k: u64, f: i128, b: i128)
    requires
        -100_000_000_000_000_000_000_000_000 <= f <= 100_000_000_000_000_000_000_000_000,
    ensures
        final(s)@ == old(s)@ + len_text(k * f + b),
{
    let (fq, fr) = split_e8(f);
    let (bq, br) = split_e8(b);
    proof {
        assert(-1_000_000_000_000_000_001 <= fq <= 1_000_000_000_000_000_000);
        assert(k * fr <= 0xffff_ffff_ffff_ffff * 100_000_000) by (nonlinear_arith)
            requires
                0 <= k <= 0xffff_ffff_ffff_ffff,
                0 <= fr < 100_000_000,
        ;
        assert(0 <= k * fr) by (nonlinear_arith)
            requires
                0 <= k,
                0 <= fr,
        ;
        assert(-0xffff_ffff_ffff_ffff * 1_000_000_000_000_000_001 <= k * fq
            <= 0xffff_ffff_ffff_ffff * 1_000_000_000_000_000_000) by (nonlinear_arith)
            requires
                0 <= k <= 0xffff_ffff_ffff_ffff,
                -1_000_000_000_000_000_001 <= fq <= 1_000_000_000_000_000_000,
        ;
    }
    let c: i128 = k as i128 * fr + br;
    let (cq, cr) = split_e8(c);
    let h: i128 = k as i128 * fq + bq + cq;
    proof {
        assert(k * f + b == h * 100_000_000 + cr) by (nonlinear_arith)
            requires
                f == fq * 100_000_000 + fr,
                b == bq * 100_000_000 + br,
                c == k * fr + br,
                c == cq * 100_000_000 + cr,
                h == k * fq + bq + cq,
        ;
    }
    let ghost v = k * f + b;
    let neg = h < 0;
    let (mhi, mlo): (i128, i128) = if neg {
        (-h - 1, 100_000_000 - cr)
    } else {
        (h, cr)
    };
    let t = (mlo + 500_000) / 1_000_000;
    proof {
        lemma_round_split(mhi as int, mlo as int);
        assert(pow10(2) == 100) by {
            reveal_with_fuel(pow10, 3);
        }
        if neg {
            assert(-v == mhi * 100_000_000 + mlo);
        }
    }
    let whole = (mhi + t / 100) as u128;
    let frac = (t % 100) as u64;
    if neg && (mhi > 0 || t > 0) {
        push_char(s, '-');
    }
    push_wide_uint(s, whole);
    if frac != 0 {
        push_char(s, '.');
        push_decimals(s, frac, 2);
    }
    proof {
        let r = round_div(v, 1_000_000);
        if neg {
            assert(r == -(mhi * 100 + t));
        } else {
            assert(r == mhi * 100 + t);
        }
    }
}

/// The classes that style a run's text: bold, italic and underline.
pub open spec fn class_text(st: Style) -> Seq<char> {
    if st.bold {
        seq!['b'] + (if st.italic {
            " i"@
        } else {
            Seq::empty()
        }) + (if st.underline {
            " u"@
        } else {
            Seq::empty()
        })
    } else if st.italic {
        seq!['i'] + (if st.underline {
            " u"@
        } else {
            Seq::empty()
        })
    } else if st.underline {
        seq!['u']
    } else {
        Seq::empty()
    }
}

/// The background of one run in row `r`, where it has a color of its own.
pub open spec fn bg_run_text(run: RunView, r: int, o: RenderOptsView) -> Seq<char> {
    if run.style.bg is Default {
        Seq::empty()
    } else {
        "<rect x=\""@ + len_text(run.col * fine(o.advance)) + "\" y=\""@ + len_text(
            r * fine(o.line_height),
        ) + "\" width=\""@ + len_text(run.width * fine(o.advance)) + "\" height=\""@ + len_text(
            fine(o.line_height),
        ) + "\" fill=\""@ + paint_text(run.style.bg, "bg"@, o.literal)
            + "\" shape-rendering=\"crispEdges\"/>"@
    }
}

pub open spec fn bg_runs_text(runs: Seq<RunView>, r: int, o: RenderOptsView) -> Seq<char>
    decreases runs.len(),
{
    if runs.len() == 0 {
        Seq::empty()
    } else {
        bg_runs_text(runs.drop_last(), r, o) + bg_run_text(runs.last(), r, o)
    }
}

pub open spec fn bg_rows_text(rows: Seq<Seq<RunView>>, o: RenderOptsView) -> Seq<char>
    decreases rows.len(),
{
    if rows.len() == 0 {
        Seq::empty()
    } else {
        bg_rows_text(rows.drop_last(), o) + bg_runs_text(rows.last(), rows.len() - 1, o)
    }
}

/// The cursor's block, where the frame shows one.
pub open spec fn cursor_text(cursor: Option<(u16, u16)>, o: RenderOptsView) -> Seq<char> {
    match cursor {
        Some((cr, cc)) => "<rect class=\"cur\" x=\""@ + len_text(cc * fine(o.advance))
            + "\" y=\""@ + len_text(cr * fine(o.line_height)) + "\" width=\""@ + len_text(
            fine(o.advance),
        ) + "\" height=\""@ + len_text(fine(o.line_height)) + "\"/>"@,
        None => Seq::empty(),
    }
}

/// One run's text, placed at its column in its color and style.
pub open spec fn tspan_text(run: RunView, o: RenderOptsView) -> Seq<char> {
    let class = class_text(run.style);
    "<tspan x=\""@ + len_text(run.col * fine(o.advance)) + "\" fill=\""@ + paint_text(
        run.style.fg,
        "fg"@,
        o.literal,
    ) + seq!['"'] + (if class.len() > 0 {
        " class=\""@ + class + seq!['"']
    } else {
        Seq::empty()
    }) + seq!['>'] + escape_text(run.text) + "</tspan>"@
}

pub open spec fn tspans_text(runs: Seq<RunView>, o: RenderOptsView) -> Seq<char>
    decreases runs.len(),
{
    if runs.len() == 0 {
        Seq::empty()
    } else {
        tspans_text(runs.drop_last(), o) + tspan_text(runs.last(), o)
    }
}

/// The text of row `r`, on its baseline; nothing for a row with no runs.
pub open spec fn text_row_text(runs: Seq<RunView>, r: int, o: RenderOptsView, baseline: int) -> Seq<
    char,
> {
    if runs.len() == 0 {
        Seq::empty()
    } else {
        "<text y=\""@ + len_text(r * fine(o.line_height) + baseline) + "\" xml:space=\"preserve\">"@
            + tspans_text(runs, o) + "</text>"@
    }
}

pub open spec fn text_rows_text(rows: Seq<Seq<RunView>>, o: RenderOptsView, baseline: int) -> Seq<
    char,
>
    decreases rows.len(),
{
    if rows.len() == 0 {
        Seq::empty()
    } else {
        text_rows_text(rows.drop_last(), o, baseline) + text_row_text(
            rows.last(),
            rows.len() - 1,
            o,
            baseline,
        )
    }
}

/// One frame: the backgrounds of its runs, the cursor, then the text.
pub open spec fn frame_text(f: FrameView, o: RenderOptsView, baseline: int) -> Seq<char> {
    bg_rows_text(f.rows, o) + cursor_text(f.cursor, o) + text_rows_text(f.rows, o, baseline)
}

fn push_bg_run(s: &mut String, run: &Run, r: usize, o: &RenderOpts)
    ensures
        final(s)@ == old(s)@ + bg_run_text(run@, r as int, o@),
{
    if run.style.bg.is_default() {
        return;
    }
    let fa = o.advance.micros as i128 * 100;
    let fl = o.line_height.micros as i128 * 100;
    proof {
        lemma_cell_times(run.col as int, fa as int);
        lemma_cell_times(run.width as int, fa as int);
    }
    push_str(s, "<rect x=\"");
    push_len(s, run.col as i128 * fa);
    push_str(s, "\" y=\"");
    push_len_at(s, r as u64, fl, 0);
    push_str(s, "\" width=\"");
    push_len(s, run.width as i128 * fa);
    push_str(s, "\" height=\"");
    push_len(s, fl);
    push_str(s, "\" fill=\"");
    let f = paint(run.style.bg, "bg", o.literal.as_ref());
    push_str(s, f.as_str());
    push_str(s, "\" shape-rendering=\"crispEdges\"/>");
}

fn push_bg_row(s: &mut String, runs: &Vec<Run>, r: usize, o: &RenderOpts)
    ensures
        final(s)@ == old(s)@ + bg_runs_text(runs@.map_values(|x: Run| x@), r as int, o@),
{
    let ghost v = runs@.map_values(|x: Run| x@);
    let mut i: usize = 0;
    while i < runs.len()
        invariant
            i <= runs.len(),
            v == runs@.map_values(|x: Run| x@),
            s@ == old(s)@ + bg_runs_text(v.take(i as int), r as int, o@),
        decreases runs.len() - i,
    {
        push_bg_run(s, &runs[i], r, o);
        assert(v.take(i + 1).drop_last() == v.take(i as int));
        i = i + 1;
    }
    assert(v.take(runs.len() as int) == v);
}

fn push_bg_rows(s: &mut String, rows: &Vec<Row>, o: &RenderOpts)
    ensures
        final(s)@ == old(s)@ + bg_rows_text(rows@.map_values(|x: Row| x@), o@),
{
    let ghost v = rows@.map_values(|x: Row| x@);
    let mut i: usize = 0;
    while i < rows.len()
        invariant
            i <= rows.len(),
            v == rows@.map_values(|x: Row| x@),
            s@ == old(s)@ + bg_rows_text(v.take(i as int), o@),
        decreases rows.len() - i,
    {
        push_bg_row(s, &rows[i].runs, i, o);
        assert(v.take(i + 1).drop_last() == v.take(i as int));
        i = i + 1;
    }
    assert(v.take(rows.len() as int) == v);
}

fn push_cursor(s: &mut String, cursor: Option<(u16, u16)>, o: &RenderOpts)
    ensures
        final(s)@ == old(s)@ + cursor_text(cursor, o@),
{
    match cursor {
        Some((cr, cc)) => {
            let fa = o.advance.micros as i128 * 100;
            let fl = o.line_height.micros as i128 * 100;
            proof {
                lemma_cell_times(cc as int, fa as int);
                lemma_cell_times(cr as int, fl as int);
            }
            push_str(s, "<rect class=\"cur\" x=\"");
            push_len(s, cc as i128 * fa);
            push_str(s, "\" y=\"");
            push_len(s, cr as i128 * fl);
            push_str(s, "\" width=\"");
            push_len(s, fa);
            push_str(s, "\" height=\"");
            push_len(s, fl);
            push_str(s, "\"/>");
        },
        None => {},
    }
}

fn push_class(s: &mut String, st: Style)
    ensures
        final(s)@ == old(s)@ + class_text(st),
{
    if st.bold {
        push_char(s, 'b');
        if st.italic {
            push_str(s, " i");
        }
        if st.underline {
            push_str(s, " u");
        }
    } else if st.italic {
        push_char(s, 'i');
        if st.underline {
            push_str(s, " u");
        }
    } else if st.underline {
        push_char(s, 'u');
    }
}

#[verifier::spinoff_prover]
#[verifier::rlimit(40)]
fn push_tspan(s: &mut String, run: &Run, o: &RenderOpts)
    ensures
        final(s)@ == old(s)@ + tspan_text(run@, o@),
{
    let fa = o.advance.micros as i128 * 100;
    proof {
        lemma_cell_times(run.col as int, fa as int);
    }
    push_str(s, "<tspan x=\"");
    push_len(s, run.col as i128 * fa);
    push_str(s, "\" fill=\"");
    let f = paint(run.style.fg, "fg", o.literal.as_ref());
    push_str(s, f.as_str());
    push_char(s, '"');
    if run.style.bold || run.style.italic || run.style.underline {
        push_str(s, " class=\"");
        push_class(s, run.style);
        push_char(s, '"');
    }
    push_char(s, '>');
    push_escaped(s, run.text.as_str());
    push_str(s, "</tspan>");
}

fn push_text_row(s: &mut String, runs: &Vec<Run>, r: usize, o: &RenderOpts, baseline: i128)
    ensures
        final(s)@ == old(s)@ + text_row_text(runs@.map_values(|x: Run| x@), r as int, o@, baseline as int),
{
    let ghost v = runs@.map_values(|x: Run| x@);
    if runs.len() == 0 {
        return;
    }
    let fl = o.line_height.micros as i128 * 100;
    push_str(s, "<text y=\"");
    push_len_at(s, r as u64, fl, baseline);
    push_str(s, "\" xml:space=\"preserve\">");
    let ghost before = s@;
    let mut i: usize = 0;
    while i < runs.len()
        invariant
            i <= runs.len(),
            v == runs@.map_values(|x: Run| x@),
            s@ == before + tspans_text(v.take(i as int), o@),
        decreases runs.len() - i,
    {
        push_tspan(s, &runs[i], o);
        assert(v.take(i + 1).drop_last() == v.take(i as int));
        i = i + 1;
    }
    assert(v.take(runs.len() as int) == v);
    push_str(s, "</text>");
}

fn push_text_rows(s: &mut String, rows: &Vec<Row>, o: &RenderOpts, baseline: i128)
    ensures
        final(s)@ == old(s)@ + text_rows_text(rows@.map_values(|x: Row| x@), o@, baseline as int),
{
    let ghost v = rows@.map_values(|x: Row| x@);
    let mut i: usize = 0;
    while i < rows.len()
        invariant
            i <= rows.len(),
            v == rows@.map_values(|x: Row| x@),
            s@ == old(s)@ + text_rows_text(v.take(i as int), o@, baseline as int),
        decreases rows.len() - i,
    {
        push_text_row(s, &rows[i].runs, i, o, baseline);
        assert(v.take(i + 1).drop_last() == v.take(i as int));
        i = i + 1;
    }
    assert(v.take(rows.len() as int) == v);
}

/// Draws one frame, as [`frame_text`] says: the backgrounds of its runs, the
/// cursor, then each row's text on its baseline.
pub fn emit_frame(s: &mut String, frame: &Frame, o: &RenderOpts, baseline: i128)
    ensures
        final(s)@ == old(s)@ + frame_text(frame@, o@, baseline as int),
{
    push_bg_rows(s, &frame.rows, o);
    push_cursor(s, frame.cursor, o);
    push_text_rows(s, &frame.rows, o, baseline);
}

} // verus!
