pub mod frame;
pub mod import;
pub mod text;
pub mod theme;

use vstd::prelude::*;

use crate::chars::{push_char, push_str, push_uint, uint_text};
use crate::number::Decimal;
use crate::optimize::{Timeline, TimelineView};
use crate::svg::frame::{emit_frame, frame_text, in_range, len_text, push_len, push_len_at};
use crate::svg::text::{escape_text, fixed_text, push_escaped, push_fixed, round_div_exec};
use crate::number::round_div;
use crate::svg::theme::{
    buttons_of, default_buttons, light_of, paint, paint_text, palettes_of, Palette, PaletteView,
    Theme, ThemeView, builtin_buttons,
};
use crate::tape::strings_view;
use crate::term::frame::Color;
use crate::time::MAX_NANOS;

verus! {

broadcast use vstd::string::group_string_axioms;

/// How a recording is drawn.
///
/// Lengths are in pixels, held as [`Decimal`]s. With a `literal` palette the
/// picture carries that palette's colors and no CSS variables, as a
/// rasterizer needs; without one it carries the theme's variables and
/// switches palette with the viewer's color scheme.
#[derive(Clone, Debug)]
pub struct RenderOpts {
    pub literal: Option<Palette>,
    pub theme: Theme,
    pub font_family: String,
    pub font_size: Decimal,
    pub advance: Decimal,
    pub line_height: Decimal,
    pub padding: Decimal,
    pub window: bool,
    pub title: String,
    pub cols: u16,
    pub rows: u16,
    pub loop_forever: bool,
}

pub struct RenderOptsView {
    pub literal: Option<PaletteView>,
    pub theme: ThemeView,
    pub font_family: Seq<char>,
    pub font_size: int,
    pub advance: int,
    pub line_height: int,
    pub padding: int,
    pub window: bool,
    pub title: Seq<char>,
    pub cols: u16,
    pub rows: u16,
    pub loop_forever: bool,
}

impl View for RenderOpts {
    type V = RenderOptsView;

    open spec fn view(&self) -> RenderOptsView {
        RenderOptsView {
            literal: match self.literal {
                Some(p) => Some(p@),
                None => None,
            },
            theme: self.theme@,
            font_family: self.font_family@,
            font_size: self.font_size@,
            advance: self.advance@,
            line_height: self.line_height@,
            padding: self.padding@,
            window: self.window,
            title: self.title@,
            cols: self.cols,
            rows: self.rows,
            loop_forever: self.loop_forever,
        }
    }
}

/// The options with the cell metrics filled in where they are not above
/// zero: a cell six tenths of the font size wide and 1.32 times it tall (or
/// as tall as a [`Decimal`] holds, for a font over about seven trillion
/// pixels).
pub open spec fn with_metrics_of(o: RenderOptsView) -> RenderOptsView {
    RenderOptsView {
        advance: if o.advance <= 0 {
            o.font_size * 6 / 10
        } else {
            o.advance
        },
        line_height: if o.line_height <= 0 {
            clamp_micros(o.font_size * 132 / 100)
        } else {
            o.line_height
        },
        ..o
    }
}

impl RenderOpts {
    /// Fills in the cell metrics, as [`with_metrics_of`] says.
    pub fn with_metrics(self) -> (r: RenderOpts)
        ensures
            r@ == with_metrics_of(self@),
    {
        let mut o = self;
        let fs = o.font_size.micros as i128;
        if o.advance.micros <= 0 {
            o.advance = Decimal::from_micros(held_micros(floor_div(fs * 6, 10)));
        }
        if o.line_height.micros <= 0 {
            o.line_height = Decimal::from_micros(held_micros(floor_div(fs * 132, 100)));
        }
        o
    }
}

/// The nearest number of millionths a [`Decimal`] holds.
pub open spec fn clamp_micros(x: int) -> int {
    if x > i64::MAX {
        i64::MAX as int
    } else if x < i64::MIN {
        i64::MIN as int
    } else {
        x
    }
}

fn held_micros(x: i128) -> (r: i64)
    ensures
        r == clamp_micros(x as int),
{
    if x > i64::MAX as i128 {
        i64::MAX
    } else if x < i64::MIN as i128 {
        i64::MIN
    } else {
        x as i64
    }
}

/// `a / b` rounded down.
fn floor_div(a: i128, b: i128) -> (r: i128)
    requires
        b > 0,
        a > i128::MIN + b,
    ensures
        r == a / b,
{
    if a >= 0 {
        a / b
    } else {
        let q = (-a + b - 1) / b;
        assert(-q == a / b) by (nonlinear_arith)
            requires
                a < 0,
                b > 0,
                q == (-a + b - 1) / (b as int),
        ;
        -q
    }
}

/// The height of the title bar of a window, in pixels.
pub const CHROME_H: u64 = 34;

/// A length in hundred-millionths of a pixel, the unit drawing computes in.
pub open spec fn fine(micros: int) -> int {
    micros * 100
}

/// Where things go, in hundred-millionths of a pixel.
pub struct Geometry {
    pub content_w: int,
    pub content_h: int,
    pub chrome: int,
    pub width: int,
    pub height: int,
    pub top: int,
    pub baseline: int,
    pub mid: int,
}

/// The layout of a picture: the terminal's cells, the padding round them and
/// the title bar above; text sits on a baseline 0.78 of the font size below
/// the top of the line's ink, centred in the line.
pub open spec fn geometry(o: RenderOptsView) -> Geometry {
    let content_w = o.cols * fine(o.advance);
    let content_h = o.rows * fine(o.line_height);
    let chrome = if o.window {
        fine(CHROME_H * 1_000_000)
    } else {
        0
    };
    Geometry {
        content_w,
        content_h,
        chrome,
        width: content_w + fine(o.padding) * 2,
        height: content_h + fine(o.padding) * 2 + chrome,
        top: fine(o.padding) + chrome,
        baseline: (o.line_height - o.font_size) * 50 + o.font_size * 78,
        mid: o.cols * (o.advance * 50) + fine(o.padding) + chrome / 2,
    }
}

/// The value of a CSS slot: the literal palette's own color, or the variable.
pub open spec fn slot_text(o: RenderOptsView, var: Seq<char>, picked: Seq<char>) -> Seq<char> {
    match o.literal {
        Some(_) => picked,
        None => "var(--"@ + var + seq![')'],
    }
}

pub open spec fn literal_border(o: RenderOptsView) -> Seq<char> {
    match o.literal {
        Some(p) => match p.border {
            Some(c) => c,
            None => p.bg,
        },
        None => Seq::empty(),
    }
}

pub open spec fn literal_chrome(o: RenderOptsView) -> Seq<char> {
    match o.literal {
        Some(p) => match p.chrome {
            Some(c) => c,
            None => p.bg,
        },
        None => Seq::empty(),
    }
}

pub open spec fn literal_cursor(o: RenderOptsView) -> Seq<char> {
    match o.literal {
        Some(p) => match p.cursor {
            Some(c) => c,
            None => p.fg,
        },
        None => Seq::empty(),
    }
}

pub open spec fn any_cursor(t: ThemeView) -> bool {
    exists|i: int| 0 <= i < palettes_of(t).len() && (#[trigger] palettes_of(t)[i]).cursor is Some
}

pub open spec fn any_chrome(t: ThemeView) -> bool {
    exists|i: int| 0 <= i < palettes_of(t).len() && (#[trigger] palettes_of(t)[i]).chrome is Some
}

pub open spec fn any_border(t: ThemeView) -> bool {
    exists|i: int| 0 <= i < palettes_of(t).len() && (#[trigger] palettes_of(t)[i]).border is Some
}

pub open spec fn any_buttons(t: ThemeView) -> bool {
    exists|i: int| 0 <= i < palettes_of(t).len() && (#[trigger] palettes_of(t)[i]).buttons is Some
}

/// The cursor's fill: its own slot where the theme has one, the text color
/// otherwise.
pub open spec fn cursor_paint_text(o: RenderOptsView) -> Seq<char> {
    if any_cursor(o.theme) {
        slot_text(o, "cur"@, literal_cursor(o))
    } else {
        paint_text(Color::Default, "fg"@, o.literal)
    }
}

fn push_slot_border(s: &mut String, o: &RenderOpts)
    ensures
        final(s)@ == old(s)@ + slot_text(o@, "border"@, literal_border(o@)),
{
    match &o.literal {
        Some(p) => push_str(s, p.border()),
        None => {
            push_str(s, "var(--");
            push_str(s, "border");
            push_char(s, ')');
        },
    }
}

fn push_slot_chrome(s: &mut String, o: &RenderOpts)
    ensures
        final(s)@ == old(s)@ + slot_text(o@, "chrome"@, literal_chrome(o@)),
{
    match &o.literal {
        Some(p) => push_str(s, p.chrome()),
        None => {
            push_str(s, "var(--");
            push_str(s, "chrome");
            push_char(s, ')');
        },
    }
}

fn push_cursor_paint(s: &mut String, o: &RenderOpts)
    ensures
        final(s)@ == old(s)@ + cursor_paint_text(o@),
{
    if o.theme.has_cursor() {
        match &o.literal {
            Some(p) => push_str(s, p.cursor()),
            None => {
                push_str(s, "var(--");
                push_str(s, "cur");
                push_char(s, ')');
            },
        }
    } else {
        let f = paint(Color::Default, "fg", o.literal.as_ref());
        push_str(s, f.as_str());
    }
}

/// `--name0:v0;--name1:v1;...` for a list of colors.
pub open spec fn indexed_vars(name: Seq<char>, items: Seq<Seq<char>>) -> Seq<char>
    decreases items.len(),
{
    if items.len() == 0 {
        Seq::empty()
    } else {
        indexed_vars(name, items.drop_last()) + "--"@ + name + uint_text((items.len() - 1) as nat)
            + seq![':'] + items.last() + seq![';']
    }
}

fn push_indexed_vars(s: &mut String, name: &str, items: &Vec<String>)
    ensures
        final(s)@ == old(s)@ + indexed_vars(name@, strings_view(items@)),
{
    let ghost v = strings_view(items@);
    let mut i: usize = 0;
    while i < items.len()
        invariant
            i <= items.len(),
            v == strings_view(items@),
            s@ == old(s)@ + indexed_vars(name@, v.take(i as int)),
        decreases items.len() - i,
    {
        push_str(s, "--");
        push_str(s, name);
        push_uint(s, i as u64);
        push_char(s, ':');
        push_str(s, items[i].as_str());
        push_char(s, ';');
        assert(v.take(i + 1).drop_last() == v.take(i as int));
        i = i + 1;
    }
    assert(v.take(items.len() as int) == v);
}

pub open spec fn cur_var_text(p: PaletteView, t: ThemeView) -> Seq<char> {
    if any_cursor(t) {
        "--cur:"@ + match p.cursor {
            Some(c) => c,
            None => p.fg,
        } + seq![';']
    } else {
        Seq::empty()
    }
}

pub open spec fn chrome_var_text(p: PaletteView, t: ThemeView) -> Seq<char> {
    if any_chrome(t) {
        "--chrome:"@ + match p.chrome {
            Some(c) => c,
            None => p.bg,
        } + seq![';']
    } else {
        Seq::empty()
    }
}

pub open spec fn border_var_text(p: PaletteView, t: ThemeView) -> Seq<char> {
    if any_border(t) {
        "--border:"@ + match p.border {
            Some(c) => c,
            None => p.bg,
        } + seq![';']
    } else {
        Seq::empty()
    }
}

pub open spec fn buttons_var_text(p: PaletteView, t: ThemeView) -> Seq<char> {
    if any_buttons(t) {
        indexed_vars("btn"@, buttons_of(p))
    } else {
        Seq::empty()
    }
}

/// The variables of the extra slots the theme uses: cursor, title bar, frame
/// and buttons.
pub open spec fn extra_vars_text(p: PaletteView, t: ThemeView) -> Seq<char> {
    cur_var_text(p, t) + chrome_var_text(p, t) + border_var_text(p, t) + buttons_var_text(p, t)
}

/// The CSS variables of one palette: background, text, the extra slots the
/// theme uses, and the sixteen ANSI colors.
pub open spec fn inner_vars_text(p: PaletteView, t: ThemeView) -> Seq<char> {
    "--bg:"@ + p.bg + ";--fg:"@ + p.fg + seq![';'] + extra_vars_text(p, t) + indexed_vars(
        "c"@,
        p.ansi,
    )
}

fn push_cur_var(s: &mut String, p: &Palette, t: &Theme)
    ensures
        final(s)@ == old(s)@ + cur_var_text(p@, t@),
{
    if t.has_cursor() {
        push_str(s, "--cur:");
        push_str(s, p.cursor());
        push_char(s, ';');
    }
}

fn push_chrome_var(s: &mut String, p: &Palette, t: &Theme)
    ensures
        final(s)@ == old(s)@ + chrome_var_text(p@, t@),
{
    if t.has_chrome() {
        push_str(s, "--chrome:");
        push_str(s, p.chrome());
        push_char(s, ';');
    }
}

fn push_border_var(s: &mut String, p: &Palette, t: &Theme)
    ensures
        final(s)@ == old(s)@ + border_var_text(p@, t@),
{
    if t.has_border() {
        push_str(s, "--border:");
        push_str(s, p.border());
        push_char(s, ';');
    }
}

fn push_buttons_var(s: &mut String, p: &Palette, t: &Theme)
    ensures
        final(s)@ == old(s)@ + buttons_var_text(p@, t@),
{
    if t.has_buttons() {
        let b = p.buttons();
        push_indexed_vars(s, "btn", &b);
    }
}

fn push_extra_vars(s: &mut String, p: &Palette, t: &Theme)
    ensures
        final(s)@ == old(s)@ + extra_vars_text(p@, t@),
{
    let ghost s0 = s@;
    push_cur_var(s, p, t);
    push_chrome_var(s, p, t);
    push_border_var(s, p, t);
    push_buttons_var(s, p, t);
    assert(s@ =~= s0 + extra_vars_text(p@, t@));
}

fn push_inner_vars(s: &mut String, p: &Palette, t: &Theme)
    ensures
        final(s)@ == old(s)@ + inner_vars_text(p@, t@),
{
    let ghost s0 = s@;
    push_str(s, "--bg:");
    push_str(s, p.bg.as_str());
    push_str(s, ";--fg:");
    push_str(s, p.fg.as_str());
    push_char(s, ';');
    let ghost s1 = s@;
    assert(s1 =~= s0 + ("--bg:"@ + p@.bg + ";--fg:"@ + p@.fg + seq![';']));
    push_extra_vars(s, p, t);
    push_indexed_vars(s, "c", &p.ansi);
    assert(s@ =~= s0 + inner_vars_text(p@, t@));
}

/// A CSS rule that sets a palette's variables on `sel`.
pub open spec fn vars_text(sel: Seq<char>, p: PaletteView, t: ThemeView) -> Seq<char> {
    sel + seq!['{'] + inner_vars_text(p, t) + seq!['}']
}

fn push_vars(s: &mut String, sel: &str, p: &Palette, t: &Theme)
    ensures
        final(s)@ == old(s)@ + vars_text(sel@, p@, t@),
{
    push_str(s, sel);
    push_char(s, '{');
    push_inner_vars(s, p, t);
    push_char(s, '}');
}

/// The rules for a theme with a light palette: the light one under a light
/// color scheme, and either forced by a `data-theme` attribute.
pub open spec fn light_rules_text(t: ThemeView) -> Seq<char> {
    "@media(prefers-color-scheme:light){"@ + vars_text(":root"@, light_of(t), t) + seq!['}']
        + ":root[data-theme=\"light\"]{"@ + inner_vars_text(light_of(t), t) + seq!['}']
        + ":root[data-theme=\"dark\"]{"@ + inner_vars_text(t.dark, t) + seq!['}']
}

/// The palette variables of a picture that is not literal: the dark palette
/// by default and, for a theme with a light palette, the light rules.
pub open spec fn palette_rules_text(o: RenderOptsView) -> Seq<char> {
    if o.literal is Some {
        Seq::empty()
    } else {
        vars_text(":root"@, o.theme.dark, o.theme) + if o.theme.light is Some {
            light_rules_text(o.theme)
        } else {
            Seq::empty()
        }
    }
}

fn push_light_rules(s: &mut String, t: &Theme)
    ensures
        final(s)@ == old(s)@ + light_rules_text(t@),
{
    let ghost s0 = s@;
    push_str(s, "@media(prefers-color-scheme:light){");
    push_vars(s, ":root", t.light(), t);
    push_char(s, '}');
    let ghost s1 = s@;
    push_str(s, ":root[data-theme=\"light\"]{");
    push_inner_vars(s, t.light(), t);
    push_char(s, '}');
    let ghost s2 = s@;
    push_str(s, ":root[data-theme=\"dark\"]{");
    push_inner_vars(s, &t.dark, t);
    push_char(s, '}');
    assert(s@ =~= s0 + light_rules_text(t@));
}

fn push_palette_rules(s: &mut String, o: &RenderOpts)
    ensures
        final(s)@ == old(s)@ + palette_rules_text(o@),
{
    if o.literal.is_none() {
        push_vars(s, ":root", &o.theme.dark, &o.theme);
        if o.theme.has_light() {
            push_light_rules(s, &o.theme);
        }
    }
}

/// The percentage of the loop, to the thousandth, at which a frame starting
/// `start` nanoseconds in shows: rounded half away from zero.
pub open spec fn percent_at(start: nat, total: nat) -> int {
    let d: int = if total == 0 {
        1
    } else {
        total as int
    };
    round_div((start * 100_000) as int, d)
}

/// One keyframe of the scroll animation: at `pct` thousandths of a percent
/// the strip has moved up by `shift` hundred-millionths of a pixel.
pub open spec fn keyframe_text(pct: int, shift: int) -> Seq<char> {
    fixed_text(pct, 3) + "%{transform:translateY("@ + len_text(-shift) + "px)}"@
}

pub open spec fn keyframe_list(starts: Seq<nat>, total: nat, frame_h: int) -> Seq<char>
    decreases starts.len(),
{
    if starts.len() == 0 {
        Seq::empty()
    } else {
        keyframe_list(starts.drop_last(), total, frame_h) + keyframe_text(
            percent_at(starts.last(), total),
            (starts.len() - 1) * frame_h,
        )
    }
}

/// The animation that scrolls the strip of frames: one step per frame start,
/// and the last frame held at the end of the loop.
pub open spec fn keyframes_text(tl: TimelineView, frame_h: int) -> Seq<char> {
    let last = if tl.frames.len() > 0 {
        tl.frames.len() - 1
    } else {
        0
    };
    "@keyframes tsroll{"@ + keyframe_list(tl.starts, tl.total, frame_h) + "100%{transform:translateY("@
        + len_text(-(last * frame_h)) + "px)}"@ + seq!['}']
}

/// A cell index times a length stays far inside the range drawing computes in.
pub proof fn lemma_cell_times(i: int, h: int)
    requires
        0 <= i <= 65535,
        -1_000_000_000_000_000_000_000 <= h <= 1_000_000_000_000_000_000_000,
    ensures
        -70_000_000_000_000_000_000_000_000 <= i * h <= 70_000_000_000_000_000_000_000_000,
{
    assert(-70_000_000_000_000_000_000_000_000 <= i * h <= 70_000_000_000_000_000_000_000_000)
        by (nonlinear_arith)
        requires
            0 <= i <= 65535,
            -1_000_000_000_000_000_000_000 <= h <= 1_000_000_000_000_000_000_000,
    ;
}

fn push_keyframe(s: &mut String, start: u128, total: i128, i: usize, frame_h: i128)
    requires
        1 <= total <= MAX_NANOS,
        start <= MAX_NANOS,
        -70_000_000_000_000_000_000_000_000 <= frame_h <= 70_000_000_000_000_000_000_000_000,
    ensures
        final(s)@ == old(s)@ + keyframe_text(
            round_div(start * 100_000, total as int),
            i * frame_h,
        ),
{
    let p = round_div_exec(start as i128 * 100_000, total);
    push_fixed(s, p, 3);
    push_str(s, "%{transform:translateY(");
    proof {
        assert(i * (-frame_h) + 0 == -(i * frame_h)) by (nonlinear_arith);
    }
    push_len_at(s, i as u64, -frame_h, 0);
    push_str(s, "px)}");
}

fn push_keyframes(s: &mut String, tl: &Timeline, frame_h: i128)
    requires
        -70_000_000_000_000_000_000_000_000 <= frame_h <= 70_000_000_000_000_000_000_000_000,
    ensures
        final(s)@ == old(s)@ + keyframes_text(tl@, frame_h as int),
{
    push_str(s, "@keyframes tsroll{");
    let ghost starts = tl@.starts;
    let total: i128 = if tl.total.is_zero() {
        1
    } else {
        tl.total.as_nanos() as i128
    };
    let mut i: usize = 0;
    while i < tl.starts.len()
        invariant
            i <= tl.starts.len(),
            starts == tl@.starts,
            -70_000_000_000_000_000_000_000_000 <= frame_h <= 70_000_000_000_000_000_000_000_000,
            1 <= total <= MAX_NANOS,
            total == (if tl@.total == 0 {
                1
            } else {
                tl@.total as int
            }),
            s@ == old(s)@ + "@keyframes tsroll{"@ + keyframe_list(
                starts.take(i as int),
                tl@.total,
                frame_h as int,
            ),
        decreases tl.starts.len() - i,
    {
        push_keyframe(s, tl.starts[i].as_nanos(), total, i, frame_h);
        assert(starts.take(i + 1).drop_last() == starts.take(i as int));
        i = i + 1;
    }
    assert(starts.take(tl.starts.len() as int) == starts);
    let n = tl.frames.len();
    let last: usize = if n > 0 {
        n - 1
    } else {
        0
    };
    proof {
        assert(last * (-frame_h) + 0 == -(last * frame_h)) by (nonlinear_arith);
    }
    push_str(s, "100%{transform:translateY(");
    push_len_at(s, last as u64, -frame_h, 0);
    push_str(s, "px)}");
    push_char(s, '}');
}

/// The opening tag: the picture's size, its font, and its view box.
pub open spec fn head_text(o: RenderOptsView, g: Geometry) -> Seq<char> {
    "<svg xmlns=\"http://www.w3.org/2000/svg\" width=\""@ + len_text(g.width) + "\" height=\""@
        + len_text(g.height) + "\" viewBox=\"0 0 "@ + len_text(g.width) + seq![' '] + len_text(
        g.height,
    ) + "\" font-family=\""@ + escape_text(o.font_family) + "\" font-size=\""@ + len_text(
        fine(o.font_size),
    ) + "px\">"@
}

/// The scroll animation of a recording of more than one frame, played once
/// or forever.
pub open spec fn animation_text(tl: TimelineView, o: RenderOptsView, g: Geometry) -> Seq<char> {
    if tl.frames.len() > 1 {
        keyframes_text(tl, g.content_h) + ".s{animation:tsroll "@ + fixed_text(
            round_div(tl.total as int, 10_000_000),
            2,
        ) + "s step-end "@ + (if o.loop_forever {
            "infinite"@
        } else {
            "1 forwards"@
        }) + seq!['}']
    } else {
        Seq::empty()
    }
}

/// The style sheet: palette variables, text and class rules, the cursor, and
/// the animation.
pub open spec fn style_text(tl: TimelineView, o: RenderOptsView, g: Geometry) -> Seq<char> {
    "<style>"@ + palette_rules_text(o) + "text{white-space:pre;font-variant-ligatures:none}"@
        + ".b{font-weight:700}.i{font-style:italic}.u{text-decoration:underline}"@ + ".cur{fill:"@
        + cursor_paint_text(o) + ";opacity:.7}"@ + animation_text(tl, o, g) + "</style>"@
}

pub open spec fn corner_text(o: RenderOptsView) -> Seq<char> {
    if o.window {
        "10"@
    } else {
        seq!['6']
    }
}

/// The background of the whole picture.
pub open spec fn background_text(o: RenderOptsView, g: Geometry) -> Seq<char> {
    "<rect width=\""@ + len_text(g.width) + "\" height=\""@ + len_text(g.height) + "\" rx=\""@
        + corner_text(o) + "\" fill=\""@ + paint_text(Color::Default, "bg"@, o.literal) + "\"/>"@
}

/// The title bar's fill, where the theme colors it.
pub open spec fn bar_text(o: RenderOptsView, g: Geometry) -> Seq<char> {
    if any_chrome(o.theme) {
        "<path d=\"M0,10 A10,10 0 0 1 10,0 H"@ + len_text(g.width - 1_000_000_000)
            + " A10,10 0 0 1 "@ + len_text(g.width) + ",10 V34 H0 Z\" fill=\""@ + slot_text(
            o,
            "chrome"@,
            literal_chrome(o),
        ) + "\"/>"@
    } else {
        Seq::empty()
    }
}

/// The line under the title bar, where the theme has a frame color.
pub open spec fn bar_line_text(o: RenderOptsView, g: Geometry) -> Seq<char> {
    if any_border(o.theme) {
        "<rect x=\"0\" y=\"34\" width=\""@ + len_text(g.width) + "\" height=\"1\" fill=\""@
            + slot_text(o, "border"@, literal_border(o)) + "\"/>"@
    } else {
        Seq::empty()
    }
}

/// The colors of the three window buttons: the literal palette's, the
/// theme's variables where it names its own, or the defaults.
pub open spec fn shown_buttons(o: RenderOptsView) -> Seq<Seq<char>> {
    match o.literal {
        Some(p) => buttons_of(p),
        None => if any_buttons(o.theme) {
            seq!["var(--btn0)"@, "var(--btn1)"@, "var(--btn2)"@]
        } else {
            default_buttons()
        },
    }
}

pub open spec fn circle_text(cx: Seq<char>, fill: Seq<char>) -> Seq<char> {
    "<circle cx=\""@ + cx + "\" cy=\"17\" r=\"5.5\" fill=\""@ + fill + "\"/>"@
}

/// The three window buttons.
pub open spec fn circles_text(b: Seq<Seq<char>>) -> Seq<char> {
    circle_text("20"@, b[0]) + circle_text("38"@, b[1]) + circle_text("56"@, b[2])
}

/// The title, centred in the bar, where there is one.
pub open spec fn title_text(o: RenderOptsView, g: Geometry) -> Seq<char> {
    if o.title.len() > 0 {
        "<text x=\""@ + len_text(g.mid)
            + "\" y=\"21\" text-anchor=\"middle\" fill=\""@ + paint_text(
            Color::Default,
            "fg"@,
            o.literal,
        ) + "\" opacity=\".55\" font-size=\""@ + len_text(o.font_size * 85) + "px\">"@
            + escape_text(o.title) + "</text>"@
    } else {
        Seq::empty()
    }
}

/// The window's title bar: its fill, the line under it, the buttons and the
/// title.
pub open spec fn chrome_bar_text(o: RenderOptsView, g: Geometry) -> Seq<char> {
    bar_text(o, g) + bar_line_text(o, g) + circles_text(shown_buttons(o)) + title_text(o, g)
}

/// The clip to the terminal's cells and the groups that place the strip of
/// frames.
pub open spec fn clip_text(o: RenderOptsView, g: Geometry) -> Seq<char> {
    clip_def_text(o, g) + groups_text(o, g)
}

pub open spec fn clip_def_text(o: RenderOptsView, g: Geometry) -> Seq<char> {
    "<defs><clipPath id=\"tsclip\"><rect x=\""@ + len_text(fine(o.padding)) + "\" y=\""@
        + len_text(g.top) + "\" width=\""@ + len_text(g.content_w) + "\" height=\""@ + len_text(
        g.content_h,
    ) + "\"/></clipPath></defs>"@
}

pub open spec fn groups_text(o: RenderOptsView, g: Geometry) -> Seq<char> {
    "<g clip-path=\"url(#tsclip)\"><g transform=\"translate("@ + len_text(fine(o.padding))
        + seq![','] + len_text(g.top) + ")\"><g class=\"s\">"@
}

/// Frame `i`, moved down below the frames before it.
#[verifier::opaque]
pub open spec fn placed_frame_text(
    f: crate::term::frame::FrameView,
    i: int,
    o: RenderOptsView,
    g: Geometry,
) -> Seq<char> {
    "<g transform=\"translate(0,"@ + len_text(i * g.content_h) + ")\">"@ + frame_text(
        f,
        o,
        g.baseline,
    ) + "</g>"@
}

/// The frames, one under the other.
pub open spec fn frames_text(frames: Seq<crate::term::frame::FrameView>, o: RenderOptsView, g: Geometry) -> Seq<char>
    decreases frames.len(),
{
    if frames.len() == 0 {
        Seq::empty()
    } else {
        frames_text(frames.drop_last(), o, g) + placed_frame_text(
            frames.last(),
            frames.len() - 1,
            o,
            g,
        )
    }
}

/// The frame round the picture, where the theme has a frame color.
pub open spec fn border_text(o: RenderOptsView, g: Geometry) -> Seq<char> {
    if any_border(o.theme) {
        "<rect x=\"0.5\" y=\"0.5\" width=\""@ + len_text(g.width - 100_000_000) + "\" height=\""@
            + len_text(g.height - 100_000_000) + "\" rx=\""@ + corner_text(o)
            + "\" fill=\"none\" stroke=\""@ + slot_text(o, "border"@, literal_border(o)) + "\"/>"@
    } else {
        Seq::empty()
    }
}

/// The whole picture of a timeline.
pub open spec fn render_text(tl: TimelineView, o: RenderOptsView) -> Seq<char> {
    let g = geometry(o);
    head_text(o, g) + style_text(tl, o, g) + background_text(o, g) + (if o.window {
        chrome_bar_text(o, g)
    } else {
        Seq::empty()
    }) + clip_text(o, g) + frames_text(tl.frames, o, g) + "</g></g></g>"@ + border_text(o, g)
        + "</svg>"@
}

struct Layout {
    content_w: i128,
    content_h: i128,
    width: i128,
    height: i128,
    top: i128,
    baseline: i128,
    pad: i128,
    mid: i128,
}

spec fn laid_out(l: Layout, o: RenderOptsView) -> bool {
    let g = geometry(o);
    &&& l.content_w == g.content_w
    &&& l.content_h == g.content_h
    &&& l.width == g.width
    &&& l.height == g.height
    &&& l.top == g.top
    &&& l.baseline == g.baseline
    &&& l.pad == fine(o.padding)
    &&& l.mid == g.mid
    &&& -80_000_000_000_000_000_000_000_000 <= l.mid <= 80_000_000_000_000_000_000_000_000
    &&& -70_000_000_000_000_000_000_000_000 <= l.content_w <= 70_000_000_000_000_000_000_000_000
    &&& -70_000_000_000_000_000_000_000_000 <= l.content_h <= 70_000_000_000_000_000_000_000_000
    &&& -80_000_000_000_000_000_000_000_000 <= l.width <= 80_000_000_000_000_000_000_000_000
    &&& -80_000_000_000_000_000_000_000_000 <= l.height <= 80_000_000_000_000_000_000_000_000
    &&& -80_000_000_000_000_000_000_000_000 <= l.top <= 80_000_000_000_000_000_000_000_000
    &&& -1_000_000_000_000_000_000_000 <= l.pad <= 1_000_000_000_000_000_000_000
    &&& -2_000_000_000_000_000_000_000 <= l.baseline <= 2_000_000_000_000_000_000_000
}

fn layout(o: &RenderOpts) -> (l: Layout)
    ensures
        laid_out(l, o@),
{
    let fa = o.advance.micros as i128 * 100;
    let fl = o.line_height.micros as i128 * 100;
    let fp = o.padding.micros as i128 * 100;
    let fs = o.font_size.micros as i128;
    let lh = o.line_height.micros as i128;
    let fm = o.advance.micros as i128 * 50;
    proof {
        lemma_cell_times(o.cols as int, fa as int);
        lemma_cell_times(o.rows as int, fl as int);
        lemma_cell_times(o.cols as int, fm as int);
    }
    let content_w = o.cols as i128 * fa;
    let content_h = o.rows as i128 * fl;
    let chrome: i128 = if o.window {
        3_400_000_000
    } else {
        0
    };
    Layout {
        content_w,
        content_h,
        width: content_w + fp * 2,
        height: content_h + fp * 2 + chrome,
        top: fp + chrome,
        baseline: (lh - fs) * 50 + fs * 78,
        pad: fp,
        mid: o.cols as i128 * fm + fp + chrome / 2,
    }
}

fn push_head(s: &mut String, o: &RenderOpts, l: &Layout)
    requires
        laid_out(*l, o@),
    ensures
        final(s)@ == old(s)@ + head_text(o@, geometry(o@)),
{
    let ghost s0 = s@;
    push_str(s, "<svg xmlns=\"http://www.w3.org/2000/svg\" width=\"");
    push_len(s, l.width);
    push_str(s, "\" height=\"");
    push_len(s, l.height);
    push_str(s, "\" viewBox=\"0 0 ");
    push_len(s, l.width);
    push_char(s, ' ');
    push_len(s, l.height);
    push_str(s, "\" font-family=\"");
    push_escaped(s, o.font_family.as_str());
    push_str(s, "\" font-size=\"");
    push_len(s, o.font_size.micros as i128 * 100);
    push_str(s, "px\">");
    assert(s@ =~= s0 + head_text(o@, geometry(o@)));
}

fn push_animation(s: &mut String, tl: &Timeline, o: &RenderOpts, l: &Layout)
    requires
        laid_out(*l, o@),
    ensures
        final(s)@ == old(s)@ + animation_text(tl@, o@, geometry(o@)),
{
    if tl.frames.len() > 1 {
        let ghost s0 = s@;
        push_keyframes(s, tl, l.content_h);
        push_str(s, ".s{animation:tsroll ");
        let d = round_div_exec(tl.total.as_nanos() as i128, 10_000_000);
        push_fixed(s, d, 2);
        push_str(s, "s step-end ");
        if o.loop_forever {
            push_str(s, "infinite");
        } else {
            push_str(s, "1 forwards");
        }
        push_char(s, '}');
        assert(s@ =~= s0 + animation_text(tl@, o@, geometry(o@)));
    }
}

fn push_style(s: &mut String, tl: &Timeline, o: &RenderOpts, l: &Layout)
    requires
        laid_out(*l, o@),
    ensures
        final(s)@ == old(s)@ + style_text(tl@, o@, geometry(o@)),
{
    let ghost s0 = s@;
    push_str(s, "<style>");
    push_palette_rules(s, o);
    push_str(s, "text{white-space:pre;font-variant-ligatures:none}");
    push_str(s, ".b{font-weight:700}.i{font-style:italic}.u{text-decoration:underline}");
    push_str(s, ".cur{fill:");
    push_cursor_paint(s, o);
    push_str(s, ";opacity:.7}");
    push_animation(s, tl, o, l);
    push_str(s, "</style>");
    assert(s@ =~= s0 + style_text(tl@, o@, geometry(o@)));
}

fn push_corner(s: &mut String, o: &RenderOpts)
    ensures
        final(s)@ == old(s)@ + corner_text(o@),
{
    if o.window {
        push_str(s, "10");
    } else {
        push_char(s, '6');
    }
}

fn push_background(s: &mut String, o: &RenderOpts, l: &Layout)
    requires
        laid_out(*l, o@),
    ensures
        final(s)@ == old(s)@ + background_text(o@, geometry(o@)),
{
    let ghost s0 = s@;
    push_str(s, "<rect width=\"");
    push_len(s, l.width);
    push_str(s, "\" height=\"");
    push_len(s, l.height);
    push_str(s, "\" rx=\"");
    push_corner(s, o);
    push_str(s, "\" fill=\"");
    let f = paint(Color::Default, "bg", o.literal.as_ref());
    push_str(s, f.as_str());
    push_str(s, "\"/>");
    assert(s@ =~= s0 + background_text(o@, geometry(o@)));
}

fn push_bar(s: &mut String, o: &RenderOpts, l: &Layout)
    requires
        laid_out(*l, o@),
    ensures
        final(s)@ == old(s)@ + bar_text(o@, geometry(o@)),
{
    if o.theme.has_chrome() {
        let ghost s0 = s@;
        push_str(s, "<path d=\"M0,10 A10,10 0 0 1 10,0 H");
        push_len(s, l.width - 1_000_000_000);
        push_str(s, " A10,10 0 0 1 ");
        push_len(s, l.width);
        push_str(s, ",10 V34 H0 Z\" fill=\"");
        push_slot_chrome(s, o);
        push_str(s, "\"/>");
        assert(s@ =~= s0 + bar_text(o@, geometry(o@)));
    }
}

fn push_bar_line(s: &mut String, o: &RenderOpts, l: &Layout)
    requires
        laid_out(*l, o@),
    ensures
        final(s)@ == old(s)@ + bar_line_text(o@, geometry(o@)),
{
    if o.theme.has_border() {
        let ghost s0 = s@;
        push_str(s, "<rect x=\"0\" y=\"34\" width=\"");
        push_len(s, l.width);
        push_str(s, "\" height=\"1\" fill=\"");
        push_slot_border(s, o);
        push_str(s, "\"/>");
        assert(s@ =~= s0 + bar_line_text(o@, geometry(o@)));
    }
}

fn push_circle(s: &mut String, cx: &str, fill: &str)
    ensures
        final(s)@ == old(s)@ + circle_text(cx@, fill@),
{
    let ghost s0 = s@;
    push_str(s, "<circle cx=\"");
    push_str(s, cx);
    push_str(s, "\" cy=\"17\" r=\"5.5\" fill=\"");
    push_str(s, fill);
    push_str(s, "\"/>");
    assert(s@ =~= s0 + circle_text(cx@, fill@));
}

fn variable_buttons() -> (v: Vec<String>)
    ensures
        strings_view(v@) == seq!["var(--btn0)"@, "var(--btn1)"@, "var(--btn2)"@],
{
    let mut v: Vec<String> = Vec::new();
    v.push("var(--btn0)".to_owned());
    v.push("var(--btn1)".to_owned());
    v.push("var(--btn2)".to_owned());
    assert(strings_view(v@) == seq!["var(--btn0)"@, "var(--btn1)"@, "var(--btn2)"@]);
    v
}

fn push_circles(s: &mut String, o: &RenderOpts)
    ensures
        final(s)@ == old(s)@ + circles_text(shown_buttons(o@)),
{
    let b = match &o.literal {
        Some(p) => p.buttons(),
        None => if o.theme.has_buttons() {
            variable_buttons()
        } else {
            builtin_buttons()
        },
    };
    assert(strings_view(b@) == shown_buttons(o@));
    proof {
        reveal_strlit("#ff5f57");
    }
    assert(b@.len() == 3);
    let ghost s0 = s@;
    push_circle(s, "20", b[0].as_str());
    push_circle(s, "38", b[1].as_str());
    push_circle(s, "56", b[2].as_str());
    assert(strings_view(b@)[0] == b@[0]@);
    assert(strings_view(b@)[1] == b@[1]@);
    assert(strings_view(b@)[2] == b@[2]@);
    assert(s@ =~= s0 + circles_text(shown_buttons(o@)));
}

fn push_title(s: &mut String, o: &RenderOpts, l: &Layout)
    requires
        laid_out(*l, o@),
    ensures
        final(s)@ == old(s)@ + title_text(o@, geometry(o@)),
{
    if !o.title.as_str().is_empty() {
        let ghost s0 = s@;
        push_str(s, "<text x=\"");
        push_len(s, l.mid);
        push_str(s, "\" y=\"21\" text-anchor=\"middle\" fill=\"");
        let f = paint(Color::Default, "fg", o.literal.as_ref());
        push_str(s, f.as_str());
        push_str(s, "\" opacity=\".55\" font-size=\"");
        push_len(s, o.font_size.micros as i128 * 85);
        push_str(s, "px\">");
        push_escaped(s, o.title.as_str());
        push_str(s, "</text>");
        assert(s@ =~= s0 + title_text(o@, geometry(o@)));
    }
}

fn push_chrome_bar(s: &mut String, o: &RenderOpts, l: &Layout)
    requires
        laid_out(*l, o@),
    ensures
        final(s)@ == old(s)@ + chrome_bar_text(o@, geometry(o@)),
{
    let ghost s0 = s@;
    push_bar(s, o, l);
    push_bar_line(s, o, l);
    push_circles(s, o);
    push_title(s, o, l);
    assert(s@ =~= s0 + chrome_bar_text(o@, geometry(o@)));
}

fn push_clip_def(s: &mut String, l: &Layout, Ghost(o): Ghost<RenderOptsView>)
    requires
        laid_out(*l, o),
    ensures
        final(s)@ == old(s)@ + clip_def_text(o, geometry(o)),
{
    let ghost s0 = s@;
    push_str(s, "<defs><clipPath id=\"tsclip\"><rect x=\"");
    push_len(s, l.pad);
    push_str(s, "\" y=\"");
    push_len(s, l.top);
    push_str(s, "\" width=\"");
    push_len(s, l.content_w);
    push_str(s, "\" height=\"");
    push_len(s, l.content_h);
    push_str(s, "\"/></clipPath></defs>");
    assert(s@ =~= s0 + clip_def_text(o, geometry(o)));
}

fn push_groups(s: &mut String, l: &Layout, Ghost(o): Ghost<RenderOptsView>)
    requires
        laid_out(*l, o),
    ensures
        final(s)@ == old(s)@ + groups_text(o, geometry(o)),
{
    let ghost s0 = s@;
    push_str(s, "<g clip-path=\"url(#tsclip)\"><g transform=\"translate(");
    push_len(s, l.pad);
    push_char(s, ',');
    push_len(s, l.top);
    push_str(s, ")\"><g class=\"s\">");
    assert(s@ =~= s0 + groups_text(o, geometry(o)));
}

fn push_clip(s: &mut String, o: &RenderOpts, l: &Layout)
    requires
        laid_out(*l, o@),
    ensures
        final(s)@ == old(s)@ + clip_text(o@, geometry(o@)),
{
    let ghost s0 = s@;
    push_clip_def(s, l, Ghost(o@));
    push_groups(s, l, Ghost(o@));
    assert(s@ =~= s0 + clip_text(o@, geometry(o@)));
}

#[verifier::spinoff_prover]
#[verifier::rlimit(40)]
fn push_placed_frame(s: &mut String, frame: &crate::term::frame::Frame, i: usize, o: &RenderOpts, l: &Layout)
    requires
        laid_out(*l, o@),
    ensures
        final(s)@ == old(s)@ + placed_frame_text(frame@, i as int, o@, geometry(o@)),
{
    let ghost s0 = s@;
    push_str(s, "<g transform=\"translate(0,");
    push_len_at(s, i as u64, l.content_h, 0);
    push_str(s, ")\">");
    emit_frame(s, frame, o, l.baseline);
    push_str(s, "</g>");
    proof {
        reveal(placed_frame_text);
    }
    assert(s@ =~= s0 + placed_frame_text(frame@, i as int, o@, geometry(o@)));
}

fn push_frames(s: &mut String, tl: &Timeline, o: &RenderOpts, l: &Layout)
    requires
        laid_out(*l, o@),
    ensures
        final(s)@ == old(s)@ + frames_text(tl@.frames, o@, geometry(o@)),
{
    let ghost v = tl@.frames;
    let ghost g = geometry(o@);
    let mut i: usize = 0;
    while i < tl.frames.len()
        invariant
            i <= tl.frames.len(),
            v == tl@.frames,
                laid_out(*l, o@),
            g == geometry(o@),
            s@ == old(s)@ + frames_text(v.take(i as int), o@, g),
        decreases tl.frames.len() - i,
    {
        push_placed_frame(s, &tl.frames[i], i, o, l);
        assert(v.take(i + 1).drop_last() == v.take(i as int));
        i = i + 1;
    }
    assert(v.take(tl.frames.len() as int) == v);
}

fn push_border(s: &mut String, o: &RenderOpts, l: &Layout)
    requires
        laid_out(*l, o@),
    ensures
        final(s)@ == old(s)@ + border_text(o@, geometry(o@)),
{
    if o.theme.has_border() {
        let ghost s0 = s@;
        push_str(s, "<rect x=\"0.5\" y=\"0.5\" width=\"");
        push_len(s, l.width - 100_000_000);
        push_str(s, "\" height=\"");
        push_len(s, l.height - 100_000_000);
        push_str(s, "\" rx=\"");
        push_corner(s, o);
        push_str(s, "\" fill=\"none\" stroke=\"");
        push_slot_border(s, o);
        push_str(s, "\"/>");
        assert(s@ =~= s0 + border_text(o@, geometry(o@)));
    }
}

/// Draws a timeline as one animated SVG, as [`render_text`] says: a strip of
/// frames, one under the other, that a CSS animation scrolls through at the
/// times the frames start.
pub fn render(tl: &Timeline, o: &RenderOpts) -> (out: String)
    ensures
        out@ == render_text(tl@, o@),
{
    let l = layout(o);
    let mut s = String::new();
    push_head(&mut s, o, &l);
    push_style(&mut s, tl, o, &l);
    push_background(&mut s, o, &l);
    let ghost s1 = s@;
    if o.window {
        push_chrome_bar(&mut s, o, &l);
    }
    let ghost s2 = s@;
    push_clip(&mut s, o, &l);
    push_frames(&mut s, tl, o, &l);
    push_str(&mut s, "</g></g></g>");
    push_border(&mut s, o, &l);
    push_str(&mut s, "</svg>");
    assert(s@ =~= render_text(tl@, o@));
    s
}

/// Whether `needle` stands somewhere in `hay`.
pub open spec fn shows(hay: Seq<char>, needle: Seq<char>) -> bool {
    exists|i: int| 0 <= i && i + needle.len() <= hay.len() && #[trigger] hay.subrange(i, i + needle.len()) == needle
}

proof fn lemma_shows_around(a: Seq<char>, b: Seq<char>, c: Seq<char>, needle: Seq<char>)
    requires
        shows(b, needle),
    ensures
        shows(a + b + c, needle),
{
    let i = choose|i: int| 0 <= i && i + needle.len() <= b.len() && #[trigger] b.subrange(i, i + needle.len()) == needle;
    let h = a + b + c;
    let k = a.len() + i;
    assert(h.subrange(k, k + needle.len()) =~= b.subrange(i, i + needle.len()));
}

proof fn lemma_shows_end(a: Seq<char>, needle: Seq<char>)
    ensures
        shows(a + needle, needle),
{
    let h = a + needle;
    assert(h.subrange(a.len() as int, a.len() + needle.len() as int) =~= needle);
}

/// The rule that plays the animation: over the whole recording, forever or
/// once.
pub open spec fn loop_rule(tl: TimelineView, forever: bool) -> Seq<char> {
    ".s{animation:tsroll "@ + fixed_text(round_div(tl.total as int, 10_000_000), 2) + if forever {
        "s step-end infinite}"@
    } else {
        "s step-end 1 forwards}"@
    }
}

#[verifier::spinoff_prover]
proof fn lemma_animation_shows(tl: TimelineView, o: RenderOptsView, g: Geometry)
    requires
        tl.frames.len() > 1,
    ensures
        shows(animation_text(tl, o, g), loop_rule(tl, o.loop_forever)),
{
    reveal_strlit("s step-end infinite}");
    reveal_strlit("s step-end 1 forwards}");
    reveal_strlit("s step-end ");
    reveal_strlit("infinite");
    reveal_strlit("1 forwards");
    let t = fixed_text(round_div(tl.total as int, 10_000_000), 2);
    let rep = if o.loop_forever {
        "infinite"@
    } else {
        "1 forwards"@
    };
    let end = if o.loop_forever {
        "s step-end infinite}"@
    } else {
        "s step-end 1 forwards}"@
    };
    assert(end =~= "s step-end "@ + rep + seq!['}']);
    let needle = loop_rule(tl, o.loop_forever);
    assert(needle == ".s{animation:tsroll "@ + t + end);
    let k = keyframes_text(tl, g.content_h);
    assert(animation_text(tl, o, g) =~= k + needle);
    lemma_shows_end(k, needle);
}

#[verifier::spinoff_prover]
proof fn lemma_style_shows(tl: TimelineView, o: RenderOptsView, g: Geometry, needle: Seq<char>)
    requires
        shows(animation_text(tl, o, g), needle),
    ensures
        shows(style_text(tl, o, g), needle),
{
    let st_pre = "<style>"@ + palette_rules_text(o) + "text{white-space:pre;font-variant-ligatures:none}"@
        + ".b{font-weight:700}.i{font-style:italic}.u{text-decoration:underline}"@ + ".cur{fill:"@
        + cursor_paint_text(o) + ";opacity:.7}"@;
    assert(style_text(tl, o, g) == st_pre + animation_text(tl, o, g) + "</style>"@);
    lemma_shows_around(st_pre, animation_text(tl, o, g), "</style>"@, needle);
}

/// A picture of more than one frame loops forever exactly as asked: its
/// animation rule, which lasts the whole recording, ends in `infinite` when
/// the recording loops and in `1 forwards` (play once and stay on the last
/// frame) when it does not.
#[verifier::spinoff_prover]
pub proof fn law_render_loops(tl: TimelineView, o: RenderOptsView)
    requires
        tl.frames.len() > 1,
    ensures
        o.loop_forever ==> shows(
            render_text(tl, o),
            ".s{animation:tsroll "@ + fixed_text(round_div(tl.total as int, 10_000_000), 2)
                + "s step-end infinite}"@,
        ),
        !o.loop_forever ==> shows(
            render_text(tl, o),
            ".s{animation:tsroll "@ + fixed_text(round_div(tl.total as int, 10_000_000), 2)
                + "s step-end 1 forwards}"@,
        ),
{
    let g = geometry(o);
    let needle = loop_rule(tl, o.loop_forever);
    lemma_animation_shows(tl, o, g);
    lemma_style_shows(tl, o, g, needle);
    lemma_render_shows(tl, o, needle);
}

proof fn lemma_shows_before(a: Seq<char>, b: Seq<char>, needle: Seq<char>)
    requires
        shows(a, needle),
    ensures
        shows(a + b, needle),
{
    lemma_shows_around(Seq::empty(), a, b, needle);
    assert(Seq::<char>::empty() + a + b =~= a + b);
}

#[verifier::spinoff_prover]
#[verifier::rlimit(60)]
proof fn lemma_render_shows(tl: TimelineView, o: RenderOptsView, needle: Seq<char>)
    requires
        shows(style_text(tl, o, geometry(o)), needle),
    ensures
        shows(render_text(tl, o), needle),
{
    let g = geometry(o);
    let h = head_text(o, g);
    let st = style_text(tl, o, g);
    lemma_shows_around(h, st, Seq::empty(), needle);
    assert(h + st + Seq::<char>::empty() =~= h + st);
    let a1 = h + st;
    let a2 = a1 + background_text(o, g);
    lemma_shows_before(a1, background_text(o, g), needle);
    let w = if o.window {
        chrome_bar_text(o, g)
    } else {
        Seq::empty()
    };
    let a3 = a2 + w;
    lemma_shows_before(a2, w, needle);
    let a4 = a3 + clip_text(o, g);
    lemma_shows_before(a3, clip_text(o, g), needle);
    let a5 = a4 + frames_text(tl.frames, o, g);
    lemma_shows_before(a4, frames_text(tl.frames, o, g), needle);
    let a6 = a5 + "</g></g></g>"@;
    lemma_shows_before(a5, "</g></g></g>"@, needle);
    let a7 = a6 + border_text(o, g);
    lemma_shows_before(a6, border_text(o, g), needle);
    let a8 = a7 + "</svg>"@;
    lemma_shows_before(a7, "</svg>"@, needle);
    assert(render_text(tl, o) == a8);
}

} // verus!
