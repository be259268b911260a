use vstd::prelude::*;

use crate::chars::{
    chars_of, digit_char, push_char, push_str, push_uint, string_of, trim_end, trimmed, uint_text,
};
use crate::number::Decimal;
use crate::optimize::{optimize, raw_view, timeline_of, Options, OptionsView, Timeline, TimelineView};
use crate::paths::{
    extension, file_stem, path_extension, path_stem, path_with_extension, path_with_file_name,
    with_extension, with_file_name,
};
use crate::svg::theme::Theme;
use crate::svg::{with_metrics_of, RenderOpts, RenderOptsView};
use crate::tape::{Config, ConfigView};
use crate::term::frame::{Frame, FrameView, Run, RunView};
use crate::time::Duration;

verus! {

broadcast use vstd::string::group_string_axioms;

/// How a recording's settings turn its frames into a timeline: their idle
/// limit, tail and speed, with the default step and shortest frame.
pub open spec fn timeline_options(c: ConfigView) -> OptionsView {
    OptionsView {
        trim_idle: c.trim_idle,
        quantize: 30_000_000,
        min_frame: 30_000_000,
        tail: c.tail,
        speed: c.speed,
    }
}

/// The timeline of a recording, as [`timeline_of`] says with the settings'
/// options.
pub fn timeline(raw: &[(Duration, Frame)], cfg: &Config) -> (tl: Timeline)
    ensures
        tl@ == timeline_of(raw_view(raw@), timeline_options(cfg@)),
{
    let d = Options::default();
    let o = Options {
        trim_idle: cfg.trim_idle,
        tail: cfg.tail,
        speed: cfg.speed,
        quantize: d.quantize,
        min_frame: d.min_frame,
    };
    optimize(raw, &o)
}

/// How a recording's settings are drawn with a theme.
pub open spec fn opts_of(c: ConfigView, t: crate::svg::theme::ThemeView) -> RenderOptsView {
    with_metrics_of(
        RenderOptsView {
            literal: None,
            theme: t,
            font_family: c.font_family,
            font_size: c.font_size,
            advance: c.advance,
            line_height: c.line_height,
            padding: c.padding,
            window: c.window,
            title: c.title,
            cols: c.cols,
            rows: c.rows,
            loop_forever: c.loop_forever,
        },
    )
}

/// The drawing options of a recording's settings, as [`opts_of`] says.
pub fn opts(cfg: &Config, theme: Theme) -> (o: RenderOpts)
    ensures
        o@ == opts_of(cfg@, theme@),
{
    let o = RenderOpts {
        theme,
        font_family: cfg.font_family.clone(),
        font_size: cfg.font_size,
        advance: cfg.advance,
        line_height: cfg.line_height,
        padding: cfg.padding,
        window: cfg.window,
        title: cfg.title.clone(),
        cols: cfg.cols,
        rows: cfg.rows,
        loop_forever: cfg.loop_forever,
        literal: None,
    };
    o.with_metrics()
}

/// A row's text on one line: each run at its column, spaces filling the gaps
/// before runs.
pub open spec fn line_of(runs: Seq<RunView>) -> Seq<char>
    decreases runs.len(),
{
    if runs.len() == 0 {
        Seq::empty()
    } else {
        let before = line_of(runs.drop_last());
        let r = runs.last();
        let pad = if r.col > before.len() {
            Seq::new((r.col - before.len()) as nat, |i: int| ' ')
        } else {
            Seq::empty()
        };
        before + pad + r.text
    }
}

/// A row as plain text: cut to `cols` characters, trailing spaces dropped.
pub open spec fn row_plain(runs: Seq<RunView>, cols: nat) -> Seq<char> {
    let l = line_of(runs);
    trim_end(
        if l.len() > cols {
            l.take(cols as int)
        } else {
            l
        },
    )
}

pub open spec fn rows_plain(rows: Seq<Seq<RunView>>, cols: nat) -> Seq<char>
    decreases rows.len(),
{
    if rows.len() == 0 {
        Seq::empty()
    } else {
        rows_plain(rows.drop_last(), cols) + row_plain(rows.last(), cols) + seq!['\n']
    }
}

/// `s` with its trailing empty lines dropped, one line end kept.
pub open spec fn without_blank_tail(s: Seq<char>) -> Seq<char>
    decreases s.len(),
{
    if s.len() >= 2 && s[s.len() - 1] == '\n' && s[s.len() - 2] == '\n' {
        without_blank_tail(s.drop_last())
    } else {
        s
    }
}

/// A frame as plain text: each row on its own line, cut to `cols` columns,
/// with trailing spaces and trailing empty lines dropped.
pub open spec fn plain_text(f: FrameView, cols: nat) -> Seq<char> {
    without_blank_tail(rows_plain(f.rows, cols))
}

fn row_line(runs: &Vec<Run>, cols: u16) -> (out: Vec<char>)
    ensures
        out@ == row_plain(runs@.map_values(|r: Run| r@), cols as nat),
{
    let ghost v = runs@.map_values(|r: Run| r@);
    let mut line: Vec<char> = Vec::new();
    let mut i: usize = 0;
    while i < runs.len()
        invariant
            i <= runs.len(),
            v == runs@.map_values(|r: Run| r@),
            line@ == line_of(v.take(i as int)),
        decreases runs.len() - i,
    {
        let col = runs[i].col as usize;
        let ghost before = line@;
        while line.len() < col
            invariant
                before.len() <= line@.len() <= if col > before.len() {
                    col as int
                } else {
                    before.len() as int
                },
                line@ == before + Seq::new((line@.len() - before.len()) as nat, |k: int| ' '),
            decreases col - line.len(),
        {
            line.push(' ');
            assert(Seq::new((line@.len() - before.len()) as nat, |k: int| ' ') =~= Seq::new(
                (line@.len() - 1 - before.len()) as nat,
                |k: int| ' ',
            ).push(' '));
        }
        let ghost padded = line@;
        let t = chars_of(runs[i].text.as_str());
        let mut k: usize = 0;
        while k < t.len()
            invariant
                k <= t.len(),
                line@ == padded + t@.take(k as int),
            decreases t.len() - k,
        {
            line.push(t[k]);
            assert(t@.take(k + 1) == t@.take(k as int).push(t@[k as int]));
            k = k + 1;
        }
        assert(t@.take(t.len() as int) == t@);
        assert(v.take(i + 1).drop_last() == v.take(i as int));
        proof {
            if col > before.len() {
                assert(line@ =~= before + Seq::new((col - before.len()) as nat, |k: int| ' ') + v[i as int].text);
            } else {
                assert(line@ =~= before + Seq::<char>::empty() + v[i as int].text);
            }
        }
        i = i + 1;
    }
    assert(v.take(runs.len() as int) == v);
    let n = cols as usize;
    let cut = if line.len() > n {
        crate::chars::slice_of(line.as_slice(), 0, n)
    } else {
        line
    };
    assert(line_of(v).len() > cols ==> cut@ == line_of(v).take(cols as int));
    let mut end = cut.len();
    assert(cut@.take(end as int) == cut@);
    while end > 0 && crate::chars::is_whitespace(cut[end - 1])
        invariant
            end <= cut@.len(),
            trim_end(cut@) == trim_end(cut@.take(end as int)),
        decreases end,
    {
        assert(cut@.take(end as int).drop_last() == cut@.take(end - 1));
        end = end - 1;
    }
    assert(trim_end(cut@.take(end as int)) == cut@.take(end as int));
    crate::chars::slice_of(cut.as_slice(), 0, end)
}

/// A frame as plain text, as [`plain_text`] says.
pub fn plain(frame: &Frame, cols: u16) -> (out: String)
    ensures
        out@ == plain_text(frame@, cols as nat),
{
    let ghost rows = frame@.rows;
    let mut all: Vec<char> = Vec::new();
    let mut i: usize = 0;
    while i < frame.rows.len()
        invariant
            i <= frame.rows.len(),
            rows == frame@.rows,
            all@ == rows_plain(rows.take(i as int), cols as nat),
        decreases frame.rows.len() - i,
    {
        let line = row_line(&frame.rows[i].runs, cols);
        let ghost before = all@;
        let mut k: usize = 0;
        while k < line.len()
            invariant
                k <= line.len(),
                all@ == before + line@.take(k as int),
            decreases line.len() - k,
        {
            all.push(line[k]);
            assert(line@.take(k + 1) == line@.take(k as int).push(line@[k as int]));
            k = k + 1;
        }
        all.push('\n');
        assert(line@.take(line.len() as int) == line@);
        assert(rows.take(i + 1).drop_last() == rows.take(i as int));
        assert(rows[i as int] == frame.rows@[i as int]@);
        i = i + 1;
    }
    assert(rows.take(frame.rows.len() as int) == rows);
    let ghost full = all@;
    while all.len() >= 2 && all[all.len() - 1] == '\n' && all[all.len() - 2] == '\n'
        invariant
            without_blank_tail(full) == without_blank_tail(all@),
        decreases all.len(),
    {
        all.pop();
    }
    string_of(all.as_slice())
}

/// A file name beside `path`: the stem with `-tag` after it, and the same
/// extension; `out` where the path names no file.
pub open spec fn beside_path(path: Seq<char>, tag: Seq<char>) -> Seq<char> {
    let ext = match path_extension(path) {
        Some(e) => e,
        None => Seq::empty(),
    };
    let stem = match path_stem(path) {
        Some(s) => s,
        None => "out"@,
    };
    let name = if ext.len() == 0 {
        stem + seq!['-'] + tag
    } else {
        stem + seq!['-'] + tag + seq!['.'] + ext
    };
    path_with_file_name(path, name)
}

/// Where the picture of a saved capture goes when no output is given: the
/// capture's path with an `svg` extension.
pub fn svg_path(capture: &str) -> (out: String)
    ensures
        out@ == path_with_extension(capture@, "svg"@),
{
    proof {
        reveal_strlit("svg");
        assert(!"svg"@.contains('/'));
        assert(!"svg"@.contains('\\'));
    }
    with_extension(capture, "svg")
}

/// A path beside `path`, as [`beside_path`] says.
pub fn beside(path: &str, tag: &str) -> (out: String)
    ensures
        out@ == beside_path(path@, tag@),
{
    let ext = match extension(path) {
        Some(e) => e,
        None => String::new(),
    };
    let stem = match file_stem(path) {
        Some(s) => s,
        None => "out".to_owned(),
    };
    proof {
        reveal_strlit("out");
    }
    let ghost e = ext@;
    let ghost st = stem@;
    let mut name = stem;
    push_char(&mut name, '-');
    push_str(&mut name, tag);
    if !ext.as_str().is_empty() {
        push_char(&mut name, '.');
        push_str(&mut name, ext.as_str());
        assert(name@ =~= st + seq!['-'] + tag@ + seq!['.'] + e);
    } else {
        assert(name@ =~= st + seq!['-'] + tag@);
    }
    with_file_name(path, name.as_str())
}

/// `x / d` rounded to the nearest whole number, a tie to the even one.
pub open spec fn round_even(x: nat, d: nat) -> nat {
    let q = x / d;
    let r = x % d;
    if 2 * r > d || (2 * r == d && q % 2 == 1) {
        q + 1
    } else {
        q
    }
}

/// `tenths` written with one decimal.
pub open spec fn tenths_text(tenths: nat) -> Seq<char> {
    uint_text(tenths / 10) + seq!['.', digit_char(tenths % 10)]
}

/// A size for people: bytes below a kilobyte, then kilobytes and megabytes
/// to the tenth, a tie rounded to the even tenth.
pub open spec fn human_size_text(bytes: nat) -> Seq<char> {
    if bytes < 1024 {
        uint_text(bytes) + " B"@
    } else if bytes < 1024 * 1024 {
        tenths_text(round_even(bytes * 10, 1024)) + " KB"@
    } else {
        tenths_text(round_even(bytes * 10, 1024 * 1024)) + " MB"@
    }
}

fn round_even_exec(x: u128, d: u128) -> (r: u128)
    requires
        0 < d <= 0x1_0000_0000_0000_0000,
        x < 0x1_0000_0000_0000_0000_0000,
    ensures
        r == round_even(x as nat, d as nat),
{
    let q = x / d;
    let rem = x % d;
    if 2 * rem > d || (2 * rem == d && q % 2 == 1) {
        q + 1
    } else {
        q
    }
}

fn push_tenths(s: &mut String, t: u128)
    requires
        t < 0x1_0000_0000_0000_0000_0000,
    ensures
        final(s)@ == old(s)@ + tenths_text(t as nat),
{
    crate::chars::push_wide_uint(s, t / 10);
    push_char(s, '.');
    push_char(s, (((t % 10) as u8) + 48) as char);
}

/// A size for people, as [`human_size_text`] says.
pub fn human_size(bytes: usize) -> (out: String)
    ensures
        out@ == human_size_text(bytes as nat),
{
    let mut out = String::new();
    let b = bytes as u128;
    if b < 1024 {
        crate::chars::push_wide_uint(&mut out, b);
        push_str(&mut out, " B");
    } else if b < 1024 * 1024 {
        let t = round_even_exec(b * 10, 1024);
        push_tenths(&mut out, t);
        push_str(&mut out, " KB");
    } else {
        let t = round_even_exec(b * 10, 1024 * 1024);
        push_tenths(&mut out, t);
        push_str(&mut out, " MB");
    }
    out
}

/// Adds the privacy options of a command line to settings: its patterns
/// after the settings' own, and sanitizing switched on where asked for.
pub fn merge_privacy(cfg: &mut Config, redact: &[String], sanitize: bool)
    ensures
        final(cfg)@ == (ConfigView {
            redact: old(cfg)@.redact + crate::tape::strings_view(redact@),
            sanitize: old(cfg)@.sanitize || sanitize,
            ..old(cfg)@
        }),
{
    let ghost before = cfg@.redact;
    let mut i: usize = 0;
    while i < redact.len()
        invariant
            i <= redact.len(),
            before == old(cfg)@.redact,
            cfg@ == (ConfigView {
                redact: before + crate::tape::strings_view(redact@.take(i as int)),
                ..old(cfg)@
            }),
        decreases redact.len() - i,
    {
        let x = redact[i].clone();
        let ghost r0 = cfg.redact@;
        cfg.redact.push(x);
        assert(cfg.redact@ == r0.push(x));
        assert(crate::tape::strings_view(cfg.redact@) =~= crate::tape::strings_view(r0).push(x@));
        assert(crate::tape::strings_view(redact@.take(i + 1)) =~= crate::tape::strings_view(
            redact@.take(i as int),
        ).push(redact@[i as int]@));
        assert(cfg@.redact =~= before + crate::tape::strings_view(redact@.take(i + 1)));
        i = i + 1;
    }
    assert(redact@.take(redact.len() as int) == redact@);
    if sanitize {
        cfg.sanitize = true;
    }
}

/// Changes asked for when a saved recording is rendered again: each setting
/// given replaces the recorded one, and the window and loop switches turn
/// their setting on or off.
pub struct Restyle {
    pub theme: Option<String>,
    pub font: Option<String>,
    pub font_size: Option<Decimal>,
    pub advance: Option<Decimal>,
    pub line_height: Option<Decimal>,
    pub padding: Option<Decimal>,
    pub trim_idle: Option<Option<Duration>>,
    pub speed: Option<Decimal>,
    pub tail: Option<Duration>,
    pub title: Option<String>,
    pub window: bool,
    pub no_window: bool,
    pub no_loop: bool,
}

pub struct RestyleView {
    pub theme: Option<Seq<char>>,
    pub font: Option<Seq<char>>,
    pub font_size: Option<int>,
    pub advance: Option<int>,
    pub line_height: Option<int>,
    pub padding: Option<int>,
    pub trim_idle: Option<Option<nat>>,
    pub speed: Option<int>,
    pub tail: Option<nat>,
    pub title: Option<Seq<char>>,
    pub window: bool,
    pub no_window: bool,
    pub no_loop: bool,
}

pub open spec fn text_opt(v: Option<String>) -> Option<Seq<char>> {
    match v {
        Some(t) => Some(t@),
        None => None,
    }
}

pub open spec fn number_opt(v: Option<Decimal>) -> Option<int> {
    match v {
        Some(d) => Some(d@),
        None => None,
    }
}

impl View for Restyle {
    type V = RestyleView;

    open spec fn view(&self) -> RestyleView {
        RestyleView {
            theme: text_opt(self.theme),
            font: text_opt(self.font),
            font_size: number_opt(self.font_size),
            advance: number_opt(self.advance),
            line_height: number_opt(self.line_height),
            padding: number_opt(self.padding),
            trim_idle: match self.trim_idle {
                Some(Some(d)) => Some(Some(d@)),
                Some(None) => Some(None),
                None => None,
            },
            speed: number_opt(self.speed),
            tail: match self.tail {
                Some(d) => Some(d@),
                None => None,
            },
            title: text_opt(self.title),
            window: self.window,
            no_window: self.no_window,
            no_loop: self.no_loop,
        }
    }
}

/// `v` where it is given, `keep` otherwise.
pub open spec fn given<T>(v: Option<T>, keep: T) -> T {
    match v {
        Some(x) => x,
        None => keep,
    }
}

/// Recorded settings with a restyle applied: every given value replaces the
/// recorded one; the window is on where asked for, then off where asked for;
/// looping is off where asked for.
pub open spec fn restyled(c: ConfigView, r: RestyleView) -> ConfigView {
    ConfigView {
        theme: given(r.theme, c.theme),
        font_family: given(r.font, c.font_family),
        font_size: given(r.font_size, c.font_size),
        advance: given(r.advance, c.advance),
        line_height: given(r.line_height, c.line_height),
        padding: given(r.padding, c.padding),
        trim_idle: given(r.trim_idle, c.trim_idle),
        speed: given(r.speed, c.speed),
        tail: given(r.tail, c.tail),
        title: given(r.title, c.title),
        window: if r.no_window {
            false
        } else if r.window {
            true
        } else {
            c.window
        },
        loop_forever: if r.no_loop {
            false
        } else {
            c.loop_forever
        },
        ..c
    }
}

fn given_text(v: &Option<String>, keep: &mut String)
    ensures
        final(keep)@ == given(text_opt(*v), old(keep)@),
{
    if let Some(t) = v {
        *keep = t.clone();
    }
}

fn given_number(v: &Option<Decimal>, keep: &mut Decimal)
    ensures
        final(keep)@ == given(number_opt(*v), old(keep)@),
{
    if let Some(d) = v {
        *keep = *d;
    }
}

/// Applies a restyle to recorded settings, as [`restyled`] says.
pub fn restyle(cfg: &mut Config, r: &Restyle)
    ensures
        final(cfg)@ == restyled(old(cfg)@, r@),
{
    given_text(&r.theme, &mut cfg.theme);
    given_text(&r.font, &mut cfg.font_family);
    given_number(&r.font_size, &mut cfg.font_size);
    given_number(&r.advance, &mut cfg.advance);
    given_number(&r.line_height, &mut cfg.line_height);
    given_number(&r.padding, &mut cfg.padding);
    if let Some(t) = &r.trim_idle {
        cfg.trim_idle = *t;
    }
    given_number(&r.speed, &mut cfg.speed);
    if let Some(t) = &r.tail {
        cfg.tail = *t;
    }
    given_text(&r.title, &mut cfg.title);
    if r.window {
        cfg.window = true;
    }
    if r.no_window {
        cfg.window = false;
    }
    if r.no_loop {
        cfg.loop_forever = false;
    }
}

/// A restyle that changes nothing leaves the recorded settings as they were,
/// so rendering a capture again with no options uses the settings it was
/// recorded with.
pub proof fn law_no_restyle_no_change(c: ConfigView)
    ensures
        restyled(
            c,
            RestyleView {
                theme: None,
                font: None,
                font_size: None,
                advance: None,
                line_height: None,
                padding: None,
                trim_idle: None,
                speed: None,
                tail: None,
                title: None,
                window: false,
                no_window: false,
                no_loop: false,
            },
        ) == c,
{
}

/// The kinds of bitmap a recording can also be written as.
#[derive(Clone, Copy, PartialEq, Eq, Structural, Debug)]
pub enum Kind {
    Png,
    Gif,
    Webp,
    Apng,
}

impl Kind {
    /// Whether the kind holds every frame rather than one.
    pub fn animated(self) -> (b: bool)
        ensures
            b == !(self is Png),
    {
        match self {
            Kind::Png => false,
            _ => true,
        }
    }
}

/// One bitmap to write: where, of which kind, and in which palette.
#[derive(Clone, Debug)]
pub struct Job {
    pub path: String,
    pub kind: Kind,
    pub light: bool,
}

/// The bitmaps asked for of one kind: the one named, in the palette asked
/// for, and beside it the other palette where both are wanted.
pub open spec fn kind_jobs(target: Option<Seq<char>>, kind: Kind, light: bool, also_light: bool) -> Seq<
    (Seq<char>, Kind, bool),
> {
    match target {
        Some(p) => if also_light {
            seq![(p, kind, light), (beside_path(p, "light"@), kind, !light)]
        } else {
            seq![(p, kind, light)]
        },
        None => Seq::empty(),
    }
}

pub open spec fn jobs_view(v: Seq<Job>) -> Seq<(Seq<char>, Kind, bool)> {
    v.map_values(|j: Job| (j.path@, j.kind, j.light))
}

fn add_jobs(out: Vec<Job>, target: &Option<String>, kind: Kind, light: bool, also_light: bool) -> (r: Vec<Job>)
    ensures
        jobs_view(r@) == jobs_view(out@) + kind_jobs(
            match target {
                Some(p) => Some(p@),
                None => None,
            },
            kind,
            light,
            also_light,
        ),
{
    let mut out = out;
    let ghost before = jobs_view(out@);
    match target {
        Some(p) => {
            let a = Job { path: p.clone(), kind, light };
            out.push(a);
            assert(jobs_view(out@) =~= before.push((p@, kind, light)));
            if also_light {
                let ghost mid = jobs_view(out@);
                let b = Job { path: beside(p.as_str(), "light"), kind, light: !light };
                let ghost bp = b.path@;
                out.push(b);
                assert(jobs_view(out@) =~= mid.push((bp, kind, !light)));
            }
            assert(jobs_view(out@) =~= before + kind_jobs(Some(p@), kind, light, also_light));
        },
        None => {
            assert(jobs_view(out@) =~= before + Seq::<(Seq<char>, Kind, bool)>::empty());
        },
    }
    out
}

pub open spec fn opt_view(o: Option<String>) -> Option<Seq<char>> {
    match o {
        Some(p) => Some(p@),
        None => None,
    }
}

/// The bitmaps to write, PNG, GIF, WebP then APNG, as [`kind_jobs`] says of
/// each.
pub fn raster_jobs(
    png: &Option<String>,
    gif: &Option<String>,
    webp: &Option<String>,
    apng: &Option<String>,
    light: bool,
    also_light: bool,
) -> (jobs: Vec<Job>)
    ensures
        jobs_view(jobs@) == kind_jobs(opt_view(*png), Kind::Png, light, also_light) + kind_jobs(
            opt_view(*gif),
            Kind::Gif,
            light,
            also_light,
        ) + kind_jobs(opt_view(*webp), Kind::Webp, light, also_light) + kind_jobs(
            opt_view(*apng),
            Kind::Apng,
            light,
            also_light,
        ),
{
    let out: Vec<Job> = Vec::new();
    assert(jobs_view(out@) =~= Seq::<(Seq<char>, Kind, bool)>::empty());
    let out = add_jobs(out, png, Kind::Png, light, also_light);
    let out = add_jobs(out, gif, Kind::Gif, light, also_light);
    let out = add_jobs(out, webp, Kind::Webp, light, also_light);
    let out = add_jobs(out, apng, Kind::Apng, light, also_light);
    assert(jobs_view(out@) =~= kind_jobs(opt_view(*png), Kind::Png, light, also_light) + kind_jobs(
        opt_view(*gif),
        Kind::Gif,
        light,
        also_light,
    ) + kind_jobs(opt_view(*webp), Kind::Webp, light, also_light) + kind_jobs(
        opt_view(*apng),
        Kind::Apng,
        light,
        also_light,
    ));
    out
}

/// A capture made without redaction rules holds the settings it was made
/// with, so drawing it again with nothing changed gives the picture the
/// recording gave live, character for character, wherever the recording was
/// taken at whole milliseconds.
pub proof fn law_render_again_is_the_same(
    command: Seq<Seq<char>>,
    config: ConfigView,
    raw: Seq<(nat, FrameView)>,
    theme: crate::svg::theme::ThemeView,
)
    requires
        crate::session::whole_millis(raw),
    ensures
        ({
            let cap = crate::session::capture_of(command, config, raw, Seq::empty());
            crate::svg::render_text(
                timeline_of(crate::session::replayed(cap.shots), timeline_options(cap.config)),
                opts_of(cap.config, theme),
            )
        }) == crate::svg::render_text(timeline_of(raw, timeline_options(config)), opts_of(config, theme)),
{
    let none = Seq::<crate::redact::RuleView>::empty();
    let cap = crate::session::capture_of(command, config, raw, none);
    crate::session::law_replay_matches_live(command, config, raw, none, timeline_options(config));
    let r = crate::session::shots_redacted(raw, none);
    assert forall|i: int| 0 <= i < raw.len() implies #[trigger] r[i] == raw[i] by {
        crate::redact::law_no_rules_no_change(raw[i].1, Seq::empty());
    }
    assert(r =~= raw);
    crate::redact::law_no_rules_no_change(crate::term::frame::FrameView { rows: Seq::empty(), cursor: None }, config.title);
    crate::redact::law_no_rules_no_change(crate::term::frame::FrameView { rows: Seq::empty(), cursor: None }, config.output);
    match config.shell {
        Some(ws) => {
            assert forall|k: int| 0 <= k < ws.len() implies #[trigger] crate::redact::redacted(none, ws[k]) == ws[k] by {
                crate::redact::law_no_rules_no_change(crate::term::frame::FrameView { rows: Seq::empty(), cursor: None }, ws[k]);
            }
            assert(ws.map_values(|s: Seq<char>| crate::redact::redacted(none, s)) =~= ws);
        },
        None => {},
    }
    assert(cap.config == config);
}

} // verus!
