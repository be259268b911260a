use vstd::prelude::*;

use crate::chars::{chars_of, push_all, push_char, push_str, push_uint, push_wide_uint, uint_text};
use crate::number::{push_rounded, rounded_text};
use crate::tape::{
    default_config, ops_view, strings_view, Config, ConfigView, Key, Op, OpView, DEFAULT_FONT,
};
use crate::time::Duration;

verus! {

broadcast use vstd::string::group_string_axioms;

/// `c`, with a backslash before it where it is a double quote or a backslash.
pub open spec fn escaped_char(c: char) -> Seq<char> {
    if c == '"' || c == '\\' {
        seq!['\\', c]
    } else {
        seq![c]
    }
}

pub open spec fn escaped(v: Seq<char>) -> Seq<char>
    decreases v.len(),
{
    if v.len() == 0 {
        Seq::empty()
    } else {
        escaped(v.drop_last()) + escaped_char(v.last())
    }
}

/// `v` in double quotes, with its double quotes and backslashes escaped.
pub open spec fn quoted_text(v: Seq<char>) -> Seq<char> {
    seq!['"'] + escaped(v) + seq!['"']
}

/// A span as a person would write it: whole seconds as `2s`, anything else in
/// whole milliseconds as `2500ms`.
pub open spec fn dur_text(nanos: nat) -> Seq<char> {
    let ms = nanos / 1_000_000;
    if ms >= 1000 && ms % 1000 == 0 {
        uint_text(ms / 1000) + seq!['s']
    } else {
        uint_text(ms) + seq!['m', 's']
    }
}

pub open spec fn onoff_text(v: bool) -> Seq<char> {
    if v {
        seq!['o', 'n']
    } else {
        seq!['o', 'f', 'f']
    }
}

pub open spec fn key_text(k: Key) -> Seq<char> {
    match k {
        Key::Enter => "enter"@,
        Key::Tab => "tab"@,
        Key::Backspace => "backspace"@,
        Key::Escape => "escape"@,
        Key::Space => "space"@,
        Key::Up => "up"@,
        Key::Down => "down"@,
        Key::Left => "left"@,
        Key::Right => "right"@,
        Key::Ctrl(c) => "ctrl "@.push(c),
    }
}

/// The tape line that performs `op`.
pub open spec fn op_text(op: OpView) -> Seq<char> {
    match op {
        OpView::Type(t) => "type "@ + quoted_text(t),
        OpView::Sleep(d) => "sleep "@ + dur_text(d),
        OpView::Wait { text, timeout } => "wait "@ + quoted_text(text) + seq![' '] + dur_text(
            timeout,
        ),
        OpView::Key(k) => key_text(k),
    }
}

pub open spec fn ops_text(ops: Seq<OpView>) -> Seq<char>
    decreases ops.len(),
{
    if ops.len() == 0 {
        Seq::empty()
    } else {
        ops_text(ops.drop_last()) + op_text(ops.last()) + seq!['\n']
    }
}

/// The words of a shell command, each quoted, separated by spaces.
pub open spec fn quoted_words(ws: Seq<Seq<char>>) -> Seq<char>
    decreases ws.len(),
{
    if ws.len() == 0 {
        Seq::empty()
    } else if ws.len() == 1 {
        quoted_text(ws[0])
    } else {
        quoted_words(ws.drop_last()) + seq![' '] + quoted_text(ws.last())
    }
}

pub open spec fn redact_text(ps: Seq<Seq<char>>) -> Seq<char>
    decreases ps.len(),
{
    if ps.len() == 0 {
        Seq::empty()
    } else {
        redact_text(ps.drop_last()) + "redact "@ + quoted_text(ps.last()) + seq!['\n']
    }
}

/// A setting line where `show` holds, nothing otherwise.
pub open spec fn opt_line(show: bool, text: Seq<char>) -> Seq<char> {
    if show {
        text + seq!['\n']
    } else {
        Seq::empty()
    }
}

/// The lines a tape always carries: output, theme, size and padding.
pub open spec fn head_text(c: ConfigView) -> Seq<char> {
    "output "@ + quoted_text(c.output) + seq!['\n'] + "theme "@ + quoted_text(c.theme) + seq!['\n']
        + "width "@ + uint_text(c.cols as nat) + seq!['\n'] + "height "@ + uint_text(c.rows as nat)
        + seq!['\n'] + "padding "@ + rounded_text(c.padding, 2) + seq!['\n']
}

/// The font lines, each only where it differs from the default.
pub open spec fn font_text(c: ConfigView) -> Seq<char> {
    let d = default_config();
    opt_line(c.font_family != d.font_family, "font "@ + quoted_text(c.font_family)) + opt_line(
        c.font_size != d.font_size,
        "font-size "@ + rounded_text(c.font_size, 2),
    ) + opt_line(c.advance != d.advance, "advance "@ + rounded_text(c.advance, 2)) + opt_line(
        c.line_height != d.line_height,
        "line-height "@ + rounded_text(c.line_height, 2),
    )
}

/// The shell, window and title lines, each only where it is set.
pub open spec fn frame_text(c: ConfigView) -> Seq<char> {
    let d = default_config();
    opt_line(
        c.shell is Some,
        "shell "@ + quoted_words(
            match c.shell {
                Some(ws) => ws,
                None => Seq::empty(),
            },
        ),
    ) + opt_line(c.window != d.window, "window "@ + onoff_text(c.window)) + opt_line(
        c.title.len() > 0,
        "title "@ + quoted_text(c.title),
    )
}

/// The timing lines, each only where it differs from the default.
pub open spec fn timing_text(c: ConfigView) -> Seq<char> {
    let d = default_config();
    opt_line(c.type_delay != d.type_delay, "type-delay "@ + dur_text(c.type_delay)) + opt_line(
        c.trim_idle != d.trim_idle,
        "trim-idle "@ + match c.trim_idle {
            Some(v) => dur_text(v),
            None => seq!['o', 'f', 'f'],
        },
    ) + opt_line(c.tail != d.tail, "tail "@ + dur_text(c.tail)) + opt_line(
        c.speed != d.speed,
        "speed "@ + rounded_text(c.speed, 2),
    ) + opt_line(c.loop_forever != d.loop_forever, "loop "@ + onoff_text(c.loop_forever))
}

/// The redaction lines: one per pattern, then `sanitize` where it is on.
pub open spec fn privacy_text(c: ConfigView) -> Seq<char> {
    let d = default_config();
    redact_text(c.redact) + opt_line(c.sanitize != d.sanitize, "sanitize "@ + onoff_text(c.sanitize))
}

/// The settings part of a tape: output, theme, size and padding always, every
/// other setting only where it differs from the default.
pub open spec fn settings_text(c: ConfigView) -> Seq<char> {
    head_text(c) + font_text(c) + frame_text(c) + timing_text(c) + privacy_text(c)
}

/// A whole tape: the settings, then a blank line and one line per action.
pub open spec fn source_text(c: ConfigView, ops: Seq<OpView>) -> Seq<char> {
    settings_text(c) + (if ops.len() > 0 {
        seq!['\n']
    } else {
        Seq::empty()
    }) + ops_text(ops)
}

fn push_escaped(s: &mut String, v: &[char])
    ensures
        final(s)@ == old(s)@ + escaped(v@),
{
    let mut i: usize = 0;
    while i < v.len()
        invariant
            i <= v.len(),
            s@ == old(s)@ + escaped(v@.take(i as int)),
        decreases v.len() - i,
    {
        let c = v[i];
        if c == '"' || c == '\\' {
            push_char(s, '\\');
        }
        push_char(s, c);
        assert(v@.take(i + 1).drop_last() == v@.take(i as int));
        i = i + 1;
    }
    assert(v@.take(v.len() as int) == v@);
}

fn push_quoted(s: &mut String, v: &[char])
    ensures
        final(s)@ == old(s)@ + quoted_text(v@),
{
    push_char(s, '"');
    push_escaped(s, v);
    push_char(s, '"');
}

/// `v` in double quotes, with its double quotes and backslashes escaped.
pub fn quoted(v: &str) -> (out: String)
    ensures
        out@ == quoted_text(v@),
{
    let chars = chars_of(v);
    let mut out = String::new();
    push_quoted(&mut out, chars.as_slice());
    out
}

fn push_dur(s: &mut String, d: Duration)
    ensures
        final(s)@ == old(s)@ + dur_text(d@),
{
    let ms = d.as_millis();
    if ms >= 1000 && ms % 1000 == 0 {
        push_wide_uint(s, ms / 1000);
        push_char(s, 's');
    } else {
        push_wide_uint(s, ms);
        push_char(s, 'm');
        push_char(s, 's');
    }
}

/// A span as a person would write it, as [`dur_text`] says.
pub fn dur(d: Duration) -> (out: String)
    ensures
        out@ == dur_text(d@),
{
    let mut out = String::new();
    push_dur(&mut out, d);
    out
}

fn push_onoff(s: &mut String, v: bool)
    ensures
        final(s)@ == old(s)@ + onoff_text(v),
{
    if v {
        push_char(s, 'o');
        push_char(s, 'n');
    } else {
        push_char(s, 'o');
        push_char(s, 'f');
        push_char(s, 'f');
    }
}

fn push_key(s: &mut String, k: Key)
    ensures
        final(s)@ == old(s)@ + key_text(k),
{
    match k {
        Key::Enter => push_str(s, "enter"),
        Key::Tab => push_str(s, "tab"),
        Key::Backspace => push_str(s, "backspace"),
        Key::Escape => push_str(s, "escape"),
        Key::Space => push_str(s, "space"),
        Key::Up => push_str(s, "up"),
        Key::Down => push_str(s, "down"),
        Key::Left => push_str(s, "left"),
        Key::Right => push_str(s, "right"),
        Key::Ctrl(c) => {
            push_str(s, "ctrl ");
            push_char(s, c);
        },
    }
}

fn push_op(s: &mut String, op: &Op)
    ensures
        final(s)@ == old(s)@ + op_text(op@),
{
    match op {
        Op::Type(t) => {
            push_str(s, "type ");
            let v = chars_of(t.as_str());
            push_quoted(s, v.as_slice());
        },
        Op::Sleep(d) => {
            push_str(s, "sleep ");
            push_dur(s, *d);
        },
        Op::Wait { text, timeout } => {
            push_str(s, "wait ");
            let v = chars_of(text.as_str());
            push_quoted(s, v.as_slice());
            push_char(s, ' ');
            push_dur(s, *timeout);
        },
        Op::Key(k) => push_key(s, *k),
    }
}

fn push_opt_end(s: &mut String, show: bool)
    ensures
        show ==> final(s)@ == old(s)@.push('\n'),
        !show ==> final(s)@ == old(s)@,
{
    if show {
        push_char(s, '\n');
    }
}

fn push_head(s: &mut String, cfg: &Config)
    ensures
        final(s)@ == old(s)@ + head_text(cfg@),
{
    let ghost c = cfg@;
    push_str(s, "output ");
    push_quoted(s, chars_of(cfg.output.as_str()).as_slice());
    push_char(s, '\n');
    push_str(s, "theme ");
    push_quoted(s, chars_of(cfg.theme.as_str()).as_slice());
    push_char(s, '\n');
    push_str(s, "width ");
    push_uint(s, cfg.cols as u64);
    push_char(s, '\n');
    push_str(s, "height ");
    push_uint(s, cfg.rows as u64);
    push_char(s, '\n');
    push_str(s, "padding ");
    push_rounded(s, cfg.padding.micros, 2);
    push_char(s, '\n');
    assert(s@ =~= old(s)@ + head_text(c));
}

fn push_num_line(s: &mut String, show: bool, name: &str, v: i64)
    ensures
        final(s)@ == old(s)@ + opt_line(show, name@ + rounded_text(v as int, 2)),
{
    if show {
        push_str(s, name);
        push_rounded(s, v, 2);
        push_char(s, '\n');
    }
    assert(s@ =~= old(s)@ + opt_line(show, name@ + rounded_text(v as int, 2)));
}

fn push_dur_line(s: &mut String, show: bool, name: &str, d: Duration)
    ensures
        final(s)@ == old(s)@ + opt_line(show, name@ + dur_text(d@)),
{
    if show {
        push_str(s, name);
        push_dur(s, d);
        push_char(s, '\n');
    }
    assert(s@ =~= old(s)@ + opt_line(show, name@ + dur_text(d@)));
}

fn push_onoff_line(s: &mut String, show: bool, name: &str, v: bool)
    ensures
        final(s)@ == old(s)@ + opt_line(show, name@ + onoff_text(v)),
{
    if show {
        push_str(s, name);
        push_onoff(s, v);
        push_char(s, '\n');
    }
    assert(s@ =~= old(s)@ + opt_line(show, name@ + onoff_text(v)));
}

fn push_font(s: &mut String, cfg: &Config)
    ensures
        final(s)@ == old(s)@ + font_text(cfg@),
{
    let ghost c = cfg@;
    let ghost d = default_config();
    let ghost s1 = s@;
    let font = chars_of(cfg.font_family.as_str());
    let custom_font = !crate::chars::same_chars(font.as_slice(), DEFAULT_FONT);
    if custom_font {
        push_str(s, "font ");
        push_quoted(s, font.as_slice());
    }
    push_opt_end(s, custom_font);
    let ghost p1 = opt_line(c.font_family != d.font_family, "font "@ + quoted_text(c.font_family));
    assert(s@ =~= s1 + p1);
    push_num_line(s, cfg.font_size.micros != 14_000_000, "font-size ", cfg.font_size.micros);
    push_num_line(s, cfg.advance.micros != 0, "advance ", cfg.advance.micros);
    push_num_line(s, cfg.line_height.micros != 0, "line-height ", cfg.line_height.micros);
    assert(s@ =~= s1 + font_text(c));
}

fn push_frame(s: &mut String, cfg: &Config)
    ensures
        final(s)@ == old(s)@ + frame_text(cfg@),
{
    let ghost c = cfg@;
    let ghost d = default_config();
    let ghost s5 = s@;
    let show = cfg.shell.is_some();
    if let Some(words) = &cfg.shell {
        push_str(s, "shell ");
        push_words(s, words);
    }
    push_opt_end(s, show);
    assert(s@ =~= s5 + opt_line(
        c.shell is Some,
        "shell "@ + quoted_words(
            match c.shell {
                Some(ws) => ws,
                None => Seq::empty(),
            },
        ),
    ));
    let ghost s6 = s@;
    let show = cfg.window;
    if show {
        push_str(s, "window ");
        push_onoff(s, cfg.window);
    }
    push_opt_end(s, show);
    assert(s@ =~= s6 + opt_line(c.window != d.window, "window "@ + onoff_text(c.window)));
    let ghost s7 = s@;
    let title = chars_of(cfg.title.as_str());
    let show = title.len() > 0;
    if show {
        push_str(s, "title ");
        push_quoted(s, title.as_slice());
    }
    push_opt_end(s, show);
    assert(s@ =~= s7 + opt_line(c.title.len() > 0, "title "@ + quoted_text(c.title)));
    assert(s@ =~= s5 + frame_text(c));
}

pub open spec fn trim_line(t: Option<nat>) -> Seq<char> {
    opt_line(
        t != Some(1_000_000_000nat),
        "trim-idle "@ + match t {
            Some(v) => dur_text(v),
            None => seq!['o', 'f', 'f'],
        },
    )
}

fn push_trim_line(s: &mut String, t: Option<Duration>)
    ensures
        final(s)@ == old(s)@ + trim_line(
            match t {
                Some(d) => Some(d@),
                None => None,
            },
        ),
{
    match t {
        Some(v) => push_dur_line(s, v.as_nanos() != 1_000_000_000, "trim-idle ", v),
        None => push_onoff_line(s, true, "trim-idle ", false),
    }
}

#[verifier::rlimit(30)]
fn push_timing(s: &mut String, cfg: &Config)
    ensures
        final(s)@ == old(s)@ + timing_text(cfg@),
{
    let ghost c = cfg@;
    let ghost s0 = s@;
    push_dur_line(s, cfg.type_delay.as_nanos() != 55_000_000, "type-delay ", cfg.type_delay);
    let ghost s1 = s@;
    push_trim_line(s, cfg.trim_idle);
    let ghost s2 = s@;
    push_dur_line(s, cfg.tail.as_nanos() != 2_000_000_000, "tail ", cfg.tail);
    let ghost s3 = s@;
    push_num_line(s, cfg.speed.micros != 1_000_000, "speed ", cfg.speed.micros);
    let ghost s4 = s@;
    push_onoff_line(s, !cfg.loop_forever, "loop ", cfg.loop_forever);
    let ghost s5 = s@;
    let ghost d = default_config();
    let ghost p1 = opt_line(c.type_delay != d.type_delay, "type-delay "@ + dur_text(c.type_delay));
    let ghost p2 = trim_line(c.trim_idle);
    let ghost p3 = opt_line(c.tail != d.tail, "tail "@ + dur_text(c.tail));
    let ghost p4 = opt_line(c.speed != d.speed, "speed "@ + rounded_text(c.speed, 2));
    let ghost p5 = opt_line(c.loop_forever != d.loop_forever, "loop "@ + onoff_text(c.loop_forever));
    assert(s1 == s0 + p1);
    assert(s2 == s1 + p2);
    assert(s3 == s2 + p3);
    assert(s4 == s3 + p4);
    assert(s5 == s4 + p5);
    assert(timing_text(c) == p1 + p2 + p3 + p4 + p5);
    assert(s@ =~= s0 + (p1 + p2 + p3 + p4 + p5));
}

fn push_privacy(s: &mut String, cfg: &Config)
    ensures
        final(s)@ == old(s)@ + privacy_text(cfg@),
{
    let ghost c = cfg@;
    let ghost d = default_config();
    let ghost s13 = s@;
    push_redact(s, &cfg.redact);
    let ghost s14 = s@;
    let show = cfg.sanitize;
    if show {
        push_str(s, "sanitize ");
        push_onoff(s, cfg.sanitize);
    }
    push_opt_end(s, show);
    assert(s@ =~= s14 + opt_line(c.sanitize != d.sanitize, "sanitize "@ + onoff_text(c.sanitize)));
    assert(s@ =~= s13 + privacy_text(c));
}

fn push_settings(s: &mut String, cfg: &Config)
    ensures
        final(s)@ == old(s)@ + settings_text(cfg@),
{
    push_head(s, cfg);
    push_font(s, cfg);
    push_frame(s, cfg);
    push_timing(s, cfg);
    push_privacy(s, cfg);
    assert(s@ =~= old(s)@ + settings_text(cfg@));
}

fn push_words(s: &mut String, words: &Vec<String>)
    ensures
        final(s)@ == old(s)@ + quoted_words(strings_view(words@)),
{
    let mut i: usize = 0;
    while i < words.len()
        invariant
            i <= words.len(),
            s@ == old(s)@ + quoted_words(strings_view(words@).take(i as int)),
        decreases words.len() - i,
    {
        let ghost ws = strings_view(words@).take(i + 1);
        assert(ws.drop_last() == strings_view(words@).take(i as int));
        assert(ws.last() == words@[i as int]@);
        if i > 0 {
            push_char(s, ' ');
        }
        push_quoted(s, chars_of(words[i].as_str()).as_slice());
        proof {
            if i == 0 {
                assert(ws.len() == 1);
                assert(quoted_words(strings_view(words@).take(0)) == Seq::<char>::empty());
            }
        }
        i = i + 1;
    }
    assert(strings_view(words@).take(words.len() as int) == strings_view(words@));
}

fn push_redact(s: &mut String, ps: &Vec<String>)
    ensures
        final(s)@ == old(s)@ + redact_text(strings_view(ps@)),
{
    let mut i: usize = 0;
    while i < ps.len()
        invariant
            i <= ps.len(),
            s@ == old(s)@ + redact_text(strings_view(ps@).take(i as int)),
        decreases ps.len() - i,
    {
        let ghost ws = strings_view(ps@).take(i + 1);
        assert(ws.drop_last() == strings_view(ps@).take(i as int));
        assert(ws.last() == ps@[i as int]@);
        push_str(s, "redact ");
        push_quoted(s, chars_of(ps[i].as_str()).as_slice());
        push_char(s, '\n');
        i = i + 1;
    }
    assert(strings_view(ps@).take(ps.len() as int) == strings_view(ps@));
}

/// Writes `cfg` and `ops` back out as a tape, as [`source_text`] says.
pub fn source(cfg: &Config, ops: &[Op]) -> (out: String)
    ensures
        out@ == source_text(cfg@, ops_view(ops@)),
{
    let mut s = String::new();
    push_settings(&mut s, cfg);
    let ghost s1 = s@;
    if ops.len() > 0 {
        push_char(&mut s, '\n');
    }
    let ghost s2 = s@;
    let mut i: usize = 0;
    while i < ops.len()
        invariant
            i <= ops.len(),
            s@ == s2 + ops_text(ops_view(ops@).take(i as int)),
        decreases ops.len() - i,
    {
        let ghost os = ops_view(ops@).take(i + 1);
        assert(os.drop_last() == ops_view(ops@).take(i as int));
        assert(os.last() == ops@[i as int]@);
        push_op(&mut s, &ops[i]);
        push_char(&mut s, '\n');
        i = i + 1;
    }
    assert(ops_view(ops@).take(ops.len() as int) == ops_view(ops@));
    s
}

} // verus!
