use vstd::prelude::*;

use crate::chars::{
    chars_of, is_whitespace, is_ws, lower_all, lower_chars, push_all, push_str, same_chars,
    slice_of, string_of, trim, trimmed, uint_text,
};
use crate::number::{decimal_of, digits_value, all_digits, is_digit, Decimal};
use crate::reading::{finite_parts, is_zero, number_parts, scaled_exec, scaled_within, sign_of};
use crate::tape::{default_config, Config, ConfigView, Key, Op, OpView, Tape, ops_view, strings_view};
use crate::tape::write::quoted_text;
use crate::time::{Duration, MAX_NANOS};

verus! {

broadcast use vstd::string::group_string_axioms;

/// The lines of `s` as `str::lines` gives them: split at `\n`, a `\r` right
/// before the `\n` dropped, and no empty line after a final `\n`.
pub open spec fn lines_of(s: Seq<char>) -> Seq<Seq<char>>
    decreases s.len(),
{
    if s.len() == 0 {
        Seq::empty()
    } else {
        match first_newline(s, 0) {
            Some(k) => if 0 <= k < s.len() {
                seq![drop_cr(s.take(k))] + lines_of(s.skip(k + 1))
            } else {
                seq![s]
            },
            None => seq![s],
        }
    }
}

/// The first `\n` of `s` at or after `i`.
pub open spec fn first_newline(s: Seq<char>, i: int) -> Option<int>
    decreases s.len() - i,
{
    if i < 0 || i >= s.len() {
        None
    } else if s[i] == '\n' {
        Some(i)
    } else {
        first_newline(s, i + 1)
    }
}

pub open spec fn drop_cr(s: Seq<char>) -> Seq<char> {
    if s.len() > 0 && s.last() == '\r' {
        s.drop_last()
    } else {
        s
    }
}

/// `line` cut at the first `#` that stands outside double quotes.
pub open spec fn uncommented(line: Seq<char>) -> Seq<char> {
    uncommented_from(line, 0, false)
}

pub open spec fn uncommented_from(line: Seq<char>, i: int, in_quote: bool) -> Seq<char>
    decreases line.len() - i,
{
    if i < 0 || i >= line.len() {
        line
    } else if line[i] == '"' {
        uncommented_from(line, i + 1, !in_quote)
    } else if line[i] == '#' && !in_quote {
        line.take(i)
    } else {
        uncommented_from(line, i + 1, in_quote)
    }
}

/// The words of `line`: split at whitespace outside double quotes. A quoted
/// stretch, even an empty one, makes a word; inside quotes `\"` stands for `"`
/// and `\\` for `\`, and any other backslash is kept. `None` where a quote is
/// left open.
pub open spec fn tokens_of(line: Seq<char>) -> Option<Seq<Seq<char>>> {
    tokens_from(line, 0, Seq::empty(), Seq::empty(), false, false)
}

pub open spec fn tokens_from(
    line: Seq<char>,
    i: int,
    out: Seq<Seq<char>>,
    cur: Seq<char>,
    in_quote: bool,
    started: bool,
) -> Option<Seq<Seq<char>>>
    decreases line.len() - i,
{
    if i < 0 || i >= line.len() {
        if in_quote {
            None
        } else if started || cur.len() > 0 {
            Some(out.push(cur))
        } else {
            Some(out)
        }
    } else {
        let c = line[i];
        if c == '"' {
            tokens_from(line, i + 1, out, cur, !in_quote, true)
        } else if c == '\\' && in_quote {
            if i + 1 < line.len() && (line[i + 1] == '"' || line[i + 1] == '\\') {
                tokens_from(line, i + 2, out, cur.push(line[i + 1]), in_quote, started)
            } else {
                tokens_from(line, i + 1, out, cur.push('\\'), in_quote, started)
            }
        } else if is_ws(c) && !in_quote {
            if started || cur.len() > 0 {
                tokens_from(line, i + 1, out.push(cur), Seq::empty(), in_quote, false)
            } else {
                tokens_from(line, i + 1, out, cur, in_quote, started)
            }
        } else {
            tokens_from(line, i + 1, out, cur.push(c), in_quote, true)
        }
    }
}

pub open spec fn ends_with(s: Seq<char>, suffix: Seq<char>) -> bool {
    s.len() >= suffix.len() && s.skip(s.len() - suffix.len()) == suffix
}

/// The nanoseconds a duration such as `500ms`, `2s`, `1.5m`, `1e3s` or a
/// bare `250` (milliseconds) stands for: its number is any finite number
/// `str::parse::<f64>` reads. `None` where it is not one, is below zero, is
/// not a whole number of nanoseconds or is longer than the longest
/// [`Duration`].
pub open spec fn duration_of(s: Seq<char>) -> Option<nat> {
    let t = trim(s);
    let (num, mult) = span_parts(t);
    let (neg, body) = sign_of(trim(num));
    match finite_parts(body) {
        Some((d, p)) => if neg && digits_value(d) != 0 {
            None
        } else {
            scaled_within(digits_value(d) * (mult as nat), p + 6, MAX_NANOS as nat)
        },
        None => None,
    }
}

/// Whether a number's text, without its sign, names infinity as
/// `str::parse::<f64>` reads it, in any case.
pub open spec fn is_infinity(body: Seq<char>) -> bool {
    lower_all(body) == "inf"@ || lower_all(body) == "infinity"@
}

/// A duration split into its number and the milliseconds its unit stands
/// for: `ms`, `s` and `m`, and milliseconds where there is no unit.
pub open spec fn span_parts(t: Seq<char>) -> (Seq<char>, int) {
    if ends_with(t, seq!['m', 's']) {
        (t.take(t.len() - 2), 1int)
    } else if ends_with(t, seq!['s']) {
        (t.take(t.len() - 1), 1000int)
    } else if ends_with(t, seq!['m']) {
        (t.take(t.len() - 1), 60_000int)
    } else {
        (t, 1int)
    }
}

/// What is wrong with a text that is not a duration: a number that does
/// not read, a negative one, or one that no [`Duration`] holds (too long,
/// infinite, or finer than a nanosecond).
pub open spec fn duration_error(s: Seq<char>) -> Seq<char> {
    let t = trim(s);
    let (num, mult) = span_parts(t);
    let (neg, body) = sign_of(trim(num));
    let negative = "negative duration "@ + quoted_text(t);
    let unheld = "duration "@ + quoted_text(t) + " cannot be held in nanoseconds"@;
    match finite_parts(body) {
        Some((d, p)) => if neg && digits_value(d) != 0 {
            negative
        } else {
            unheld
        },
        None => if is_infinity(body) {
            if neg {
                negative
            } else {
                unheld
            }
        } else {
            "bad duration "@ + quoted_text(t) + ", try 500ms or 2s"@
        },
    }
}

/// The value of an unsigned integer such as `90` or `+3`, as `str::parse` reads it.
pub open spec fn uint_of(s: Seq<char>) -> Option<nat> {
    let body = if s.len() > 0 && s[0] == '+' {
        s.skip(1)
    } else {
        s
    };
    if body.len() > 0 && all_digits(body) {
        Some(digits_value(body))
    } else {
        None
    }
}

/// What `on`/`off` style switches mean, in any case.
pub open spec fn flag_of(s: Seq<char>) -> Option<bool> {
    let l = lower_all(s);
    if l == "on"@ || l == "true"@ || l == "yes"@ || l == "1"@ {
        Some(true)
    } else if l == "off"@ || l == "false"@ || l == "no"@ || l == "0"@ {
        Some(false)
    } else {
        None
    }
}

pub open spec fn vecs_view(v: Seq<Vec<char>>) -> Seq<Seq<char>> {
    v.map_values(|x: Vec<char>| x@)
}

/// How many leading characters of `line` survive [`uncommented`].
fn uncommented_len(line: &[char]) -> (k: usize)
    ensures
        k <= line.len(),
        line@.take(k as int) == uncommented(line@),
{
    let mut i: usize = 0;
    let mut q = false;
    while i < line.len()
        invariant
            i <= line.len(),
            uncommented(line@) == uncommented_from(line@, i as int, q),
        decreases line.len() - i,
    {
        if line[i] == '"' {
            q = !q;
        } else if line[i] == '#' && !q {
            return i;
        }
        i = i + 1;
    }
    assert(line@.take(line.len() as int) == line@);
    line.len()
}

/// `line` cut at the first `#` outside double quotes.
pub fn strip_comment(line: &str) -> (out: &str)
    ensures
        out@ == uncommented(line@),
{
    let v = chars_of(line);
    let k = uncommented_len(v.as_slice());
    line.substring_char(0, k)
}

/// The words of `line`, as [`tokens_of`] says.
pub fn tokens(line: &[char]) -> (res: Option<Vec<Vec<char>>>)
    ensures
        match tokens_of(line@) {
            Some(t) => res matches Some(v) && vecs_view(v@) == t,
            None => res is None,
        },
{
    let mut out: Vec<Vec<char>> = Vec::new();
    let mut cur: Vec<char> = Vec::new();
    let mut q = false;
    let mut started = false;
    let mut i: usize = 0;
    let n = line.len();
    assert(vecs_view(out@) == Seq::<Seq<char>>::empty());
    while i < n
        invariant
            i <= n,
            n == line.len(),
            tokens_of(line@) == tokens_from(line@, i as int, vecs_view(out@), cur@, q, started),
        decreases n - i,
    {
        let c = line[i];
        let ghost o0 = vecs_view(out@);
        let ghost c0 = cur@;
        if c == '"' {
            q = !q;
            started = true;
            i = i + 1;
        } else if c == '\\' && q {
            if i + 1 < n && (line[i + 1] == '"' || line[i + 1] == '\\') {
                cur.push(line[i + 1]);
                i = i + 2;
            } else {
                cur.push('\\');
                i = i + 1;
            }
        } else if is_whitespace(c) && !q {
            if started || cur.len() > 0 {
                let word = cur;
                out.push(word);
                cur = Vec::new();
                started = false;
                assert(vecs_view(out@) =~= o0.push(c0));
            }
            i = i + 1;
        } else {
            cur.push(c);
            started = true;
            i = i + 1;
        }
    }
    if q {
        return None;
    }
    if started || cur.len() > 0 {
        let word = cur;
        out.push(word);
        assert(vecs_view(out@) == vecs_view(out@.drop_last()).push(word@));
    }
    Some(out)
}

/// The words of `line`, as [`tokens_of`] says; an error where a quote is left open.
pub fn tokenize(line: &str) -> (res: Result<Vec<String>, String>)
    ensures
        match tokens_of(line@) {
            Some(t) => res matches Ok(v) && strings_view(v@) == t,
            None => res matches Err(m) && m@ == "unterminated string"@,
        },
{
    let chars = chars_of(line);
    match tokens(chars.as_slice()) {
        Some(words) => {
            let mut out: Vec<String> = Vec::new();
            let mut i: usize = 0;
            while i < words.len()
                invariant
                    i <= words.len(),
                    strings_view(out@) == vecs_view(words@).take(i as int),
                decreases words.len() - i,
            {
                let w = string_of(words[i].as_slice());
                out.push(w);
                assert(strings_view(out@) == strings_view(out@.drop_last()).push(w@));
                assert(vecs_view(words@).take(i + 1) == vecs_view(words@).take(i as int).push(words@[i as int]@));
                i = i + 1;
            }
            assert(vecs_view(words@).take(words.len() as int) == vecs_view(words@));
            Ok(out)
        },
        None => Err("unterminated string".to_string()),
    }
}

fn ends_with_chars(s: &[char], suffix: &str) -> (b: bool)
    ensures
        b == ends_with(s@, suffix@),
{
    let v = chars_of(suffix);
    if s.len() < v.len() {
        return false;
    }
    let tail = slice_of(s, s.len() - v.len(), s.len());
    assert(tail@ == s@.skip(s.len() - v.len()));
    same_chars(tail.as_slice(), suffix)
}

/// The nanoseconds that `s` stands for, as [`duration_of`] says.
fn split_span(t: &[char]) -> (r: (Vec<char>, u64))
    ensures
        r.0@ == span_parts(t@).0,
        r.1 == span_parts(t@).1,
{
    proof {
        reveal_strlit("ms");
        reveal_strlit("s");
        reveal_strlit("m");
        assert("ms"@ =~= seq!['m', 's']);
        assert("s"@ =~= seq!['s']);
        assert("m"@ =~= seq!['m']);
    }
    assert(t@.subrange(0, t.len() as int) == t@);
    if ends_with_chars(t, "ms") {
        (slice_of(t, 0, t.len() - 2), 1)
    } else if ends_with_chars(t, "s") {
        (slice_of(t, 0, t.len() - 1), 1000)
    } else if ends_with_chars(t, "m") {
        (slice_of(t, 0, t.len() - 1), 60_000)
    } else {
        (slice_of(t, 0, t.len()), 1)
    }
}

/// The nanoseconds that `s` stands for, as [`duration_of`] says.
pub fn duration_chars(s: &[char]) -> (res: Option<Duration>)
    ensures
        match duration_of(s@) {
            Some(n) => res matches Some(d) && d@ == n,
            None => res is None,
        },
{
    let t = trimmed(s);
    let (num, mult) = split_span(t.as_slice());
    let num = trimmed(num.as_slice());
    let ghost parts = finite_parts(sign_of(num@).1);
    match number_parts(num.as_slice()) {
        Some((neg, d, pc)) => {
            if neg && !is_zero(&d) {
                return None;
            }
            let ghost p = parts.unwrap().1;
            match scaled_exec(&d, mult, pc + 6, Ghost(p + 6), MAX_NANOS) {
                Some(n) => Some(Duration::from_nanos(n)),
                None => None,
            }
        },
        None => None,
    }
}

/// Whether `body` names infinity, as [`is_infinity`] says.
fn names_infinity(body: &[char]) -> (b: bool)
    ensures
        b == is_infinity(body@),
{
    let l = lower_chars(body);
    same_chars(l.as_slice(), "inf") || same_chars(l.as_slice(), "infinity")
}

/// What is wrong with `s` as a duration, as [`duration_error`] says.
fn duration_problem(s: &[char]) -> (m: String)
    ensures
        m@ == duration_error(s@),
{
    let t = trimmed(s);
    let (num, _mult) = split_span(t.as_slice());
    let num = trimmed(num.as_slice());
    let q = crate::tape::write::quoted(string_of(t.as_slice()).as_str());
    let mut negative = "negative duration ".to_string();
    push_str(&mut negative, q.as_str());
    let mut unheld = "duration ".to_string();
    push_str(&mut unheld, q.as_str());
    push_str(&mut unheld, " cannot be held in nanoseconds");
    let neg = num.len() > 0 && num[0] == '-';
    let start: usize = if num.len() > 0 && (num[0] == '-' || num[0] == '+') {
        1
    } else {
        0
    };
    match number_parts(num.as_slice()) {
        Some((neg, d, _pc)) => {
            if neg && !is_zero(&d) {
                negative
            } else {
                unheld
            }
        },
        None => {
            let body = slice_of(num.as_slice(), start, num.len());
            proof {
                if start == 0 {
                    assert(num@.subrange(0, num.len() as int) == num@);
                } else {
                    assert(num@.subrange(1, num.len() as int) == num@.skip(1));
                }
            }
            if names_infinity(body.as_slice()) {
                if neg {
                    negative
                } else {
                    unheld
                }
            } else {
                let mut m = "bad duration ".to_string();
                push_str(&mut m, q.as_str());
                push_str(&mut m, ", try 500ms or 2s");
                m
            }
        },
    }
}

/// The span that a duration such as `500ms`, `2s`, `1.5m` or `250` stands for.
pub fn duration(s: &str) -> (res: Result<Duration, String>)
    ensures
        match duration_of(s@) {
            Some(n) => res matches Ok(d) && d@ == n,
            None => res matches Err(m) && m@ == duration_error(s@),
        },
{
    let v = chars_of(s);
    match duration_chars(v.as_slice()) {
        Some(d) => Ok(d),
        None => Err(duration_problem(v.as_slice())),
    }
}

/// The whitespace-separated words of `s`, as `str::split_whitespace` gives them.
pub open spec fn words_of(s: Seq<char>) -> Seq<Seq<char>> {
    words_from(s, 0, Seq::empty(), Seq::empty())
}

pub open spec fn words_from(s: Seq<char>, i: int, out: Seq<Seq<char>>, cur: Seq<char>) -> Seq<
    Seq<char>,
>
    decreases s.len() - i,
{
    if i < 0 || i >= s.len() {
        if cur.len() > 0 {
            out.push(cur)
        } else {
            out
        }
    } else if is_ws(s[i]) {
        if cur.len() > 0 {
            words_from(s, i + 1, out.push(cur), Seq::empty())
        } else {
            words_from(s, i + 1, out, cur)
        }
    } else {
        words_from(s, i + 1, out, cur.push(s[i]))
    }
}

fn words(s: &[char]) -> (out: Vec<Vec<char>>)
    ensures
        vecs_view(out@) == words_of(s@),
{
    let mut out: Vec<Vec<char>> = Vec::new();
    let mut cur: Vec<char> = Vec::new();
    let mut i: usize = 0;
    assert(vecs_view(out@) == Seq::<Seq<char>>::empty());
    while i < s.len()
        invariant
            i <= s.len(),
            words_of(s@) == words_from(s@, i as int, vecs_view(out@), cur@),
        decreases s.len() - i,
    {
        let ghost o0 = vecs_view(out@);
        let ghost c0 = cur@;
        if is_whitespace(s[i]) {
            if cur.len() > 0 {
                let w = cur;
                out.push(w);
                cur = Vec::new();
                assert(vecs_view(out@) =~= o0.push(c0));
            }
        } else {
            cur.push(s[i]);
        }
        i = i + 1;
    }
    if cur.len() > 0 {
        let ghost o0 = vecs_view(out@);
        let ghost c0 = cur@;
        let w = cur;
        out.push(w);
        assert(vecs_view(out@) =~= o0.push(c0));
    }
    out
}

/// The unsigned integer `s` holds, if there is one no larger than `limit`.
fn read_uint(s: &[char], limit: u64) -> (res: Option<u64>)
    ensures
        match uint_of(s@) {
            Some(v) => if v <= limit {
                res == Some(v as u64)
            } else {
                res is None
            },
            None => res is None,
        },
{
    let start: usize = if s.len() > 0 && s[0] == '+' {
        1
    } else {
        0
    };
    let ghost body = s@.skip(start as int);
    if start == 0 {
        assert(s@.skip(0) == s@);
    }
    if start >= s.len() {
        return None;
    }
    let mut v: u64 = 0;
    let mut big = false;
    let mut i = start;
    while i < s.len()
        invariant
            start <= i <= s.len(),
            body == s@.skip(start as int),
            body == (if s@.len() > 0 && s@[0] == '+' {
                s@.skip(1)
            } else {
                s@
            }),
            all_digits(body.take(i - start)),
            !big ==> v == digits_value(body.take(i - start)) && v <= limit,
            big ==> digits_value(body.take(i - start)) > limit,
        decreases s.len() - i,
    {
        let c = s[i];
        if !('0' <= c && c <= '9') {
            proof {
                assert(body[i - start] == s@[i as int]);
                assert(!is_digit(body[i - start]));
                assert(!all_digits(body));
            }
            return None;
        }
        assert(48 <= c as u32 <= 57);
        let d = (c as u32 - 48) as u64;
        proof {
            assert(body.take(i - start + 1) == body.take(i - start).push(body[i - start]));
            assert(body.take(i - start + 1).drop_last() == body.take(i - start));
        }
        if !big {
            if d > limit || v > (limit - d) / 10 {
                big = true;
                assert(v * 10 + d > limit) by (nonlinear_arith)
                    requires
                        d > limit || v > (limit - d) / 10,
                        d <= 9,
                ;
            } else {
                assert(v * 10 + d <= limit) by (nonlinear_arith)
                    requires
                        v <= (limit - d) / 10,
                        d <= limit,
                ;
                v = v * 10 + d;
            }
        } else {
            assert(digits_value(body.take(i - start + 1)) >= digits_value(body.take(i - start))) by (nonlinear_arith)
                requires
                    digits_value(body.take(i - start + 1)) == digits_value(body.take(i - start)) * 10 + d,
            ;
        }
        i = i + 1;
    }
    assert(body.take(s.len() - start) == body);
    if big {
        None
    } else {
        Some(v)
    }
}

/// The switch `s` names, as [`flag_of`] says.
fn read_flag(s: &[char]) -> (res: Option<bool>)
    ensures
        res == flag_of(s@),
{
    let l = lower_chars(s);
    let l = l.as_slice();
    if same_chars(l, "on") || same_chars(l, "true") || same_chars(l, "yes") || same_chars(l, "1") {
        Some(true)
    } else if same_chars(l, "off") || same_chars(l, "false") || same_chars(l, "no") || same_chars(
        l,
        "0",
    ) {
        Some(false)
    } else {
        None
    }
}

pub open spec fn arg_of(toks: Seq<Seq<char>>, i: int) -> Option<Seq<char>> {
    if 0 <= i < toks.len() {
        Some(toks[i])
    } else {
        None
    }
}

pub open spec fn u16_of(a: Option<Seq<char>>) -> Option<u16> {
    match a {
        Some(v) => match uint_of(v) {
            Some(n) => if n <= u16::MAX {
                Some(n as u16)
            } else {
                None
            },
            None => None,
        },
        None => None,
    }
}

pub open spec fn number_of(a: Option<Seq<char>>) -> Option<int> {
    match a {
        Some(v) => decimal_of(v),
        None => None,
    }
}

pub open spec fn span_of(a: Option<Seq<char>>) -> Option<nat> {
    match a {
        Some(v) => duration_of(v),
        None => None,
    }
}

pub open spec fn switch_of(a: Option<Seq<char>>) -> Option<bool> {
    match a {
        Some(v) => flag_of(v),
        None => None,
    }
}

/// How many times a key directive presses its key: the count after it where
/// it reads as one, else once; never less than once.
pub open spec fn repeat_count(toks: Seq<Seq<char>>) -> nat {
    match arg_of(toks, 1) {
        Some(v) => match uint_of(v) {
            Some(n) => if n <= usize::MAX && n >= 1 {
                n
            } else {
                1
            },
            None => 1,
        },
        None => 1,
    }
}

/// The key a key directive names.
pub open spec fn key_named(cmd: Seq<char>) -> Option<Key> {
    if cmd == "enter"@ {
        Some(Key::Enter)
    } else if cmd == "tab"@ {
        Some(Key::Tab)
    } else if cmd == "backspace"@ {
        Some(Key::Backspace)
    } else if cmd == "escape"@ || cmd == "esc"@ {
        Some(Key::Escape)
    } else if cmd == "space"@ {
        Some(Key::Space)
    } else if cmd == "up"@ {
        Some(Key::Up)
    } else if cmd == "down"@ {
        Some(Key::Down)
    } else if cmd == "left"@ {
        Some(Key::Left)
    } else if cmd == "right"@ {
        Some(Key::Right)
    } else {
        None
    }
}

/// What one directive line, split into words, does to the settings and the
/// actions so far; `None` where the directive is unknown or its argument is
/// missing or does not read.
pub open spec fn apply_spec(cfg: ConfigView, ops: Seq<OpView>, toks: Seq<Seq<char>>) -> Option<
    (ConfigView, Seq<OpView>),
> {
    let cmd = lower_all(toks[0]);
    let a1 = arg_of(toks, 1);
    if cmd == "output"@ {
        match a1 {
            Some(v) => Some((ConfigView { output: v, ..cfg }, ops)),
            None => None,
        }
    } else if cmd == "theme"@ {
        match a1 {
            Some(v) => Some((ConfigView { theme: v, ..cfg }, ops)),
            None => None,
        }
    } else if cmd == "width"@ || cmd == "cols"@ {
        match u16_of(a1) {
            Some(n) => Some((ConfigView { cols: n, ..cfg }, ops)),
            None => None,
        }
    } else if cmd == "height"@ || cmd == "rows"@ {
        match u16_of(a1) {
            Some(n) => Some((ConfigView { rows: n, ..cfg }, ops)),
            None => None,
        }
    } else if cmd == "font"@ {
        match a1 {
            Some(v) => if toks.len() > 2 {
                match decimal_of(toks[2]) {
                    Some(size) => Some((ConfigView { font_family: v, font_size: size, ..cfg }, ops)),
                    None => None,
                }
            } else {
                Some((ConfigView { font_family: v, ..cfg }, ops))
            },
            None => None,
        }
    } else if cmd == "font-size"@ {
        match number_of(a1) {
            Some(n) => Some((ConfigView { font_size: n, ..cfg }, ops)),
            None => None,
        }
    } else if cmd == "advance"@ {
        match number_of(a1) {
            Some(n) => Some((ConfigView { advance: n, ..cfg }, ops)),
            None => None,
        }
    } else if cmd == "line-height"@ {
        match number_of(a1) {
            Some(n) => Some((ConfigView { line_height: n, ..cfg }, ops)),
            None => None,
        }
    } else if cmd == "padding"@ {
        match number_of(a1) {
            Some(n) => Some((ConfigView { padding: n, ..cfg }, ops)),
            None => None,
        }
    } else if cmd == "shell"@ {
        if toks.len() < 2 {
            None
        } else if toks.len() == 2 {
            Some((ConfigView { shell: Some(words_of(toks[1])), ..cfg }, ops))
        } else {
            Some((ConfigView { shell: Some(toks.skip(1)), ..cfg }, ops))
        }
    } else if cmd == "trim-idle"@ {
        match a1 {
            Some(v) => if lower_all(v) == "off"@ {
                Some((ConfigView { trim_idle: None, ..cfg }, ops))
            } else {
                match duration_of(v) {
                    Some(d) => Some((ConfigView { trim_idle: Some(d), ..cfg }, ops)),
                    None => None,
                }
            },
            None => None,
        }
    } else if cmd == "tail"@ {
        match span_of(a1) {
            Some(d) => Some((ConfigView { tail: d, ..cfg }, ops)),
            None => None,
        }
    } else if cmd == "type-delay"@ {
        match span_of(a1) {
            Some(d) => Some((ConfigView { type_delay: d, ..cfg }, ops)),
            None => None,
        }
    } else if cmd == "speed"@ {
        match number_of(a1) {
            Some(n) => Some((ConfigView { speed: n, ..cfg }, ops)),
            None => None,
        }
    } else if cmd == "window"@ {
        match switch_of(a1) {
            Some(b) => Some((ConfigView { window: b, ..cfg }, ops)),
            None => None,
        }
    } else if cmd == "title"@ {
        match a1 {
            Some(v) => Some((ConfigView { title: v, ..cfg }, ops)),
            None => None,
        }
    } else if cmd == "loop"@ {
        match switch_of(a1) {
            Some(b) => Some((ConfigView { loop_forever: b, ..cfg }, ops)),
            None => None,
        }
    } else if cmd == "redact"@ {
        match a1 {
            Some(v) => Some((ConfigView { redact: cfg.redact.push(v), ..cfg }, ops)),
            None => None,
        }
    } else if cmd == "sanitize"@ {
        match switch_of(a1) {
            Some(b) => Some((ConfigView { sanitize: b, ..cfg }, ops)),
            None => None,
        }
    } else if cmd == "type"@ {
        match a1 {
            Some(v) => Some((cfg, ops.push(OpView::Type(v)))),
            None => None,
        }
    } else if cmd == "sleep"@ {
        match span_of(a1) {
            Some(d) => Some((cfg, ops.push(OpView::Sleep(d)))),
            None => None,
        }
    } else if cmd == "wait"@ {
        match a1 {
            Some(v) => if toks.len() > 2 {
                match duration_of(toks[2]) {
                    Some(d) => Some((cfg, ops.push(OpView::Wait { text: v, timeout: d }))),
                    None => None,
                }
            } else {
                Some((cfg, ops.push(OpView::Wait { text: v, timeout: 15_000_000_000 })))
            },
            None => None,
        }
    } else if key_named(cmd) is Some {
        Some((cfg, ops + Seq::new(repeat_count(toks), |_i: int| OpView::Key(key_named(cmd)->0))))
    } else if cmd == "ctrl"@ {
        match a1 {
            Some(v) => if v.len() > 0 {
                Some((cfg, ops.push(OpView::Key(Key::Ctrl(v[0])))))
            } else {
                None
            },
            None => None,
        }
    } else {
        None
    }
}

/// `<directive> expects <what>`, for a directive missing its argument.
pub open spec fn expects_text(toks: Seq<Seq<char>>, what: Seq<char>) -> Seq<char> {
    toks[0] + " expects "@ + what
}

/// `<what> "<v>"`, for an argument that does not read.
pub open spec fn bad_text(what: Seq<char>, v: Seq<char>) -> Seq<char> {
    what + " \""@ + v + "\""@
}

pub open spec fn u16_error(toks: Seq<Seq<char>>) -> Seq<char> {
    if toks.len() < 2 {
        expects_text(toks, "a number"@)
    } else {
        bad_text("expected a whole number, got"@, toks[1])
    }
}

pub open spec fn number_error(toks: Seq<Seq<char>>, i: int) -> Seq<char> {
    if toks.len() <= i {
        expects_text(toks, "a number"@)
    } else {
        bad_text("expected a number, got"@, toks[i])
    }
}

pub open spec fn span_error(toks: Seq<Seq<char>>, i: int) -> Seq<char> {
    if toks.len() <= i {
        expects_text(toks, "a duration"@)
    } else {
        bad_text("bad duration, try 500ms or 2s:"@, toks[i])
    }
}

pub open spec fn switch_error(toks: Seq<Seq<char>>) -> Seq<char> {
    if toks.len() < 2 {
        expects_text(toks, "on or off"@)
    } else {
        bad_text("expected on or off, got"@, toks[1])
    }
}

/// What is wrong with a directive line that [`apply_spec`] refuses: the
/// argument it lacks or that does not read, or that the directive is not
/// one.
pub open spec fn apply_error(toks: Seq<Seq<char>>) -> Seq<char> {
    let cmd = lower_all(toks[0]);
    if cmd == "output"@ {
        expects_text(toks, "a path"@)
    } else if cmd == "theme"@ {
        expects_text(toks, "a theme name or path"@)
    } else if cmd == "width"@ || cmd == "cols"@ || cmd == "height"@ || cmd == "rows"@ {
        u16_error(toks)
    } else if cmd == "font"@ {
        if toks.len() < 2 {
            expects_text(toks, "a font family"@)
        } else {
            number_error(toks, 2)
        }
    } else if cmd == "font-size"@ || cmd == "advance"@ || cmd == "line-height"@ || cmd == "padding"@ {
        number_error(toks, 1)
    } else if cmd == "shell"@ {
        "shell expects a command"@
    } else if cmd == "trim-idle"@ {
        if toks.len() < 2 {
            expects_text(toks, "a duration or off"@)
        } else {
            span_error(toks, 1)
        }
    } else if cmd == "tail"@ || cmd == "type-delay"@ {
        span_error(toks, 1)
    } else if cmd == "speed"@ {
        number_error(toks, 1)
    } else if cmd == "window"@ {
        switch_error(toks)
    } else if cmd == "title"@ {
        expects_text(toks, "a string"@)
    } else if cmd == "loop"@ {
        switch_error(toks)
    } else if cmd == "redact"@ {
        expects_text(toks, "a pattern"@)
    } else if cmd == "sanitize"@ {
        switch_error(toks)
    } else if cmd == "type"@ {
        expects_text(toks, "a string"@)
    } else if cmd == "sleep"@ {
        span_error(toks, 1)
    } else if cmd == "wait"@ {
        if toks.len() < 2 {
            expects_text(toks, "a string to wait for"@)
        } else {
            span_error(toks, 2)
        }
    } else if key_named(cmd) is Some {
        Seq::empty()
    } else if cmd == "ctrl"@ {
        if toks.len() < 2 {
            expects_text(toks, "a letter"@)
        } else {
            "ctrl expects a letter"@
        }
    } else {
        "unknown directive \""@ + cmd + "\""@
    }
}

fn expects(toks: &Vec<Vec<char>>, what: &str) -> (msg: String)
    requires
        toks.len() >= 1,
    ensures
        msg@ == expects_text(vecs_view(toks@), what@),
{
    proof {
        lemma_vecs_index(toks@, 0);
    }
    let mut msg = string_of(toks[0].as_slice());
    push_str(&mut msg, " expects ");
    push_str(&mut msg, what);
    msg
}

fn bad_value(what: &str, v: &Vec<char>) -> (msg: String)
    ensures
        msg@ == bad_text(what@, v@),
{
    let mut msg = what.to_string();
    push_str(&mut msg, " \"");
    push_all(&mut msg, v.as_slice());
    push_str(&mut msg, "\"");
    msg
}

proof fn lemma_vecs_index(toks: Seq<Vec<char>>, i: int)
    requires
        0 <= i < toks.len(),
    ensures
        vecs_view(toks)[i] == toks[i]@,
        vecs_view(toks).len() == toks.len(),
{
}

fn u16_arg(toks: &Vec<Vec<char>>) -> (res: Result<u16, String>)
    requires
        toks.len() >= 1,
    ensures
        match u16_of(arg_of(vecs_view(toks@), 1)) {
            Some(n) => res == Ok::<u16, String>(n),
            None => res matches Err(m) && m@ == u16_error(vecs_view(toks@)),
        },
{
    if toks.len() < 2 {
        return Err(expects(toks, "a number"));
    }
    proof {
        lemma_vecs_index(toks@, 1);
    }
    match read_uint(toks[1].as_slice(), 65535) {
        Some(n) => Ok(n as u16),
        None => Err(bad_value("expected a whole number, got", &toks[1])),
    }
}

fn number_arg(toks: &Vec<Vec<char>>, i: usize) -> (res: Result<Decimal, String>)
    requires
        toks.len() >= 1,
    ensures
        match number_of(arg_of(vecs_view(toks@), i as int)) {
            Some(n) => res matches Ok(d) && d@ == n,
            None => res matches Err(m) && m@ == number_error(vecs_view(toks@), i as int),
        },
{
    if toks.len() <= i {
        return Err(expects(toks, "a number"));
    }
    proof {
        lemma_vecs_index(toks@, i as int);
    }
    match Decimal::parse_chars(&toks[i]) {
        Some(d) => Ok(d),
        None => Err(bad_value("expected a number, got", &toks[i])),
    }
}

fn span_arg(toks: &Vec<Vec<char>>, i: usize) -> (res: Result<Duration, String>)
    requires
        toks.len() >= 1,
    ensures
        match span_of(arg_of(vecs_view(toks@), i as int)) {
            Some(n) => res matches Ok(d) && d@ == n,
            None => res matches Err(m) && m@ == span_error(vecs_view(toks@), i as int),
        },
{
    if toks.len() <= i {
        return Err(expects(toks, "a duration"));
    }
    proof {
        lemma_vecs_index(toks@, i as int);
    }
    match duration_chars(toks[i].as_slice()) {
        Some(d) => Ok(d),
        None => Err(bad_value("bad duration, try 500ms or 2s:", &toks[i])),
    }
}

fn switch_arg(toks: &Vec<Vec<char>>) -> (res: Result<bool, String>)
    requires
        toks.len() >= 1,
    ensures
        match switch_of(arg_of(vecs_view(toks@), 1)) {
            Some(b) => res == Ok::<bool, String>(b),
            None => res matches Err(m) && m@ == switch_error(vecs_view(toks@)),
        },
{
    if toks.len() < 2 {
        return Err(expects(toks, "on or off"));
    }
    proof {
        lemma_vecs_index(toks@, 1);
    }
    match read_flag(toks[1].as_slice()) {
        Some(b) => Ok(b),
        None => Err(bad_value("expected on or off, got", &toks[1])),
    }
}

fn text_arg(toks: &Vec<Vec<char>>, what: &str) -> (res: Result<String, String>)
    requires
        toks.len() >= 1,
    ensures
        match arg_of(vecs_view(toks@), 1) {
            Some(v) => res matches Ok(s) && s@ == v,
            None => res matches Err(m) && m@ == expects_text(vecs_view(toks@), what@),
        },
{
    if toks.len() < 2 {
        return Err(expects(toks, what));
    }
    proof {
        lemma_vecs_index(toks@, 1);
    }
    Ok(string_of(toks[1].as_slice()))
}

fn strings_of(v: &[Vec<char>]) -> (out: Vec<String>)
    ensures
        strings_view(out@) == vecs_view(v@),
{
    let mut out: Vec<String> = Vec::new();
    let mut i: usize = 0;
    while i < v.len()
        invariant
            i <= v.len(),
            strings_view(out@) == vecs_view(v@).take(i as int),
        decreases v.len() - i,
    {
        let s = string_of(v[i].as_slice());
        out.push(s);
        assert(strings_view(out@) == strings_view(out@.drop_last()).push(s@));
        assert(vecs_view(v@).take(i + 1) == vecs_view(v@).take(i as int).push(v@[i as int]@));
        i = i + 1;
    }
    assert(vecs_view(v@).take(v.len() as int) =~= vecs_view(v@));
    out
}

fn push_op(ops: &mut Vec<Op>, op: Op)
    ensures
        ops_view(final(ops)@) == ops_view(old(ops)@).push(op@),
{
    ops.push(op);
    assert(ops_view(ops@) =~= ops_view(old(ops)@).push(op@));
}

fn push_repeat(ops: &mut Vec<Op>, toks: &Vec<Vec<char>>, key: Key)
    requires
        toks.len() >= 1,
    ensures
        ops_view(final(ops)@) == ops_view(old(ops)@) + Seq::new(
            repeat_count(vecs_view(toks@)),
            |_i: int| OpView::Key(key),
        ),
{
    let mut n: usize = 1;
    if toks.len() >= 2 {
        proof {
            lemma_vecs_index(toks@, 1);
        }
        match read_uint(toks[1].as_slice(), usize::MAX as u64) {
            Some(v) => {
                if v >= 1 {
                    n = v as usize;
                }
            },
            None => {},
        }
    }
    assert(n == repeat_count(vecs_view(toks@)));
    let mut j: usize = 0;
    while j < n
        invariant
            j <= n,
            ops_view(ops@) == ops_view(old(ops)@) + Seq::new(j as nat, |_i: int| OpView::Key(key)),
        decreases n - j,
    {
        push_op(ops, Op::Key(key));
        assert(Seq::new((j + 1) as nat, |_i: int| OpView::Key(key)) =~= Seq::new(
            j as nat,
            |_i: int| OpView::Key(key),
        ).push(OpView::Key(key)));
        j = j + 1;
    }
}

fn key_of(cmd: &Vec<char>) -> (res: Option<Key>)
    ensures
        res == key_named(cmd@),
{
    let c = cmd.as_slice();
    if same_chars(c, "enter") {
        Some(Key::Enter)
    } else if same_chars(c, "tab") {
        Some(Key::Tab)
    } else if same_chars(c, "backspace") {
        Some(Key::Backspace)
    } else if same_chars(c, "escape") || same_chars(c, "esc") {
        Some(Key::Escape)
    } else if same_chars(c, "space") {
        Some(Key::Space)
    } else if same_chars(c, "up") {
        Some(Key::Up)
    } else if same_chars(c, "down") {
        Some(Key::Down)
    } else if same_chars(c, "left") {
        Some(Key::Left)
    } else if same_chars(c, "right") {
        Some(Key::Right)
    } else {
        None
    }
}

/// Applies one directive line, split into words, as [`apply_spec`] says.
pub fn apply(cfg: &mut Config, ops: &mut Vec<Op>, toks: &Vec<Vec<char>>) -> (r: Result<(), String>)
    requires
        toks.len() >= 1,
    ensures
        match apply_spec(old(cfg)@, ops_view(old(ops)@), vecs_view(toks@)) {
            Some((c, o)) => r is Ok && final(cfg)@ == c && ops_view(final(ops)@) == o,
            None => r matches Err(m) && m@ == apply_error(vecs_view(toks@)),
        },
{
    proof {
        lemma_vecs_index(toks@, 0);
        if toks.len() > 1 {
            lemma_vecs_index(toks@, 1);
        }
        if toks.len() > 2 {
            lemma_vecs_index(toks@, 2);
        }
    }
    let cmdv = lower_chars(toks[0].as_slice());
    let cmd = cmdv.as_slice();
    if same_chars(cmd, "output") {
        cfg.output = text_arg(toks, "a path")?;
    } else if same_chars(cmd, "theme") {
        cfg.theme = text_arg(toks, "a theme name or path")?;
    } else if same_chars(cmd, "width") || same_chars(cmd, "cols") {
        cfg.cols = u16_arg(toks)?;
    } else if same_chars(cmd, "height") || same_chars(cmd, "rows") {
        cfg.rows = u16_arg(toks)?;
    } else if same_chars(cmd, "font") {
        let family = text_arg(toks, "a font family")?;
        if toks.len() > 2 {
            let size = number_arg(toks, 2)?;
            cfg.font_size = size;
        }
        cfg.font_family = family;
    } else if same_chars(cmd, "font-size") {
        cfg.font_size = number_arg(toks, 1)?;
    } else if same_chars(cmd, "advance") {
        cfg.advance = number_arg(toks, 1)?;
    } else if same_chars(cmd, "line-height") {
        cfg.line_height = number_arg(toks, 1)?;
    } else if same_chars(cmd, "padding") {
        cfg.padding = number_arg(toks, 1)?;
    } else if same_chars(cmd, "shell") {
        if toks.len() < 2 {
            return Err("shell expects a command".to_string());
        }
        if toks.len() == 2 {
            let w = words(toks[1].as_slice());
            cfg.shell = Some(strings_of(w.as_slice()));
        } else {
            let rest = slice_vecs(toks, 1);
            cfg.shell = Some(strings_of(rest.as_slice()));
            assert(vecs_view(rest@) =~= vecs_view(toks@).skip(1));
        }
    } else if same_chars(cmd, "trim-idle") {
        if toks.len() < 2 {
            return Err(expects(toks, "a duration or off"));
        }
        let l = lower_chars(toks[1].as_slice());
        if same_chars(l.as_slice(), "off") {
            cfg.trim_idle = None;
        } else {
            cfg.trim_idle = Some(span_arg(toks, 1)?);
        }
    } else if same_chars(cmd, "tail") {
        cfg.tail = span_arg(toks, 1)?;
    } else if same_chars(cmd, "type-delay") {
        cfg.type_delay = span_arg(toks, 1)?;
    } else if same_chars(cmd, "speed") {
        cfg.speed = number_arg(toks, 1)?;
    } else if same_chars(cmd, "window") {
        cfg.window = switch_arg(toks)?;
    } else if same_chars(cmd, "title") {
        cfg.title = text_arg(toks, "a string")?;
    } else if same_chars(cmd, "loop") {
        cfg.loop_forever = switch_arg(toks)?;
    } else if same_chars(cmd, "redact") {
        let pattern = text_arg(toks, "a pattern")?;
        let ghost before = cfg.redact@;
        cfg.redact.push(pattern);
        assert(strings_view(cfg.redact@) =~= strings_view(before).push(pattern@));
    } else if same_chars(cmd, "sanitize") {
        cfg.sanitize = switch_arg(toks)?;
    } else if same_chars(cmd, "type") {
        let text = text_arg(toks, "a string")?;
        push_op(ops, Op::Type(text));
    } else if same_chars(cmd, "sleep") {
        let d = span_arg(toks, 1)?;
        push_op(ops, Op::Sleep(d));
    } else if same_chars(cmd, "wait") {
        let text = text_arg(toks, "a string to wait for")?;
        let timeout = if toks.len() > 2 {
            span_arg(toks, 2)?
        } else {
            Duration::from_secs(15)
        };
        push_op(ops, Op::Wait { text, timeout });
    } else if let Some(key) = key_of(&cmdv) {
        push_repeat(ops, toks, key);
    } else if same_chars(cmd, "ctrl") {
        if toks.len() < 2 {
            return Err(expects(toks, "a letter"));
        }
        if toks[1].len() == 0 {
            return Err("ctrl expects a letter".to_string());
        }
        push_op(ops, Op::Key(Key::Ctrl(toks[1][0])));
    } else {
        let mut msg = "unknown directive \"".to_string();
        push_all(&mut msg, cmd);
        push_str(&mut msg, "\"");
        return Err(msg);
    }
    Ok(())
}

fn slice_vecs(v: &Vec<Vec<char>>, from: usize) -> (out: Vec<Vec<char>>)
    requires
        from <= v.len(),
    ensures
        vecs_view(out@) == vecs_view(v@).skip(from as int),
{
    let mut out: Vec<Vec<char>> = Vec::new();
    let mut i = from;
    while i < v.len()
        invariant
            from <= i <= v.len(),
            vecs_view(out@) == vecs_view(v@).subrange(from as int, i as int),
        decreases v.len() - i,
    {
        let x = slice_of(v[i].as_slice(), 0, v[i].len());
        assert(v[i as int]@.subrange(0, v[i as int]@.len() as int) == v[i as int]@);
        out.push(x);
        assert(vecs_view(out@) == vecs_view(out@.drop_last()).push(x@));
        assert(vecs_view(v@).subrange(from as int, i + 1) == vecs_view(v@).subrange(from as int, i as int).push(v@[i as int]@));
        i = i + 1;
    }
    out
}

/// What running the lines of a tape, in order, does to the settings and the
/// actions; `None` at the first line that fails.
pub open spec fn run_lines(lines: Seq<Seq<char>>, cfg: ConfigView, ops: Seq<OpView>) -> Option<
    (ConfigView, Seq<OpView>),
>
    decreases lines.len(),
{
    if lines.len() == 0 {
        Some((cfg, ops))
    } else {
        let line = trim(uncommented(lines[0]));
        if line.len() == 0 {
            run_lines(lines.drop_first(), cfg, ops)
        } else {
            match tokens_of(line) {
                None => None,
                Some(t) => if t.len() == 0 {
                    run_lines(lines.drop_first(), cfg, ops)
                } else {
                    match apply_spec(cfg, ops, t) {
                        None => None,
                        Some((c, o)) => run_lines(lines.drop_first(), c, o),
                    }
                },
            }
        }
    }
}

/// `line <n>: <the line, trimmed>: `, put before what is wrong with a line.
pub open spec fn line_prefix(n: nat, raw: Seq<char>) -> Seq<char> {
    "line "@ + uint_text(n) + ": "@ + trim(raw) + ": "@
}

/// What is wrong with the first line of a tape that fails, numbered from
/// `n`, when the lines are run as [`run_lines`] runs them.
pub open spec fn run_error(lines: Seq<Seq<char>>, n: nat, cfg: ConfigView, ops: Seq<OpView>) -> Seq<char>
    decreases lines.len(),
{
    if lines.len() == 0 {
        Seq::empty()
    } else {
        let line = trim(uncommented(lines[0]));
        if line.len() == 0 {
            run_error(lines.drop_first(), n + 1, cfg, ops)
        } else {
            match tokens_of(line) {
                None => line_prefix(n, lines[0]) + "unterminated string"@,
                Some(t) => if t.len() == 0 {
                    run_error(lines.drop_first(), n + 1, cfg, ops)
                } else {
                    match apply_spec(cfg, ops, t) {
                        None => line_prefix(n, lines[0]) + apply_error(t),
                        Some((c, o)) => run_error(lines.drop_first(), n + 1, c, o),
                    }
                },
            }
        }
    }
}

/// What is wrong with a tape that does not read: the first failing line,
/// numbered from one, and its trouble.
pub open spec fn tape_error(src: Seq<char>) -> Seq<char> {
    run_error(lines_of(src), 1, default_config(), Seq::empty())
}

/// The settings and actions a tape's text describes, starting from the
/// default settings; `None` where a line fails.
pub open spec fn tape_of(src: Seq<char>) -> Option<(ConfigView, Seq<OpView>)> {
    run_lines(lines_of(src), default_config(), Seq::empty())
}

pub(crate) proof fn lemma_first_newline(t: Seq<char>, i: int, m: int)
    requires
        0 <= i <= m < t.len(),
        forall|j: int| i <= j < m ==> t[j] != '\n',
        t[m] == '\n',
    ensures
        first_newline(t, i) == Some(m),
    decreases m - i,
{
    if i < m {
        lemma_first_newline(t, i + 1, m);
    }
}

proof fn lemma_no_newline(t: Seq<char>, i: int)
    requires
        0 <= i <= t.len(),
        forall|j: int| i <= j < t.len() ==> t[j] != '\n',
    ensures
        first_newline(t, i) is None,
    decreases t.len() - i,
{
    if i < t.len() {
        lemma_no_newline(t, i + 1);
    }
}

/// The lines of `s`, as [`lines_of`] says.
pub(crate) fn split_lines(s: &[char]) -> (out: Vec<Vec<char>>)
    ensures
        vecs_view(out@) == lines_of(s@),
{
    let mut out: Vec<Vec<char>> = Vec::new();
    let mut start: usize = 0;
    let mut j: usize = 0;
    let n = s.len();
    assert(s@.skip(0) == s@);
    while j < n
        invariant
            start <= j <= n,
            n == s.len(),
            lines_of(s@) == vecs_view(out@) + lines_of(s@.skip(start as int)),
            forall|x: int| start <= x < j ==> s@[x] != '\n',
        decreases n - j,
    {
        if s[j] == '\n' {
            let ghost rest = s@.skip(start as int);
            proof {
                lemma_first_newline(rest, 0, j - start);
                assert(rest.take(j - start) == s@.subrange(start as int, j as int));
                assert(rest.skip(j - start + 1) == s@.skip(j + 1));
            }
            let mut end = j;
            if end > start && s[end - 1] == '\r' {
                end = end - 1;
            }
            let line = slice_of(s, start, end);
            assert(line@ == drop_cr(rest.take(j - start)));
            let ghost o0 = vecs_view(out@);
            out.push(line);
            assert(vecs_view(out@) =~= o0.push(line@));
            assert(lines_of(rest) == seq![line@] + lines_of(s@.skip(j + 1)));
            assert(o0 + lines_of(rest) =~= vecs_view(out@) + lines_of(s@.skip(j + 1)));
            start = j + 1;
        }
        j = j + 1;
    }
    let ghost rest = s@.skip(start as int);
    if start < n {
        proof {
            lemma_no_newline(rest, 0);
        }
        let line = slice_of(s, start, n);
        let ghost o0 = vecs_view(out@);
        out.push(line);
        assert(vecs_view(out@) =~= o0.push(line@));
        assert(line@ == rest);
        assert(lines_of(rest) == seq![rest]);
        assert(o0 + lines_of(rest) =~= vecs_view(out@));
    } else {
        assert(lines_of(rest) == Seq::<Seq<char>>::empty());
        assert(vecs_view(out@) + Seq::<Seq<char>>::empty() =~= vecs_view(out@));
    }
    out
}

fn line_error(lineno: usize, raw: &Vec<char>, cause: String) -> (msg: String)
    requires
        lineno <= u64::MAX,
    ensures
        msg@ == line_prefix(lineno as nat, raw@) + cause@,
{
    let mut msg = "line ".to_string();
    crate::chars::push_uint(&mut msg, lineno as u64);
    push_str(&mut msg, ": ");
    let t = trimmed(raw.as_slice());
    push_all(&mut msg, t.as_slice());
    push_str(&mut msg, ": ");
    push_str(&mut msg, cause.as_str());
    proof {
        reveal_strlit("line ");
        reveal_strlit(": ");
    }
    assert(msg@ =~= line_prefix(lineno as nat, raw@) + cause@);
    msg
}

/// Reads a tape: settings and actions, one directive per line, `#` comments.
pub fn parse(src: &str) -> (res: Result<Tape, String>)
    ensures
        match tape_of(src@) {
            Some((c, o)) => res matches Ok(t) && t.config@ == c && ops_view(t.ops@) == o,
            None => res matches Err(m) && m@ == tape_error(src@),
        },
{
    let chars = chars_of(src);
    let lines = split_lines(chars.as_slice());
    let mut config = Config::default();
    let mut ops: Vec<Op> = Vec::new();
    let mut i: usize = 0;
    assert(ops_view(ops@) =~= Seq::<OpView>::empty());
    assert(vecs_view(lines@).skip(0) == vecs_view(lines@));
    while i < lines.len()
        invariant
            i <= lines.len(),
            tape_of(src@) == run_lines(vecs_view(lines@).skip(i as int), config@, ops_view(ops@)),
            tape_error(src@) == run_error(vecs_view(lines@).skip(i as int), (i + 1) as nat, config@, ops_view(ops@)),
            vecs_view(lines@) == lines_of(src@),
        decreases lines.len() - i,
    {
        let ghost rest = vecs_view(lines@).skip(i as int);
        proof {
            lemma_vecs_index(lines@, i as int);
            assert(rest[0] == lines@[i as int]@);
            assert(rest.drop_first() == vecs_view(lines@).skip(i + 1));
        }
        let k = uncommented_len(lines[i].as_slice());
        let cut = slice_of(lines[i].as_slice(), 0, k);
        let line = trimmed(cut.as_slice());
        if line.len() > 0 {
            match tokens(line.as_slice()) {
                None => {
                    return Err(line_error(i + 1, &lines[i], "unterminated string".to_string()));
                },
                Some(toks) => {
                    if toks.len() > 0 {
                        match apply(&mut config, &mut ops, &toks) {
                            Ok(()) => {},
                            Err(e) => {
                                return Err(line_error(i + 1, &lines[i], e));
                            },
                        }
                    }
                },
            }
        }
        i = i + 1;
    }
    Ok(Tape { config, ops })
}

/// An idle limit as a person writes it: `off` or `none`, in any case, for
/// no limit, and a span otherwise.
pub fn trim_setting(s: &str) -> (res: Result<Option<Duration>, String>)
    ensures
        lower_all(s@) == "off"@ || lower_all(s@) == "none"@ ==> res == Ok::<Option<Duration>, String>(None),
        !(lower_all(s@) == "off"@ || lower_all(s@) == "none"@) ==> match duration_of(s@) {
            Some(n) => res matches Ok(Some(d)) && d@ == n,
            None => res matches Err(m) && m@ == duration_error(s@),
        },
{
    let v = chars_of(s);
    let l = lower_chars(v.as_slice());
    if same_chars(l.as_slice(), "off") || same_chars(l.as_slice(), "none") {
        return Ok(None);
    }
    match duration(s) {
        Ok(d) => Ok(Some(d)),
        Err(e) => Err(e),
    }
}

} // verus!
