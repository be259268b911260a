use vstd::prelude::*;

use crate::chars::{digit_char, is_ws, trim, uint_text};
use crate::number::{
    all_digits, decimal_of, decimals_text, digits_value, fraction_micros, is_digit, point_parts,
    lemma_pow10_six, pow10, round_div, rounded_text, unsigned_micros,
};
use crate::reading::{
    finite_parts, lemma_digits_reading, lemma_plain_micros, scaled, scaled_within, sign_of,
};
use crate::tape::parse::{
    apply_spec, drop_cr, duration_of, ends_with, lemma_first_newline, lines_of, run_lines,
    tokens_from, tokens_of, uint_of, uncommented, uncommented_from, words_of,
};
use crate::tape::{default_config, ConfigView, Key, OpView};
use crate::tape::write::{
    dur_text, escaped, escaped_char, font_text, frame_text, head_text, key_text, onoff_text, op_text,
    ops_text, opt_line, privacy_text, quoted_text, quoted_words, redact_text, settings_text,
    source_text, timing_text,
};

verus! {

proof fn lemma_digit_char(d: nat)
    requires
        d < 10,
    ensures
        is_digit(digit_char(d)),
        ((digit_char(d) as nat) - 48) as nat == d,
        digit_char(d) != '+' && digit_char(d) != '-' && digit_char(d) != '.',
{
    assert((((d + 48) as u8) as char) as nat == d + 48);
}

proof fn lemma_uint_text(n: nat)
    ensures
        uint_text(n).len() >= 1,
        all_digits(uint_text(n)),
        digits_value(uint_text(n)) == n,
    decreases n,
{
    if n < 10 {
        lemma_digit_char(n);
        assert(seq![digit_char(n)].drop_last() =~= Seq::<char>::empty());
        assert(digits_value(seq![digit_char(n)]) == digits_value(Seq::<char>::empty()) * 10 + ((
        digit_char(n) as nat) - 48) as nat);
    } else {
        lemma_uint_text(n / 10);
        lemma_digit_char(n % 10);
        let t = uint_text(n / 10);
        assert(t.push(digit_char(n % 10)).drop_last() == t);
        assert(digits_value(t.push(digit_char(n % 10))) == digits_value(t) * 10 + ((digit_char(n % 10)
            as nat) - 48) as nat);
        assert(n == (n / 10) * 10 + n % 10);
        assert forall|i: int| 0 <= i < t.len() + 1 implies is_digit(#[trigger] t.push(digit_char(n % 10))[i]) by {
            if i < t.len() {
                assert(is_digit(t[i]));
            }
        }
    }
}

/// Written in decimal and read back, a count is itself.
proof fn lemma_uint_round_trip(n: nat)
    ensures
        uint_of(uint_text(n)) == Some(n),
{
    lemma_uint_text(n);
    let t = uint_text(n);
    assert(is_digit(t[0]));
}

proof fn lemma_pow10_small()
    ensures
        pow10(0) == 1,
        pow10(1) == 10,
        pow10(2) == 100,
        pow10(4) == 10_000,
        pow10(5) == 100_000,
        pow10(6) == 1_000_000,
{
    reveal_with_fuel(pow10, 7);
}

/// A text with no whitespace at either end is its own trim.
proof fn lemma_trim_plain(s: Seq<char>)
    requires
        s.len() > 0,
        !is_ws(s[0]),
        !is_ws(s.last()),
    ensures
        trim(s) == s,
{
}

/// Decimal digits read as a number with no point: that many whole units.
proof fn lemma_decimal_of_digits(t: Seq<char>)
    requires
        t.len() > 0,
        all_digits(t),
        digits_value(t) * 1_000_000 <= i64::MAX,
    ensures
        decimal_of(t) == Some((digits_value(t) * 1_000_000) as int),
{
    lemma_digits_reading(t);
    lemma_pow10_six();
}

/// The spans [`dur_text`] writes exactly: whole milliseconds.
pub open spec fn writable_span(d: nat) -> bool {
    &&& d % 1_000_000 == 0
    &&& d <= crate::time::MAX_NANOS
}

proof fn lemma_span_round_trip(d: nat)
    requires
        writable_span(d),
    ensures
        duration_of(dur_text(d)) == Some(d),
        dur_text(d).len() > 0,
        !is_ws(dur_text(d)[0]),
        !is_ws(dur_text(d).last()),
        forall|i: int| 0 <= i < dur_text(d).len() ==> {
            let c = #[trigger] dur_text(d)[i];
            !is_ws(c) && c != '"' && c != '#' && c != '\\' && c != '\n'
        },
{
    let ms = d / 1_000_000;
    lemma_uint_text(ms);
    lemma_uint_text(ms / 1000);
    let t = dur_text(d);
    if ms >= 1000 && ms % 1000 == 0 {
        let w = uint_text(ms / 1000);
        assert(t == w + seq!['s']);
        assert(!ends_with(t, seq!['m', 's'])) by {
            assert(is_digit(w.last()));
            assert(t[t.len() - 2] == w.last());
            if ends_with(t, seq!['m', 's']) {
                assert(t.skip(t.len() - 2)[0] == t[t.len() - 2]);
            }
        }
        assert(ends_with(t, seq!['s'])) by {
            assert(t.skip(t.len() - 1) =~= seq!['s']);
        }
        assert(t.take(t.len() - 1) =~= w);
        lemma_trim_plain(t);
        lemma_trim_plain(w);
        assert(digits_value(w) == ms / 1000);
        assert(d == (ms / 1000) * 1_000_000_000);
        lemma_digits_reading(w);
        lemma_pow10_six();
        assert(trim(t) == t);
        assert(trim(t.take(t.len() - 1)) == w);
        assert(scaled(digits_value(w) * 1000, 6) == Some(digits_value(w) * 1000 * 1_000_000));
        assert(duration_of(t) == Some(d));
        assert forall|i: int| 0 <= i < t.len() implies {
            let c = #[trigger] t[i];
            !is_ws(c) && c != '"' && c != '#' && c != '\\' && c != '\n'
        } by {
            if i < w.len() {
                assert(is_digit(w[i]));
            }
        }
    } else {
        let w = uint_text(ms);
        assert(t == w + seq!['m', 's']);
        assert(ends_with(t, seq!['m', 's'])) by {
            assert(t.skip(t.len() - 2) =~= seq!['m', 's']);
        }
        assert(t.take(t.len() - 2) =~= w);
        lemma_trim_plain(t);
        lemma_trim_plain(w);
        assert(d == ms * 1_000_000);
        lemma_digits_reading(w);
        lemma_pow10_six();
        assert(trim(t) == t);
        assert(trim(t.take(t.len() - 2)) == w);
        assert(scaled(digits_value(w) * 1, 6) == Some(digits_value(w) * 1_000_000));
        assert(trim(dur_text(d)) == t);
        assert(ends_with(trim(dur_text(d)), seq!['m', 's']));
        assert(duration_of(t) == Some(d));
        assert forall|i: int| 0 <= i < t.len() implies {
            let c = #[trigger] t[i];
            !is_ws(c) && c != '"' && c != '#' && c != '\\' && c != '\n'
        } by {
            if i < w.len() {
                assert(is_digit(w[i]));
            }
        }
    }
}

/// The characters a plain word of a tape may not hold.
pub open spec fn plain_char(c: char) -> bool {
    !is_ws(c) && c != '"' && c != '#' && c != '\\' && c != '\n'
}

pub open spec fn plain_word(t: Seq<char>) -> bool {
    &&& t.len() > 0
    &&& forall|i: int| 0 <= i < t.len() ==> plain_char(#[trigger] t[i])
}

proof fn lemma_digits_plain(t: Seq<char>)
    requires
        all_digits(t),
    ensures
        forall|i: int| 0 <= i < t.len() ==> plain_char(#[trigger] t[i]) && t[i] != '.',
{
    assert forall|i: int| 0 <= i < t.len() implies plain_char(#[trigger] t[i]) && t[i] != '.' by {
        assert(is_digit(t[i]));
    }
}

/// The point of `w.d` is the only place a point could split it.
proof fn lemma_point_parts(w: Seq<char>, f: Seq<char>)
    requires
        w.len() > 0,
        f.len() > 0,
        all_digits(w),
        all_digits(f),
    ensures
        point_parts(w + seq!['.'] + f) == Some((w, f)),
{
    let b = w + seq!['.'] + f;
    let k = w.len() as int;
    assert(b[k] == '.');
    assert(b.take(k) =~= w);
    assert(b.skip(k + 1) =~= f);
    assert(!all_digits(b)) by {
        assert(!is_digit(b[k]));
    }
    lemma_digits_plain(w);
    lemma_digits_plain(f);
    let j = choose|j: int|
        0 <= j < b.len() && b[j] == '.' && all_digits(b.take(j)) && all_digits(b.skip(j + 1));
    assert(j == k) by {
        if j < k {
            assert(b[j] == w[j]);
        } else if j > k {
            assert(b[j] == f[j - k - 1]);
        }
    }
}

/// The numbers [`rounded_text`] writes exactly with two decimals.
pub open spec fn writable_number(v: int) -> bool {
    &&& v % 10_000 == 0
    &&& i64::MIN <= v <= i64::MAX
}

#[verifier::spinoff_prover]
#[verifier::rlimit(50)]
proof fn lemma_number_round_trip(v: int)
    requires
        writable_number(v),
    ensures
        decimal_of(rounded_text(v, 2)) == Some(v),
        plain_word(rounded_text(v, 2)),
{
    lemma_pow10_small();
    let r = round_div(v, 10_000);
    assert(r == v / 10_000);
    assert(r * 10_000 == v);
    let a: int = if r < 0 {
        -r
    } else {
        r
    };
    let whole = (a / 100) as nat;
    let frac = (a % 100) as nat;
    lemma_uint_text(whole);
    lemma_digits_plain(uint_text(whole));
    let w = uint_text(whole);
    let sign = if r < 0 {
        seq!['-']
    } else {
        Seq::<char>::empty()
    };
    assert(a * 10_000 <= i64::MAX) by {
        if r < 0 {
            assert(v != i64::MIN) by {
                assert(i64::MIN % 10_000 != 0);
            }
        }
    }
    let body: Seq<char>;
    let m: int;
    if frac == 0 {
        body = w;
        assert(rounded_text(v, 2) == sign + w);
        lemma_decimal_of_digits(w);
        m = (whole * 1_000_000) as int;
        assert(unsigned_micros(body) == Some(m as nat)) by {
            assert(point_parts(w) == Some((w, Seq::<char>::empty())));
            assert(fraction_micros(Seq::<char>::empty()) == 0) by {
                assert(digits_value(Seq::<char>::empty()) == 0);
            }
        }
        assert forall|j: int| 0 <= j < body.len() implies is_digit(#[trigger] body[j]) || body[j]
            == '.' by {
            assert(is_digit(w[j]));
        }
        assert(point_parts(w) == Some((w, Seq::<char>::empty())));
        lemma_plain_micros(body, m as nat);
    } else {
        let d1 = frac / 10;
        let d2 = frac % 10;
        lemma_digit_char(d1);
        lemma_digit_char(d2);
        let f = if d2 == 0 {
            seq![digit_char(d1)]
        } else {
            seq![digit_char(d1), digit_char(d2)]
        };
        assert(decimals_text(frac, 2) =~= f) by {
            assert(decimals_text(d2, 1) == if d2 == 0 {
                Seq::<char>::empty()
            } else {
                seq![digit_char(d2)] + decimals_text(0, 0)
            });
        }
        body = w + seq!['.'] + f;
        assert(rounded_text(v, 2) =~= sign + body);
        assert(all_digits(f));
        lemma_point_parts(w, f);
        if d2 == 0 {
            assert(f.drop_last() =~= Seq::<char>::empty());
            assert(digits_value(f) == digits_value(Seq::<char>::empty()) * 10 + ((digit_char(d1) as nat)
                - 48) as nat);
            assert(digits_value(f) == d1);
            assert(fraction_micros(f) == d1 * 100_000);
        } else {
            assert(f.drop_last() =~= seq![digit_char(d1)]);
            assert(seq![digit_char(d1)].drop_last() =~= Seq::<char>::empty());
            assert(digits_value(seq![digit_char(d1)]) == digits_value(Seq::<char>::empty()) * 10 + ((
            digit_char(d1) as nat) - 48) as nat);
            assert(digits_value(f) == digits_value(seq![digit_char(d1)]) * 10 + ((digit_char(d2) as nat)
                - 48) as nat);
            assert(digits_value(f) == d1 * 10 + d2);
            assert(fraction_micros(f) == (d1 * 10 + d2) * 10_000);
        }
        m = (whole * 1_000_000 + frac * 10_000) as int;
        assert(unsigned_micros(body) == Some(m as nat));
        assert(all_digits(w));
        assert forall|j: int| 0 <= j < body.len() implies is_digit(#[trigger] body[j]) || body[j]
            == '.' by {
            if j < w.len() {
                assert(body[j] == w[j]);
            } else if j > w.len() {
                assert(body[j] == f[j - w.len() - 1]);
            }
        }
        lemma_plain_micros(body, m as nat);
    }
    assert(m == a * 10_000);
    if r < 0 {
        assert(rounded_text(v, 2)[0] == '-');
        assert(rounded_text(v, 2).skip(1) =~= body);
    } else {
        assert(rounded_text(v, 2) =~= body);
        assert(is_digit(body[0]));
    }
    assert(sign_of(rounded_text(v, 2)) == (r < 0, body));
    assert(scaled_within(digits_value(finite_parts(body).unwrap().0), finite_parts(body).unwrap().1
        + 6, i64::MAX as nat) == Some(m as nat));
    assert(decimal_of(rounded_text(v, 2)) == Some(v));
    assert forall|i: int| 0 <= i < rounded_text(v, 2).len() implies plain_char(#[trigger] rounded_text(v, 2)[i]) by {
        let t = rounded_text(v, 2);
        if r < 0 && i == 0 {
        } else {
            let j = if r < 0 { i - 1 } else { i };
            assert(t[i] == body[j]);
            if j < w.len() {
                assert(plain_char(w[j]));
            }
        }
    }
}

/// How many double quotes `t` holds.
pub open spec fn quote_count(t: Seq<char>) -> nat
    decreases t.len(),
{
    if t.len() == 0 {
        0
    } else {
        quote_count(t.drop_last()) + if t.last() == '"' {
            1nat
        } else {
            0nat
        }
    }
}

/// Whether no `#` of `t`, quoted and written after a line in quote state
/// `q`, would start a comment: each `#` is inside quotes as a reader that
/// only counts double quotes sees it.
pub open spec fn hash_safe(t: Seq<char>, q: bool) -> bool {
    forall|k: int| 0 <= k < t.len() && #[trigger] t[k] == '#' ==> (q != (quote_count(t.take(k)) % 2 == 1))
}

proof fn lemma_quote_count_add(a: Seq<char>, b: Seq<char>)
    ensures
        quote_count(a + b) == quote_count(a) + quote_count(b),
    decreases b.len(),
{
    if b.len() == 0 {
        assert(a + b =~= a);
    } else {
        lemma_quote_count_add(a, b.drop_last());
        assert((a + b).drop_last() =~= a + b.drop_last());
    }
}

proof fn lemma_escaped_add(a: Seq<char>, b: Seq<char>)
    ensures
        escaped(a + b) == escaped(a) + escaped(b),
    decreases b.len(),
{
    if b.len() == 0 {
        assert(a + b =~= a);
        assert(escaped(a) + escaped(b) =~= escaped(a));
    } else {
        lemma_escaped_add(a, b.drop_last());
        assert((a + b).drop_last() =~= a + b.drop_last());
        assert(escaped(a + b) =~= escaped(a) + escaped(b));
    }
}

/// `t` split after its first character, as [`escaped`] writes it.
proof fn lemma_escaped_first(t: Seq<char>)
    requires
        t.len() > 0,
    ensures
        escaped(t) == escaped_char(t[0]) + escaped(t.drop_first()),
        t == seq![t[0]] + t.drop_first(),
{
    assert(t =~= seq![t[0]] + t.drop_first());
    lemma_escaped_add(seq![t[0]], t.drop_first());
    assert(seq![t[0]].drop_last() =~= Seq::<char>::empty());
    assert(escaped(Seq::<char>::empty()) == Seq::<char>::empty());
    assert(escaped(seq![t[0]]) == escaped(seq![t[0]].drop_last()) + escaped_char(seq![t[0]].last()));
    assert(escaped(seq![t[0]]) =~= escaped_char(t[0]));
}

/// A reader that cuts comments walks an escaped text in one quote state
/// and leaves it in the state its double quotes give.
proof fn lemma_uncommented_escaped(line: Seq<char>, p: int, t: Seq<char>, q: bool)
    requires
        0 <= p,
        p + escaped(t).len() <= line.len(),
        line.subrange(p, p + escaped(t).len()) == escaped(t),
        hash_safe(t, q),
    ensures
        uncommented_from(line, p, q) == uncommented_from(
            line,
            p + escaped(t).len(),
            q != (quote_count(t) % 2 == 1),
        ),
    decreases t.len(),
{
    if t.len() == 0 {
        assert(escaped(t).len() == 0);
    } else {
        lemma_escaped_first(t);
        let x = t[0];
        let rest = t.drop_first();
        let e = escaped_char(x);
        lemma_quote_count_add(seq![x], rest);
        assert(seq![x].drop_last() =~= Seq::<char>::empty());
        let qx = quote_count(seq![x]);
        let q2 = q != (qx % 2 == 1);
        assert(hash_safe(rest, q2)) by {
            assert forall|k: int| 0 <= k < rest.len() && #[trigger] rest[k] == '#' implies (q2 != (
            quote_count(rest.take(k)) % 2 == 1)) by {
                assert(t[k + 1] == '#');
                assert(t.take(k + 1) =~= seq![x] + rest.take(k));
                lemma_quote_count_add(seq![x], rest.take(k));
            }
        }
        assert(line.subrange(p + e.len(), p + e.len() + escaped(rest).len()) =~= escaped(rest)) by {
            assert forall|i: int| 0 <= i < escaped(rest).len() implies line.subrange(
                p + e.len(),
                p + e.len() + escaped(rest).len(),
            )[i] == escaped(rest)[i] by {
                assert(line[p + e.len() + i] == escaped(t)[e.len() + i]);
            }
        }
        let n = escaped(t).len();
        assert(line[p] == line.subrange(p, p + n)[0]);
        assert(escaped(t)[0] == e[0]);
        assert(quote_count(seq![x]) == quote_count(Seq::<char>::empty()) + if x == '"' {
            1nat
        } else {
            0nat
        });
        if x == '"' || x == '\\' {
            assert(line[p + 1] == line.subrange(p, p + n)[1]);
            assert(escaped(t)[1] == e[1]);
            assert(line[p] == '\\');
            assert(line[p + 1] == x);
            assert(uncommented_from(line, p, q) == uncommented_from(line, p + 1, q));
            if x == '"' {
                assert(uncommented_from(line, p + 1, q) == uncommented_from(line, p + 2, !q));
            } else {
                assert(uncommented_from(line, p + 1, q) == uncommented_from(line, p + 2, q));
            }
        } else {
            assert(line[p] == x);
            if x == '#' {
                assert(t.take(0) =~= Seq::<char>::empty());
                assert(q);
            }
            assert(uncommented_from(line, p, q) == uncommented_from(line, p + 1, q));
        }
        assert(uncommented_from(line, p, q) == uncommented_from(line, p + e.len(), q2));
        lemma_uncommented_escaped(line, p + e.len(), rest, q2);
        assert(quote_count(t) == qx + quote_count(rest));
        assert((q2 != (quote_count(rest) % 2 == 1)) == (q != (quote_count(t) % 2 == 1))) by {
            assert(qx == 0 || qx == 1);
        }
    }
}

/// A reader that cuts comments passes over characters that are neither a
/// double quote nor a `#` without changing its state.
proof fn lemma_uncommented_plain(line: Seq<char>, i: int, j: int, q: bool)
    requires
        0 <= i <= j <= line.len(),
        forall|k: int| i <= k < j ==> #[trigger] line[k] != '"' && line[k] != '#',
    ensures
        uncommented_from(line, i, q) == uncommented_from(line, j, q),
    decreases j - i,
{
    if i < j {
        lemma_uncommented_plain(line, i + 1, j, q);
    }
}

/// The tokenizer adds a run of characters that are neither whitespace nor a
/// double quote to the word it is building.
proof fn lemma_tokens_plain(
    line: Seq<char>,
    i: int,
    j: int,
    out: Seq<Seq<char>>,
    cur: Seq<char>,
    started: bool,
)
    requires
        0 <= i <= j <= line.len(),
        forall|k: int| i <= k < j ==> !is_ws(#[trigger] line[k]) && line[k] != '"',
    ensures
        tokens_from(line, i, out, cur, false, started) == tokens_from(
            line,
            j,
            out,
            cur + line.subrange(i, j),
            false,
            started || j > i,
        ),
    decreases j - i,
{
    if i == j {
        assert(cur + line.subrange(i, j) =~= cur);
    } else {
        lemma_tokens_plain(line, i + 1, j, out, cur.push(line[i]), true);
        assert(cur.push(line[i]) + line.subrange(i + 1, j) =~= cur + line.subrange(i, j));
    }
}

/// Inside double quotes the tokenizer reads an escaped text back as the text.
proof fn lemma_tokens_escaped(line: Seq<char>, p: int, t: Seq<char>, out: Seq<Seq<char>>, cur: Seq<char>)
    requires
        0 <= p,
        p + escaped(t).len() <= line.len(),
        line.subrange(p, p + escaped(t).len()) == escaped(t),
    ensures
        tokens_from(line, p, out, cur, true, true) == tokens_from(
            line,
            p + escaped(t).len(),
            out,
            cur + t,
            true,
            true,
        ),
    decreases t.len(),
{
    if t.len() == 0 {
        assert(cur + t =~= cur);
    } else {
        lemma_escaped_first(t);
        let x = t[0];
        let rest = t.drop_first();
        let e = escaped_char(x);
        let n = escaped(t).len();
        assert(line.subrange(p + e.len(), p + e.len() + escaped(rest).len()) =~= escaped(rest)) by {
            assert forall|i: int| 0 <= i < escaped(rest).len() implies line.subrange(
                p + e.len(),
                p + e.len() + escaped(rest).len(),
            )[i] == escaped(rest)[i] by {
                assert(line[p + e.len() + i] == escaped(t)[e.len() + i]);
            }
        }
        assert(line[p] == line.subrange(p, p + n)[0]);
        assert(escaped(t)[0] == e[0]);
        if x == '"' || x == '\\' {
            assert(line[p + 1] == line.subrange(p, p + n)[1]);
            assert(escaped(t)[1] == e[1]);
            assert(tokens_from(line, p, out, cur, true, true) == tokens_from(
                line,
                p + 2,
                out,
                cur.push(x),
                true,
                true,
            ));
        } else {
            assert(line[p] == x);
            assert(tokens_from(line, p, out, cur, true, true) == tokens_from(
                line,
                p + 1,
                out,
                cur.push(x),
                true,
                true,
            ));
        }
        lemma_tokens_escaped(line, p + e.len(), rest, out, cur.push(x));
        assert(cur.push(x) + rest =~= cur + t);
    }
}

/// A quoted text, read by the tokenizer outside quotes, adds the text to the
/// word it is building; read by the comment cutter, it keeps its `#`s where
/// [`hash_safe`] holds and flips the quote state once per double quote.
proof fn lemma_quoted(line: Seq<char>, i: int, t: Seq<char>, out: Seq<Seq<char>>, cur: Seq<char>, started: bool, q: bool)
    requires
        0 <= i,
        i + quoted_text(t).len() <= line.len(),
        line.subrange(i, i + quoted_text(t).len()) == quoted_text(t),
    ensures
        tokens_from(line, i, out, cur, false, started) == tokens_from(
            line,
            i + quoted_text(t).len(),
            out,
            cur + t,
            false,
            true,
        ),
        hash_safe(t, !q) ==> uncommented_from(line, i, q) == uncommented_from(
            line,
            i + quoted_text(t).len(),
            q != (quote_count(t) % 2 == 1),
        ),
        quoted_text(t).len() == escaped(t).len() + 2,
{
    let n = quoted_text(t).len();
    let m = escaped(t).len();
    assert(line[i] == line.subrange(i, i + n)[0]);
    assert(line[i + 1 + m] == line.subrange(i, i + n)[(1 + m) as int]);
    assert(line[i] == '"');
    assert(line[i + 1 + m] == '"');
    assert(line.subrange(i + 1, i + 1 + m) =~= escaped(t)) by {
        assert forall|k: int| 0 <= k < m implies line.subrange(i + 1, i + 1 + m)[k] == escaped(t)[k] by {
            assert(line[i + 1 + k] == line.subrange(i, i + n)[1 + k]);
        }
    }
    lemma_tokens_escaped(line, i + 1, t, out, cur);
    if hash_safe(t, !q) {
        lemma_uncommented_escaped(line, i + 1, t, !q);
    }
}

/// Lines written one after another, each ended by a newline.
pub open spec fn joined(ls: Seq<Seq<char>>) -> Seq<char>
    decreases ls.len(),
{
    if ls.len() == 0 {
        Seq::empty()
    } else {
        joined(ls.drop_last()) + ls.last() + seq!['\n']
    }
}

proof fn lemma_joined_add(a: Seq<Seq<char>>, b: Seq<Seq<char>>)
    ensures
        joined(a + b) == joined(a) + joined(b),
    decreases b.len(),
{
    if b.len() == 0 {
        assert(a + b =~= a);
        assert(joined(a) + joined(b) =~= joined(a));
    } else {
        lemma_joined_add(a, b.drop_last());
        assert((a + b).drop_last() =~= a + b.drop_last());
        assert((a + b).last() == b.last());
        assert(joined(a + b) =~= joined(a) + joined(b));
    }
}

proof fn lemma_joined_one(l: Seq<char>)
    ensures
        joined(seq![l]) == l + seq!['\n'],
{
    assert(seq![l].drop_last() =~= Seq::<Seq<char>>::empty());
    assert(joined(Seq::<Seq<char>>::empty()) + l + seq!['\n'] =~= l + seq!['\n']);
}

/// A line the reader splits out as it was written: no newline in it, and
/// no carriage return at its end.
pub open spec fn clean_line(l: Seq<char>) -> bool {
    &&& forall|k: int| 0 <= k < l.len() ==> #[trigger] l[k] != '\n'
    &&& (l.len() > 0 ==> l.last() != '\r')
}

proof fn lemma_lines_joined(ls: Seq<Seq<char>>)
    requires
        forall|i: int| 0 <= i < ls.len() ==> clean_line(#[trigger] ls[i]),
    ensures
        lines_of(joined(ls)) == ls,
    decreases ls.len(),
{
    if ls.len() == 0 {
    } else {
        let l = ls[0];
        let rest = ls.drop_first();
        assert(ls =~= seq![l] + rest);
        lemma_joined_add(seq![l], rest);
        lemma_joined_one(l);
        let s = joined(ls);
        assert(s =~= l + seq!['\n'] + joined(rest));
        assert(clean_line(l));
        lemma_first_newline(s, 0, l.len() as int);
        assert(s.take(l.len() as int) =~= l);
        assert(s.skip(l.len() + 1int) =~= joined(rest));
        assert(drop_cr(l) == l);
        assert forall|i: int| 0 <= i < rest.len() implies clean_line(#[trigger] rest[i]) by {
            assert(rest[i] == ls[i + 1]);
        }
        lemma_lines_joined(rest);
    }
}

/// Running two runs of lines is running the first, then the second from
/// where the first left off.
proof fn lemma_run_lines_add(a: Seq<Seq<char>>, b: Seq<Seq<char>>, cfg: ConfigView, ops: Seq<OpView>)
    ensures
        run_lines(a + b, cfg, ops) == match run_lines(a, cfg, ops) {
            Some((c, o)) => run_lines(b, c, o),
            None => None,
        },
    decreases a.len(),
{
    if a.len() == 0 {
        assert(a + b =~= b);
    } else {
        assert((a + b)[0] == a[0]);
        assert((a + b).drop_first() =~= a.drop_first() + b);
        let line = crate::chars::trim(uncommented(a[0]));
        if line.len() == 0 {
            lemma_run_lines_add(a.drop_first(), b, cfg, ops);
        } else {
            match tokens_of(line) {
                None => {},
                Some(t) => if t.len() == 0 {
                    lemma_run_lines_add(a.drop_first(), b, cfg, ops);
                } else {
                    match apply_spec(cfg, ops, t) {
                        None => {},
                        Some((c, o)) => {
                            lemma_run_lines_add(a.drop_first(), b, c, o);
                        },
                    }
                },
            }
        }
    }
}

/// A line the reader takes as it stands: nothing cut as a comment, nothing
/// to trim, and its words read as `toks`.
pub open spec fn reads_as(l: Seq<char>, toks: Seq<Seq<char>>) -> bool {
    &&& uncommented(l) == l
    &&& crate::chars::trim(l) == l
    &&& l.len() > 0
    &&& tokens_of(l) == Some(toks)
    &&& toks.len() > 0
}

/// The characters a bare word of a tape line may hold: no whitespace, no
/// double quote and no `#`.
pub open spec fn bare_word(t: Seq<char>) -> bool {
    &&& t.len() > 0
    &&& forall|i: int| 0 <= i < t.len() ==> !is_ws(#[trigger] t[i]) && t[i] != '"' && t[i] != '#'
}

pub open spec fn no_newline(t: Seq<char>) -> bool {
    forall|k: int| 0 <= k < t.len() ==> #[trigger] t[k] != '\n'
}

proof fn lemma_escaped_no_newline(t: Seq<char>)
    requires
        no_newline(t),
    ensures
        no_newline(escaped(t)),
    decreases t.len(),
{
    if t.len() > 0 {
        let a = t.drop_last();
        assert forall|k: int| 0 <= k < a.len() implies #[trigger] a[k] != '\n' by {
            assert(a[k] == t[k]);
        }
        lemma_escaped_no_newline(a);
        let e = escaped_char(t.last());
        assert(escaped(t) == escaped(a) + e);
        assert forall|k: int| 0 <= k < escaped(t).len() implies #[trigger] escaped(t)[k] != '\n' by {
            if k < escaped(a).len() {
                assert(escaped(t)[k] == escaped(a)[k]);
            } else {
                assert(t[t.len() - 1] == t.last());
            }
        }
    }
}

proof fn lemma_quoted_no_newline(t: Seq<char>)
    requires
        no_newline(t),
    ensures
        no_newline(quoted_text(t)),
        quoted_text(t).len() >= 2,
        quoted_text(t)[0] == '"',
        quoted_text(t).last() == '"',
{
    lemma_escaped_no_newline(t);
    let q = quoted_text(t);
    assert forall|k: int| 0 <= k < q.len() implies #[trigger] q[k] != '\n' by {
        if 0 < k < q.len() - 1 {
            assert(q[k] == escaped(t)[k - 1]);
        }
    }
}

/// A bare word, read by the tokenizer and by the comment cutter.
proof fn lemma_bare_span(line: Seq<char>, i: int, w: Seq<char>, out: Seq<Seq<char>>, cur: Seq<char>, started: bool, q: bool)
    requires
        0 <= i,
        i + w.len() <= line.len(),
        line.subrange(i, i + w.len()) == w,
        bare_word(w),
    ensures
        tokens_from(line, i, out, cur, false, started) == tokens_from(line, i + w.len(), out, cur + w, false, true),
        uncommented_from(line, i, q) == uncommented_from(line, i + w.len(), q),
{
    assert forall|k: int| i <= k < i + w.len() implies !is_ws(#[trigger] line[k]) && line[k] != '"' && line[k] != '#' by {
        assert(line[k] == w[k - i]);
    }
    lemma_tokens_plain(line, i, i + w.len(), out, cur, started);
    lemma_uncommented_plain(line, i, i + w.len(), q);
}

/// A space between two words.
proof fn lemma_space(line: Seq<char>, i: int, out: Seq<Seq<char>>, cur: Seq<char>, q: bool)
    requires
        0 <= i < line.len(),
        line[i] == ' ',
    ensures
        tokens_from(line, i, out, cur, false, true) == tokens_from(line, i + 1, out.push(cur), Seq::empty(), false, false),
        uncommented_from(line, i, q) == uncommented_from(line, i + 1, q),
{
}

/// A line ends outside quotes with a word under way.
proof fn lemma_line_end(line: Seq<char>, out: Seq<Seq<char>>, cur: Seq<char>, q: bool)
    ensures
        tokens_from(line, line.len() as int, out, cur, false, true) == Some(out.push(cur)),
        uncommented_from(line, line.len() as int, q) == line,
{
}

/// `w "t"`: a word and a quoted text.
proof fn lemma_shape_quoted(w: Seq<char>, t: Seq<char>)
    requires
        bare_word(w),
        hash_safe(t, true),
        no_newline(t),
    ensures
        reads_as(w + seq![' '] + quoted_text(t), seq![w, t]),
        clean_line(w + seq![' '] + quoted_text(t)),
{
    let l = w + seq![' '] + quoted_text(t);
    let n = w.len() as int;
    lemma_quoted_no_newline(t);
    assert(l.subrange(0, n) =~= w);
    lemma_bare_span(l, 0, w, Seq::empty(), Seq::empty(), false, false);
    assert(Seq::<char>::empty() + w =~= w);
    lemma_space(l, n, Seq::empty(), w, false);
    assert(l.subrange(n + 1, l.len() as int) =~= quoted_text(t));
    lemma_quoted(l, n + 1, t, seq![w], Seq::empty(), false, false);
    assert(Seq::<char>::empty() + t =~= t);
    assert(Seq::<Seq<char>>::empty().push(w) =~= seq![w]);
    lemma_line_end(l, seq![w], t, (false != (quote_count(t) % 2 == 1)));
    assert(seq![w].push(t) =~= seq![w, t]);
    assert(!is_ws(l[0]));
    assert(l.last() == '"');
    lemma_trim_plain(l);
    assert forall|k: int| 0 <= k < l.len() implies #[trigger] l[k] != '\n' by {
        if k < n {
            assert(l[k] == w[k]);
        } else if k > n {
            assert(l[k] == quoted_text(t)[k - n - 1]);
        }
    }
}

/// `w p`: two bare words.
proof fn lemma_shape_bare(w: Seq<char>, p: Seq<char>)
    requires
        bare_word(w),
        bare_word(p),
    ensures
        reads_as(w + seq![' '] + p, seq![w, p]),
        clean_line(w + seq![' '] + p),
{
    let l = w + seq![' '] + p;
    let n = w.len() as int;
    assert(l.subrange(0, n) =~= w);
    lemma_bare_span(l, 0, w, Seq::empty(), Seq::empty(), false, false);
    assert(Seq::<char>::empty() + w =~= w);
    lemma_space(l, n, Seq::empty(), w, false);
    assert(l.subrange(n + 1, l.len() as int) =~= p);
    lemma_bare_span(l, n + 1, p, seq![w], Seq::empty(), false, false);
    assert(Seq::<char>::empty() + p =~= p);
    assert(Seq::<Seq<char>>::empty().push(w) =~= seq![w]);
    lemma_line_end(l, seq![w], p, false);
    assert(seq![w].push(p) =~= seq![w, p]);
    assert(!is_ws(l[0]));
    assert(l.last() == p[p.len() - 1]);
    lemma_trim_plain(l);
    assert forall|k: int| 0 <= k < l.len() implies #[trigger] l[k] != '\n' by {
        if k < n {
            assert(l[k] == w[k]);
        } else if k > n {
            assert(l[k] == p[k - n - 1]);
        }
    }
}

/// `w`: a bare word alone.
proof fn lemma_shape_word(w: Seq<char>)
    requires
        bare_word(w),
    ensures
        reads_as(w, seq![w]),
        clean_line(w),
{
    assert(w.subrange(0, w.len() as int) =~= w);
    lemma_bare_span(w, 0, w, Seq::empty(), Seq::empty(), false, false);
    assert(Seq::<char>::empty() + w =~= w);
    lemma_line_end(w, Seq::empty(), w, false);
    assert(Seq::<Seq<char>>::empty().push(w) =~= seq![w]);
    assert(w.last() == w[w.len() - 1]);
    lemma_trim_plain(w);
}

/// `w "t" p`: a word, a quoted text and a bare word.
proof fn lemma_shape_quoted_bare(w: Seq<char>, t: Seq<char>, p: Seq<char>)
    requires
        bare_word(w),
        bare_word(p),
        hash_safe(t, true),
        no_newline(t),
    ensures
        reads_as(w + seq![' '] + quoted_text(t) + seq![' '] + p, seq![w, t, p]),
        clean_line(w + seq![' '] + quoted_text(t) + seq![' '] + p),
{
    let l = w + seq![' '] + quoted_text(t) + seq![' '] + p;
    let n = w.len() as int;
    let m = quoted_text(t).len() as int;
    lemma_quoted_no_newline(t);
    assert(l.subrange(0, n) =~= w);
    lemma_bare_span(l, 0, w, Seq::empty(), Seq::empty(), false, false);
    assert(Seq::<char>::empty() + w =~= w);
    lemma_space(l, n, Seq::empty(), w, false);
    assert(l.subrange(n + 1, n + 1 + m) =~= quoted_text(t));
    lemma_quoted(l, n + 1, t, seq![w], Seq::empty(), false, false);
    let q2 = false != (quote_count(t) % 2 == 1);
    assert(Seq::<char>::empty() + t =~= t);
    assert(Seq::<Seq<char>>::empty().push(w) =~= seq![w]);
    lemma_space(l, n + 1 + m, seq![w], t, q2);
    assert(l.subrange(n + 2 + m, l.len() as int) =~= p);
    lemma_bare_span(l, n + 2 + m, p, seq![w, t], Seq::empty(), false, q2);
    assert(seq![w].push(t) =~= seq![w, t]);
    assert(Seq::<char>::empty() + p =~= p);
    lemma_line_end(l, seq![w, t], p, q2);
    assert(seq![w, t].push(p) =~= seq![w, t, p]);
    assert(!is_ws(l[0]));
    assert(l.last() == p[p.len() - 1]);
    lemma_trim_plain(l);
    assert forall|k: int| 0 <= k < l.len() implies #[trigger] l[k] != '\n' by {
        if k < n {
            assert(l[k] == w[k]);
        } else if n < k < n + 1 + m {
            assert(l[k] == quoted_text(t)[k - n - 1]);
        } else if k > n + 1 + m {
            assert(l[k] == p[k - n - 2 - m]);
        }
    }
}

/// The quote state a comment cutter is in after the quoted words `ws`,
/// starting in state `q`.
pub open spec fn words_state(ws: Seq<Seq<char>>, q: bool) -> bool
    decreases ws.len(),
{
    if ws.len() == 0 {
        q
    } else {
        words_state(ws.drop_last(), q) != (quote_count(ws.last()) % 2 == 1)
    }
}

/// Whether no `#` of the quoted words `ws` would start a comment: each one
/// follows an even number of double quotes counted from the first word.
pub open spec fn words_hash_safe(ws: Seq<Seq<char>>) -> bool
    decreases ws.len(),
{
    if ws.len() == 0 {
        true
    } else {
        words_hash_safe(ws.drop_last()) && hash_safe(ws.last(), !words_state(ws.drop_last(), false))
    }
}

proof fn lemma_quoted_words(line: Seq<char>, i: int, ws: Seq<Seq<char>>, out: Seq<Seq<char>>)
    requires
        ws.len() >= 1,
        0 <= i,
        i + quoted_words(ws).len() <= line.len(),
        line.subrange(i, i + quoted_words(ws).len()) == quoted_words(ws),
    ensures
        tokens_from(line, i, out, Seq::empty(), false, false) == tokens_from(
            line,
            i + quoted_words(ws).len(),
            out + ws.drop_last(),
            ws.last(),
            false,
            true,
        ),
        words_hash_safe(ws) ==> uncommented_from(line, i, false) == uncommented_from(
            line,
            i + quoted_words(ws).len(),
            words_state(ws, false),
        ),
        (forall|k: int| 0 <= k < ws.len() ==> no_newline(#[trigger] ws[k])) ==> no_newline(quoted_words(ws)),
        quoted_words(ws).len() > 0,
        quoted_words(ws).last() == '"',
    decreases ws.len(),
{
    if ws.len() == 1 {
        assert(ws[0] == ws.last());
        assert(ws.drop_last() =~= Seq::<Seq<char>>::empty());
        assert(out + ws.drop_last() =~= out);
        lemma_quoted(line, i, ws[0], out, Seq::empty(), false, false);
        assert(Seq::<char>::empty() + ws[0] =~= ws[0]);
        assert(words_state(ws.drop_last(), false) == false);
        assert(words_state(ws, false) == (false != (quote_count(ws[0]) % 2 == 1)));
        assert(words_hash_safe(ws) ==> hash_safe(ws[0], true));
        if forall|k: int| 0 <= k < ws.len() ==> no_newline(#[trigger] ws[k]) {
            assert(no_newline(ws[0]));
            lemma_quoted_no_newline(ws[0]);
        }
        lemma_quoted_no_newline(Seq::<char>::empty());
        assert(quoted_words(ws).len() == escaped(ws[0]).len() + 2);
        assert(quoted_words(ws).last() == quoted_words(ws)[quoted_words(ws).len() - 1]);
    } else {
        let a = ws.drop_last();
        let x = ws.last();
        let qa = quoted_words(a);
        let na = qa.len() as int;
        let nx = quoted_text(x).len() as int;
        assert(quoted_words(ws) == qa + seq![' '] + quoted_text(x));
        assert(line.subrange(i, i + na) =~= qa) by {
            assert forall|k: int| 0 <= k < na implies line.subrange(i, i + na)[k] == qa[k] by {
                assert(line[i + k] == quoted_words(ws)[k]);
            }
        }
        lemma_quoted_words(line, i, a, out);
        assert(line[i + na] == quoted_words(ws)[na]);
        lemma_space(line, i + na, out + a.drop_last(), a.last(), words_state(a, false));
        assert((out + a.drop_last()).push(a.last()) =~= out + a);
        assert(line.subrange(i + na + 1, i + na + 1 + nx) =~= quoted_text(x)) by {
            assert forall|k: int| 0 <= k < nx implies line.subrange(i + na + 1, i + na + 1 + nx)[k] == quoted_text(x)[k] by {
                assert(line[i + na + 1 + k] == quoted_words(ws)[na + 1 + k]);
            }
        }
        lemma_quoted(line, i + na + 1, x, out + a, Seq::empty(), false, words_state(a, false));
        assert(Seq::<char>::empty() + x =~= x);
        assert(ws.drop_last() == a);
        if forall|k: int| 0 <= k < ws.len() ==> no_newline(#[trigger] ws[k]) {
            assert forall|k: int| 0 <= k < a.len() implies no_newline(#[trigger] a[k]) by {
                assert(a[k] == ws[k]);
            }
            assert(no_newline(ws[ws.len() - 1]));
            lemma_quoted_no_newline(x);
            assert forall|k: int| 0 <= k < quoted_words(ws).len() implies #[trigger] quoted_words(ws)[k] != '\n' by {
                if k < na {
                    assert(quoted_words(ws)[k] == qa[k]);
                } else if k > na {
                    assert(quoted_words(ws)[k] == quoted_text(x)[k - na - 1]);
                }
            }
        }
        lemma_quoted_no_newline(Seq::<char>::empty());
        lemma_quoted(line, i + na + 1, x, out + a, Seq::empty(), false, false);
        assert(quoted_words(ws).last() == quoted_text(x)[nx - 1]);
        lemma_escaped_no_newline(Seq::<char>::empty());
        assert(quoted_text(x)[nx - 1] == '"');
    }
}

/// `w "a" "b" ...`: a word and quoted words.
proof fn lemma_shape_words(w: Seq<char>, ws: Seq<Seq<char>>)
    requires
        bare_word(w),
        ws.len() >= 1,
        words_hash_safe(ws),
        forall|k: int| 0 <= k < ws.len() ==> no_newline(#[trigger] ws[k]),
    ensures
        reads_as(w + seq![' '] + quoted_words(ws), seq![w] + ws),
        clean_line(w + seq![' '] + quoted_words(ws)),
{
    let l = w + seq![' '] + quoted_words(ws);
    let n = w.len() as int;
    assert(l.subrange(0, n) =~= w);
    lemma_bare_span(l, 0, w, Seq::empty(), Seq::empty(), false, false);
    assert(Seq::<char>::empty() + w =~= w);
    lemma_space(l, n, Seq::empty(), w, false);
    assert(Seq::<Seq<char>>::empty().push(w) =~= seq![w]);
    assert(l.subrange(n + 1, l.len() as int) =~= quoted_words(ws));
    lemma_quoted_words(l, n + 1, ws, seq![w]);
    lemma_line_end(l, seq![w] + ws.drop_last(), ws.last(), words_state(ws, false));
    assert((seq![w] + ws.drop_last()).push(ws.last()) =~= seq![w] + ws);
    assert(!is_ws(l[0]));
    assert(l.last() == quoted_words(ws).last());
    lemma_trim_plain(l);
    assert forall|k: int| 0 <= k < l.len() implies #[trigger] l[k] != '\n' by {
        if k < n {
            assert(l[k] == w[k]);
        } else if k > n {
            assert(l[k] == quoted_words(ws)[k - n - 1]);
        }
    }
}

/// What the words of the tape format are, character by character.
proof fn lemma_words()
    ensures
        "output"@ == seq!['o', 'u', 't', 'p', 'u', 't'],
        "theme"@ == seq!['t', 'h', 'e', 'm', 'e'],
        "width"@ == seq!['w', 'i', 'd', 't', 'h'],
        "cols"@ == seq!['c', 'o', 'l', 's'],
        "height"@ == seq!['h', 'e', 'i', 'g', 'h', 't'],
        "rows"@ == seq!['r', 'o', 'w', 's'],
        "font"@ == seq!['f', 'o', 'n', 't'],
        "font-size"@ == seq!['f', 'o', 'n', 't', '-', 's', 'i', 'z', 'e'],
        "advance"@ == seq!['a', 'd', 'v', 'a', 'n', 'c', 'e'],
        "line-height"@ == seq!['l', 'i', 'n', 'e', '-', 'h', 'e', 'i', 'g', 'h', 't'],
        "padding"@ == seq!['p', 'a', 'd', 'd', 'i', 'n', 'g'],
        "shell"@ == seq!['s', 'h', 'e', 'l', 'l'],
        "trim-idle"@ == seq!['t', 'r', 'i', 'm', '-', 'i', 'd', 'l', 'e'],
        "tail"@ == seq!['t', 'a', 'i', 'l'],
        "type-delay"@ == seq!['t', 'y', 'p', 'e', '-', 'd', 'e', 'l', 'a', 'y'],
        "speed"@ == seq!['s', 'p', 'e', 'e', 'd'],
        "window"@ == seq!['w', 'i', 'n', 'd', 'o', 'w'],
        "title"@ == seq!['t', 'i', 't', 'l', 'e'],
        "loop"@ == seq!['l', 'o', 'o', 'p'],
        "redact"@ == seq!['r', 'e', 'd', 'a', 'c', 't'],
        "sanitize"@ == seq!['s', 'a', 'n', 'i', 't', 'i', 'z', 'e'],
        "type"@ == seq!['t', 'y', 'p', 'e'],
        "sleep"@ == seq!['s', 'l', 'e', 'e', 'p'],
        "wait"@ == seq!['w', 'a', 'i', 't'],
        "enter"@ == seq!['e', 'n', 't', 'e', 'r'],
        "tab"@ == seq!['t', 'a', 'b'],
        "backspace"@ == seq!['b', 'a', 'c', 'k', 's', 'p', 'a', 'c', 'e'],
        "escape"@ == seq!['e', 's', 'c', 'a', 'p', 'e'],
        "esc"@ == seq!['e', 's', 'c'],
        "space"@ == seq!['s', 'p', 'a', 'c', 'e'],
        "up"@ == seq!['u', 'p'],
        "down"@ == seq!['d', 'o', 'w', 'n'],
        "left"@ == seq!['l', 'e', 'f', 't'],
        "right"@ == seq!['r', 'i', 'g', 'h', 't'],
        "ctrl"@ == seq!['c', 't', 'r', 'l'],
        "on"@ == seq!['o', 'n'],
        "off"@ == seq!['o', 'f', 'f'],
        "true"@ == seq!['t', 'r', 'u', 'e'],
        "false"@ == seq!['f', 'a', 'l', 's', 'e'],
        "yes"@ == seq!['y', 'e', 's'],
        "no"@ == seq!['n', 'o'],
        "1"@ == seq!['1'],
        "0"@ == seq!['0'],
        "output "@ == "output"@ + seq![' '],
        "theme "@ == "theme"@ + seq![' '],
        "width "@ == "width"@ + seq![' '],
        "height "@ == "height"@ + seq![' '],
        "padding "@ == "padding"@ + seq![' '],
        "font "@ == "font"@ + seq![' '],
        "font-size "@ == "font-size"@ + seq![' '],
        "advance "@ == "advance"@ + seq![' '],
        "line-height "@ == "line-height"@ + seq![' '],
        "shell "@ == "shell"@ + seq![' '],
        "window "@ == "window"@ + seq![' '],
        "title "@ == "title"@ + seq![' '],
        "type-delay "@ == "type-delay"@ + seq![' '],
        "trim-idle "@ == "trim-idle"@ + seq![' '],
        "tail "@ == "tail"@ + seq![' '],
        "speed "@ == "speed"@ + seq![' '],
        "loop "@ == "loop"@ + seq![' '],
        "redact "@ == "redact"@ + seq![' '],
        "sanitize "@ == "sanitize"@ + seq![' '],
        "type "@ == "type"@ + seq![' '],
        "sleep "@ == "sleep"@ + seq![' '],
        "wait "@ == "wait"@ + seq![' '],
        "ctrl "@ == "ctrl"@ + seq![' '],
{
    reveal_strlit("output");
    reveal_strlit("theme");
    reveal_strlit("width");
    reveal_strlit("cols");
    reveal_strlit("height");
    reveal_strlit("rows");
    reveal_strlit("font");
    reveal_strlit("font-size");
    reveal_strlit("advance");
    reveal_strlit("line-height");
    reveal_strlit("padding");
    reveal_strlit("shell");
    reveal_strlit("trim-idle");
    reveal_strlit("tail");
    reveal_strlit("type-delay");
    reveal_strlit("speed");
    reveal_strlit("window");
    reveal_strlit("title");
    reveal_strlit("loop");
    reveal_strlit("redact");
    reveal_strlit("sanitize");
    reveal_strlit("type");
    reveal_strlit("sleep");
    reveal_strlit("wait");
    reveal_strlit("enter");
    reveal_strlit("tab");
    reveal_strlit("backspace");
    reveal_strlit("escape");
    reveal_strlit("esc");
    reveal_strlit("space");
    reveal_strlit("up");
    reveal_strlit("down");
    reveal_strlit("left");
    reveal_strlit("right");
    reveal_strlit("ctrl");
    reveal_strlit("on");
    reveal_strlit("off");
    reveal_strlit("true");
    reveal_strlit("false");
    reveal_strlit("yes");
    reveal_strlit("no");
    reveal_strlit("1");
    reveal_strlit("0");
    reveal_strlit("output ");
    reveal_strlit("theme ");
    reveal_strlit("width ");
    reveal_strlit("height ");
    reveal_strlit("padding ");
    reveal_strlit("font ");
    reveal_strlit("font-size ");
    reveal_strlit("advance ");
    reveal_strlit("line-height ");
    reveal_strlit("shell ");
    reveal_strlit("window ");
    reveal_strlit("title ");
    reveal_strlit("type-delay ");
    reveal_strlit("trim-idle ");
    reveal_strlit("tail ");
    reveal_strlit("speed ");
    reveal_strlit("loop ");
    reveal_strlit("redact ");
    reveal_strlit("sanitize ");
    reveal_strlit("type ");
    reveal_strlit("sleep ");
    reveal_strlit("wait ");
    reveal_strlit("ctrl ");
    assert("output "@ =~= "output"@ + seq![' ']);
    assert("theme "@ =~= "theme"@ + seq![' ']);
    assert("width "@ =~= "width"@ + seq![' ']);
    assert("height "@ =~= "height"@ + seq![' ']);
    assert("padding "@ =~= "padding"@ + seq![' ']);
    assert("font "@ =~= "font"@ + seq![' ']);
    assert("font-size "@ =~= "font-size"@ + seq![' ']);
    assert("advance "@ =~= "advance"@ + seq![' ']);
    assert("line-height "@ =~= "line-height"@ + seq![' ']);
    assert("shell "@ =~= "shell"@ + seq![' ']);
    assert("window "@ =~= "window"@ + seq![' ']);
    assert("title "@ =~= "title"@ + seq![' ']);
    assert("type-delay "@ =~= "type-delay"@ + seq![' ']);
    assert("trim-idle "@ =~= "trim-idle"@ + seq![' ']);
    assert("tail "@ =~= "tail"@ + seq![' ']);
    assert("speed "@ =~= "speed"@ + seq![' ']);
    assert("loop "@ =~= "loop"@ + seq![' ']);
    assert("redact "@ =~= "redact"@ + seq![' ']);
    assert("sanitize "@ =~= "sanitize"@ + seq![' ']);
    assert("type "@ =~= "type"@ + seq![' ']);
    assert("sleep "@ =~= "sleep"@ + seq![' ']);
    assert("wait "@ =~= "wait"@ + seq![' ']);
    assert("ctrl "@ =~= "ctrl"@ + seq![' ']);
}

/// A text with no capital letter is its own lower case.
proof fn lemma_lower_plain(t: Seq<char>)
    requires
        forall|i: int| 0 <= i < t.len() ==> !('A' <= #[trigger] t[i] && t[i] <= 'Z'),
    ensures
        crate::chars::lower_all(t) == t,
{
    assert(crate::chars::lower_all(t) =~= t);
}

proof fn lemma_set_output(c: ConfigView, o: Seq<OpView>, v: Seq<char>)
    ensures
        apply_spec(c, o, seq!["output"@, v]) == Some((ConfigView { output: v, ..c }, o)),
{
    lemma_words();
    lemma_lower_plain("output"@);
}

proof fn lemma_set_theme(c: ConfigView, o: Seq<OpView>, v: Seq<char>)
    ensures
        apply_spec(c, o, seq!["theme"@, v]) == Some((ConfigView { theme: v, ..c }, o)),
{
    lemma_words();
    lemma_lower_plain("theme"@);
}

proof fn lemma_set_width(c: ConfigView, o: Seq<OpView>, n: u16)
    ensures
        apply_spec(c, o, seq!["width"@, uint_text(n as nat)]) == Some((ConfigView { cols: n, ..c }, o)),
{
    lemma_words();
    lemma_lower_plain("width"@);
    lemma_uint_round_trip(n as nat);
}

proof fn lemma_set_height(c: ConfigView, o: Seq<OpView>, n: u16)
    ensures
        apply_spec(c, o, seq!["height"@, uint_text(n as nat)]) == Some((ConfigView { rows: n, ..c }, o)),
{
    lemma_words();
    lemma_lower_plain("height"@);
    lemma_uint_round_trip(n as nat);
}

proof fn lemma_set_font(c: ConfigView, o: Seq<OpView>, v: Seq<char>)
    ensures
        apply_spec(c, o, seq!["font"@, v]) == Some((ConfigView { font_family: v, ..c }, o)),
{
    lemma_words();
    lemma_lower_plain("font"@);
}

proof fn lemma_set_font_size(c: ConfigView, o: Seq<OpView>, v: int)
    requires
        writable_number(v),
    ensures
        apply_spec(c, o, seq!["font-size"@, rounded_text(v, 2)]) == Some((ConfigView { font_size: v, ..c }, o)),
{
    lemma_words();
    lemma_lower_plain("font-size"@);
    lemma_number_round_trip(v);
}

proof fn lemma_set_advance(c: ConfigView, o: Seq<OpView>, v: int)
    requires
        writable_number(v),
    ensures
        apply_spec(c, o, seq!["advance"@, rounded_text(v, 2)]) == Some((ConfigView { advance: v, ..c }, o)),
{
    lemma_words();
    lemma_lower_plain("advance"@);
    lemma_number_round_trip(v);
}

proof fn lemma_set_line_height(c: ConfigView, o: Seq<OpView>, v: int)
    requires
        writable_number(v),
    ensures
        apply_spec(c, o, seq!["line-height"@, rounded_text(v, 2)]) == Some((ConfigView { line_height: v, ..c }, o)),
{
    lemma_words();
    lemma_lower_plain("line-height"@);
    lemma_number_round_trip(v);
}

proof fn lemma_set_padding(c: ConfigView, o: Seq<OpView>, v: int)
    requires
        writable_number(v),
    ensures
        apply_spec(c, o, seq!["padding"@, rounded_text(v, 2)]) == Some((ConfigView { padding: v, ..c }, o)),
{
    lemma_words();
    lemma_lower_plain("padding"@);
    lemma_number_round_trip(v);
}

proof fn lemma_set_speed(c: ConfigView, o: Seq<OpView>, v: int)
    requires
        writable_number(v),
    ensures
        apply_spec(c, o, seq!["speed"@, rounded_text(v, 2)]) == Some((ConfigView { speed: v, ..c }, o)),
{
    lemma_words();
    lemma_lower_plain("speed"@);
    lemma_number_round_trip(v);
}

proof fn lemma_set_tail(c: ConfigView, o: Seq<OpView>, d: nat)
    requires
        writable_span(d),
    ensures
        apply_spec(c, o, seq!["tail"@, dur_text(d)]) == Some((ConfigView { tail: d, ..c }, o)),
{
    lemma_words();
    lemma_lower_plain("tail"@);
    lemma_span_round_trip(d);
}

proof fn lemma_set_type_delay(c: ConfigView, o: Seq<OpView>, d: nat)
    requires
        writable_span(d),
    ensures
        apply_spec(c, o, seq!["type-delay"@, dur_text(d)]) == Some((ConfigView { type_delay: d, ..c }, o)),
{
    lemma_words();
    lemma_lower_plain("type-delay"@);
    lemma_span_round_trip(d);
}

proof fn lemma_set_trim_idle(c: ConfigView, o: Seq<OpView>, d: nat)
    requires
        writable_span(d),
    ensures
        apply_spec(c, o, seq!["trim-idle"@, dur_text(d)]) == Some((ConfigView { trim_idle: Some(d), ..c }, o)),
{
    lemma_words();
    lemma_lower_plain("trim-idle"@);
    lemma_span_round_trip(d);
    let t = dur_text(d);
    let ms = d / 1_000_000;
    if ms >= 1000 && ms % 1000 == 0 {
        assert(t == uint_text(ms / 1000) + seq!['s']);
    } else {
        assert(t == uint_text(ms) + seq!['m', 's']);
    }
    assert(t.last() == 's');
    assert(crate::chars::lower('s') == 's');
    assert(crate::chars::lower_all(t) != "off"@) by {
        if crate::chars::lower_all(t) == "off"@ {
            assert(crate::chars::lower_all(t).len() == 3);
            assert(t.len() == 3);
            assert(crate::chars::lower_all(t)[2] == crate::chars::lower(t[2]));
            assert(t[2] == t.last());
            assert("off"@[2] == 'f');
            assert(false);
        }
    }
}

proof fn lemma_set_trim_off(c: ConfigView, o: Seq<OpView>)
    ensures
        apply_spec(c, o, seq!["trim-idle"@, "off"@]) == Some((ConfigView { trim_idle: None, ..c }, o)),
{
    lemma_words();
    lemma_lower_plain("trim-idle"@);
    lemma_lower_plain("off"@);
}

proof fn lemma_set_window(c: ConfigView, o: Seq<OpView>, b: bool)
    ensures
        apply_spec(c, o, seq!["window"@, onoff_text(b)]) == Some((ConfigView { window: b, ..c }, o)),
{
    lemma_words();
    lemma_lower_plain("window"@);
    lemma_lower_plain("on"@);
    lemma_lower_plain("off"@);
    assert(onoff_text(b) == if b { "on"@ } else { "off"@ });
}

proof fn lemma_set_loop_forever(c: ConfigView, o: Seq<OpView>, b: bool)
    ensures
        apply_spec(c, o, seq!["loop"@, onoff_text(b)]) == Some((ConfigView { loop_forever: b, ..c }, o)),
{
    lemma_words();
    lemma_lower_plain("loop"@);
    lemma_lower_plain("on"@);
    lemma_lower_plain("off"@);
    assert(onoff_text(b) == if b { "on"@ } else { "off"@ });
}

proof fn lemma_set_sanitize(c: ConfigView, o: Seq<OpView>, b: bool)
    ensures
        apply_spec(c, o, seq!["sanitize"@, onoff_text(b)]) == Some((ConfigView { sanitize: b, ..c }, o)),
{
    lemma_words();
    lemma_lower_plain("sanitize"@);
    lemma_lower_plain("on"@);
    lemma_lower_plain("off"@);
    assert(onoff_text(b) == if b { "on"@ } else { "off"@ });
}

proof fn lemma_set_title(c: ConfigView, o: Seq<OpView>, v: Seq<char>)
    ensures
        apply_spec(c, o, seq!["title"@, v]) == Some((ConfigView { title: v, ..c }, o)),
{
    lemma_words();
    lemma_lower_plain("title"@);
}

proof fn lemma_add_redact(c: ConfigView, o: Seq<OpView>, v: Seq<char>)
    ensures
        apply_spec(c, o, seq!["redact"@, v]) == Some((ConfigView { redact: c.redact.push(v), ..c }, o)),
{
    lemma_words();
    lemma_lower_plain("redact"@);
}

proof fn lemma_set_shell(c: ConfigView, o: Seq<OpView>, ws: Seq<Seq<char>>)
    requires
        ws.len() >= 2 || (ws.len() == 1 && words_of(ws[0]) == ws),
    ensures
        apply_spec(c, o, seq!["shell"@] + ws) == Some((ConfigView { shell: Some(ws), ..c }, o)),
{
    lemma_words();
    lemma_lower_plain("shell"@);
    let toks = seq!["shell"@] + ws;
    assert(toks[0] == "shell"@);
    assert(toks.skip(1) =~= ws);
    if ws.len() == 1 {
        assert(toks[1] == ws[0]);
    }
}

proof fn lemma_op_type(c: ConfigView, o: Seq<OpView>, v: Seq<char>)
    ensures
        apply_spec(c, o, seq!["type"@, v]) == Some((c, o.push(OpView::Type(v)))),
{
    lemma_words();
    lemma_lower_plain("type"@);
}

proof fn lemma_op_sleep(c: ConfigView, o: Seq<OpView>, d: nat)
    requires
        writable_span(d),
    ensures
        apply_spec(c, o, seq!["sleep"@, dur_text(d)]) == Some((c, o.push(OpView::Sleep(d)))),
{
    lemma_words();
    lemma_lower_plain("sleep"@);
    lemma_span_round_trip(d);
}

proof fn lemma_op_wait(c: ConfigView, o: Seq<OpView>, v: Seq<char>, d: nat)
    requires
        writable_span(d),
    ensures
        apply_spec(c, o, seq!["wait"@, v, dur_text(d)]) == Some((c, o.push(OpView::Wait { text: v, timeout: d }))),
{
    lemma_words();
    lemma_lower_plain("wait"@);
    lemma_span_round_trip(d);
}

proof fn lemma_op_ctrl(c: ConfigView, o: Seq<OpView>, x: char)
    ensures
        apply_spec(c, o, seq!["ctrl"@, seq![x]]) == Some((c, o.push(OpView::Key(Key::Ctrl(x))))),
{
    lemma_words();
    lemma_lower_plain("ctrl"@);
}

proof fn lemma_op_key(c: ConfigView, o: Seq<OpView>, k: Key)
    requires
        !(k is Ctrl),
    ensures
        apply_spec(c, o, seq![key_text(k)]) == Some((c, o.push(OpView::Key(k)))),
{
    lemma_words();
    let w = key_text(k);
    lemma_lower_plain(w);
    let toks = seq![w];
    assert(crate::tape::parse::repeat_count(toks) == 1);
    assert(Seq::new(1, |_i: int| OpView::Key(k)) =~= seq![OpView::Key(k)]);
    assert(o + seq![OpView::Key(k)] =~= o.push(OpView::Key(k)));
}

/// One line where `show` holds, none otherwise.
pub open spec fn opt_lines(show: bool, l: Seq<char>) -> Seq<Seq<char>> {
    if show {
        seq![l]
    } else {
        Seq::empty()
    }
}

pub open spec fn head_lines(c: ConfigView) -> Seq<Seq<char>> {
    seq![
        "output "@ + quoted_text(c.output),
        "theme "@ + quoted_text(c.theme),
        "width "@ + uint_text(c.cols as nat),
        "height "@ + uint_text(c.rows as nat),
        "padding "@ + rounded_text(c.padding, 2),
    ]
}

pub open spec fn font_lines(c: ConfigView) -> Seq<Seq<char>> {
    let d = default_config();
    opt_lines(c.font_family != d.font_family, "font "@ + quoted_text(c.font_family)) + opt_lines(
        c.font_size != d.font_size,
        "font-size "@ + rounded_text(c.font_size, 2),
    ) + opt_lines(c.advance != d.advance, "advance "@ + rounded_text(c.advance, 2)) + opt_lines(
        c.line_height != d.line_height,
        "line-height "@ + rounded_text(c.line_height, 2),
    )
}

pub open spec fn frame_lines(c: ConfigView) -> Seq<Seq<char>> {
    let d = default_config();
    opt_lines(
        c.shell is Some,
        "shell "@ + quoted_words(
            match c.shell {
                Some(ws) => ws,
                None => Seq::empty(),
            },
        ),
    ) + opt_lines(c.window != d.window, "window "@ + onoff_text(c.window)) + opt_lines(
        c.title.len() > 0,
        "title "@ + quoted_text(c.title),
    )
}

pub open spec fn timing_lines(c: ConfigView) -> Seq<Seq<char>> {
    let d = default_config();
    opt_lines(c.type_delay != d.type_delay, "type-delay "@ + dur_text(c.type_delay)) + opt_lines(
        c.trim_idle != d.trim_idle,
        "trim-idle "@ + match c.trim_idle {
            Some(v) => dur_text(v),
            None => seq!['o', 'f', 'f'],
        },
    ) + opt_lines(c.tail != d.tail, "tail "@ + dur_text(c.tail)) + opt_lines(
        c.speed != d.speed,
        "speed "@ + rounded_text(c.speed, 2),
    ) + opt_lines(c.loop_forever != d.loop_forever, "loop "@ + onoff_text(c.loop_forever))
}

pub open spec fn redact_line(p: Seq<char>) -> Seq<char> {
    "redact "@ + quoted_text(p)
}

pub open spec fn privacy_lines(c: ConfigView) -> Seq<Seq<char>> {
    let d = default_config();
    c.redact.map_values(|p: Seq<char>| redact_line(p)) + opt_lines(
        c.sanitize != d.sanitize,
        "sanitize "@ + onoff_text(c.sanitize),
    )
}

pub open spec fn settings_lines(c: ConfigView) -> Seq<Seq<char>> {
    head_lines(c) + font_lines(c) + frame_lines(c) + timing_lines(c) + privacy_lines(c)
}

/// The lines of a written tape: the settings, a blank line where actions
/// follow, and one line per action.
pub open spec fn tape_lines(c: ConfigView, ops: Seq<OpView>) -> Seq<Seq<char>> {
    settings_lines(c) + opt_lines(ops.len() > 0, Seq::empty()) + ops.map_values(|op: OpView| op_text(op))
}

proof fn lemma_joined_opt(show: bool, l: Seq<char>)
    ensures
        joined(opt_lines(show, l)) == opt_line(show, l),
{
    if show {
        lemma_joined_one(l);
    }
}

proof fn lemma_joined_redact(ps: Seq<Seq<char>>)
    ensures
        joined(ps.map_values(|p: Seq<char>| redact_line(p))) == redact_text(ps),
    decreases ps.len(),
{
    if ps.len() > 0 {
        lemma_joined_redact(ps.drop_last());
        let m = ps.map_values(|p: Seq<char>| redact_line(p));
        assert(m.drop_last() =~= ps.drop_last().map_values(|p: Seq<char>| redact_line(p)));
        assert(joined(m) =~= redact_text(ps));
    } else {
        assert(ps.map_values(|p: Seq<char>| redact_line(p)) =~= Seq::<Seq<char>>::empty());
    }
}

proof fn lemma_joined_ops(ops: Seq<OpView>)
    ensures
        joined(ops.map_values(|op: OpView| op_text(op))) == ops_text(ops),
    decreases ops.len(),
{
    if ops.len() > 0 {
        lemma_joined_ops(ops.drop_last());
        let m = ops.map_values(|op: OpView| op_text(op));
        assert(m.drop_last() =~= ops.drop_last().map_values(|op: OpView| op_text(op)));
        assert(joined(m) =~= ops_text(ops));
    } else {
        assert(ops.map_values(|op: OpView| op_text(op)) =~= Seq::<Seq<char>>::empty());
    }
}

proof fn lemma_joined_add3(a: Seq<Seq<char>>, b: Seq<Seq<char>>, c: Seq<Seq<char>>)
    ensures
        joined(a + b + c) == joined(a) + joined(b) + joined(c),
{
    lemma_joined_add(a + b, c);
    lemma_joined_add(a, b);
}

proof fn lemma_head_lines(c: ConfigView)
    ensures
        joined(head_lines(c)) == head_text(c),
{
    let h = head_lines(c);
    let h4 = h.drop_last();
    let h3 = h4.drop_last();
    let h2 = h3.drop_last();
    let h1 = h2.drop_last();
    assert(h1.drop_last() =~= Seq::<Seq<char>>::empty());
    assert(joined(h1.drop_last()) == Seq::<char>::empty());
    assert(joined(h1) == joined(h1.drop_last()) + h1.last() + seq!['\n']);
    assert(joined(h1) =~= h1.last() + seq!['\n']);
    assert(joined(h2) == joined(h1) + h2.last() + seq!['\n']);
    assert(joined(h3) == joined(h2) + h3.last() + seq!['\n']);
    assert(joined(h4) == joined(h3) + h4.last() + seq!['\n']);
    assert(joined(h) == joined(h4) + h.last() + seq!['\n']);
    assert(joined(h) =~= head_text(c));
}

proof fn lemma_font_lines(c: ConfigView)
    ensures
        joined(font_lines(c)) == font_text(c),
{
    let d = default_config();
    let f1 = opt_lines(c.font_family != d.font_family, "font "@ + quoted_text(c.font_family));
    let f2 = opt_lines(c.font_size != d.font_size, "font-size "@ + rounded_text(c.font_size, 2));
    let f3 = opt_lines(c.advance != d.advance, "advance "@ + rounded_text(c.advance, 2));
    let f4 = opt_lines(c.line_height != d.line_height, "line-height "@ + rounded_text(c.line_height, 2));
    lemma_joined_add3(f1, f2, f3);
    lemma_joined_add(f1 + f2 + f3, f4);
    lemma_joined_opt(c.font_family != d.font_family, "font "@ + quoted_text(c.font_family));
    lemma_joined_opt(c.font_size != d.font_size, "font-size "@ + rounded_text(c.font_size, 2));
    lemma_joined_opt(c.advance != d.advance, "advance "@ + rounded_text(c.advance, 2));
    lemma_joined_opt(c.line_height != d.line_height, "line-height "@ + rounded_text(c.line_height, 2));
    assert(joined(font_lines(c)) =~= font_text(c));
}

proof fn lemma_frame_lines(c: ConfigView)
    ensures
        joined(frame_lines(c)) == frame_text(c),
{
    let d = default_config();
    let sw = match c.shell {
        Some(ws) => ws,
        None => Seq::empty(),
    };
    let g1 = opt_lines(c.shell is Some, "shell "@ + quoted_words(sw));
    let g2 = opt_lines(c.window != d.window, "window "@ + onoff_text(c.window));
    let g3 = opt_lines(c.title.len() > 0, "title "@ + quoted_text(c.title));
    lemma_joined_add3(g1, g2, g3);
    lemma_joined_opt(c.shell is Some, "shell "@ + quoted_words(sw));
    lemma_joined_opt(c.window != d.window, "window "@ + onoff_text(c.window));
    lemma_joined_opt(c.title.len() > 0, "title "@ + quoted_text(c.title));
    assert(joined(frame_lines(c)) =~= frame_text(c));
}

proof fn lemma_timing_lines(c: ConfigView)
    ensures
        joined(timing_lines(c)) == timing_text(c),
{
    let d = default_config();
    let tv = match c.trim_idle {
        Some(v) => dur_text(v),
        None => seq!['o', 'f', 'f'],
    };
    let t1 = opt_lines(c.type_delay != d.type_delay, "type-delay "@ + dur_text(c.type_delay));
    let t2 = opt_lines(c.trim_idle != d.trim_idle, "trim-idle "@ + tv);
    let t3 = opt_lines(c.tail != d.tail, "tail "@ + dur_text(c.tail));
    let t4 = opt_lines(c.speed != d.speed, "speed "@ + rounded_text(c.speed, 2));
    let t5 = opt_lines(c.loop_forever != d.loop_forever, "loop "@ + onoff_text(c.loop_forever));
    lemma_joined_add3(t1, t2, t3);
    lemma_joined_add3(t1 + t2 + t3, t4, t5);
    lemma_joined_opt(c.type_delay != d.type_delay, "type-delay "@ + dur_text(c.type_delay));
    lemma_joined_opt(c.trim_idle != d.trim_idle, "trim-idle "@ + tv);
    lemma_joined_opt(c.tail != d.tail, "tail "@ + dur_text(c.tail));
    lemma_joined_opt(c.speed != d.speed, "speed "@ + rounded_text(c.speed, 2));
    lemma_joined_opt(c.loop_forever != d.loop_forever, "loop "@ + onoff_text(c.loop_forever));
    assert(joined(timing_lines(c)) =~= timing_text(c));
}

proof fn lemma_privacy_lines(c: ConfigView)
    ensures
        joined(privacy_lines(c)) == privacy_text(c),
{
    let d = default_config();
    let rl = c.redact.map_values(|p: Seq<char>| redact_line(p));
    let sl = opt_lines(c.sanitize != d.sanitize, "sanitize "@ + onoff_text(c.sanitize));
    lemma_joined_add(rl, sl);
    lemma_joined_redact(c.redact);
    lemma_joined_opt(c.sanitize != d.sanitize, "sanitize "@ + onoff_text(c.sanitize));
}

/// A written tape is its lines, each ended by a newline.
proof fn lemma_source_lines(c: ConfigView, ops: Seq<OpView>)
    ensures
        joined(tape_lines(c, ops)) == source_text(c, ops),
{
    lemma_head_lines(c);
    lemma_font_lines(c);
    lemma_frame_lines(c);
    lemma_timing_lines(c);
    lemma_privacy_lines(c);
    let h = head_lines(c);
    lemma_joined_add3(h, font_lines(c), frame_lines(c));
    lemma_joined_add3(h + font_lines(c) + frame_lines(c), timing_lines(c), privacy_lines(c));
    assert(joined(settings_lines(c)) =~= settings_text(c));
    let b = opt_lines(ops.len() > 0, Seq::empty());
    lemma_joined_add3(settings_lines(c), b, ops.map_values(|op: OpView| op_text(op)));
    lemma_joined_opt(ops.len() > 0, Seq::empty());
    lemma_joined_ops(ops);
    assert(joined(tape_lines(c, ops)) =~= source_text(c, ops));
}

/// A text that a tape line holds in double quotes and reads back: no
/// newline, and no `#` after an odd number of double quotes.
pub open spec fn writable_text(t: Seq<char>) -> bool {
    no_newline(t) && hash_safe(t, true)
}

/// A shell command that a tape line holds and reads back: at least one word,
/// a lone word that does not split at whitespace, no newline, and no `#`
/// after an odd number of double quotes counted from the first word.
pub open spec fn writable_shell(ws: Seq<Seq<char>>) -> bool {
    &&& ws.len() >= 1
    &&& (ws.len() == 1 ==> words_of(ws[0]) == ws)
    &&& words_hash_safe(ws)
    &&& forall|k: int| 0 <= k < ws.len() ==> no_newline(#[trigger] ws[k])
}

/// Settings that the written tape holds exactly: every text, number and span
/// that is written reads back as itself.
pub open spec fn writable_config(c: ConfigView) -> bool {
    let d = default_config();
    &&& writable_text(c.output)
    &&& writable_text(c.theme)
    &&& writable_number(c.padding)
    &&& (c.font_family != d.font_family ==> writable_text(c.font_family))
    &&& (c.font_size != d.font_size ==> writable_number(c.font_size))
    &&& (c.advance != d.advance ==> writable_number(c.advance))
    &&& (c.line_height != d.line_height ==> writable_number(c.line_height))
    &&& (c.shell matches Some(ws) ==> writable_shell(ws))
    &&& (c.title.len() > 0 ==> writable_text(c.title))
    &&& (c.type_delay != d.type_delay ==> writable_span(c.type_delay))
    &&& (c.trim_idle != d.trim_idle && c.trim_idle is Some ==> writable_span(c.trim_idle->0))
    &&& (c.tail != d.tail ==> writable_span(c.tail))
    &&& (c.speed != d.speed ==> writable_number(c.speed))
    &&& forall|i: int| 0 <= i < c.redact.len() ==> writable_text(#[trigger] c.redact[i])
}

/// An action that its tape line reads back as: its text writable, its spans
/// in whole milliseconds, and a control key on a character that is neither
/// whitespace, a double quote nor a `#`.
pub open spec fn writable_op(op: OpView) -> bool {
    match op {
        OpView::Type(t) => writable_text(t),
        OpView::Sleep(d) => writable_span(d),
        OpView::Wait { text, timeout } => writable_text(text) && writable_span(timeout),
        OpView::Key(Key::Ctrl(x)) => !is_ws(x) && x != '"' && x != '#',
        OpView::Key(_) => true,
    }
}

pub open spec fn all_clean(ls: Seq<Seq<char>>) -> bool {
    forall|i: int| 0 <= i < ls.len() ==> clean_line(#[trigger] ls[i])
}

proof fn lemma_all_clean_add(a: Seq<Seq<char>>, b: Seq<Seq<char>>)
    requires
        all_clean(a),
        all_clean(b),
    ensures
        all_clean(a + b),
{
    assert forall|i: int| 0 <= i < (a + b).len() implies clean_line(#[trigger] (a + b)[i]) by {
        if i < a.len() {
            assert((a + b)[i] == a[i]);
        } else {
            assert((a + b)[i] == b[i - a.len()]);
        }
    }
}

proof fn lemma_run_first(ls: Seq<Seq<char>>, toks: Seq<Seq<char>>, cfg: ConfigView, ops: Seq<OpView>)
    requires
        ls.len() > 0,
        reads_as(ls[0], toks),
    ensures
        run_lines(ls, cfg, ops) == match apply_spec(cfg, ops, toks) {
            Some((c, o)) => run_lines(ls.drop_first(), c, o),
            None => None,
        },
{
}

/// An optional line that, where it is written, reads as `toks` and moves
/// the settings from `cfg` to `next`, and leaves them alone where it is not.
proof fn lemma_run_opt(
    show: bool,
    l: Seq<char>,
    toks: Seq<Seq<char>>,
    rest: Seq<Seq<char>>,
    cfg: ConfigView,
    ops: Seq<OpView>,
    next: ConfigView,
)
    requires
        show ==> reads_as(l, toks) && clean_line(l) && apply_spec(cfg, ops, toks) == Some((next, ops)),
        !show ==> next == cfg,
    ensures
        run_lines(opt_lines(show, l) + rest, cfg, ops) == run_lines(rest, next, ops),
        all_clean(opt_lines(show, l)),
{
    if show {
        let ls = opt_lines(show, l) + rest;
        assert(ls[0] == l);
        assert(ls.drop_first() =~= rest);
        lemma_run_first(ls, toks, cfg, ops);
    } else {
        assert(opt_lines(show, l) + rest =~= rest);
    }
}

proof fn lemma_bare_words()
    ensures
        bare_word("output"@),
        bare_word("theme"@),
        bare_word("width"@),
        bare_word("height"@),
        bare_word("padding"@),
        bare_word("font"@),
        bare_word("font-size"@),
        bare_word("advance"@),
        bare_word("line-height"@),
        bare_word("shell"@),
        bare_word("window"@),
        bare_word("title"@),
        bare_word("type-delay"@),
        bare_word("trim-idle"@),
        bare_word("tail"@),
        bare_word("speed"@),
        bare_word("loop"@),
        bare_word("redact"@),
        bare_word("sanitize"@),
        bare_word("type"@),
        bare_word("sleep"@),
        bare_word("wait"@),
        bare_word("ctrl"@),
        bare_word("on"@),
        bare_word("off"@),
{
    lemma_words();
}

proof fn lemma_uint_bare(n: nat)
    ensures
        bare_word(uint_text(n)),
{
    lemma_uint_text(n);
    lemma_digits_plain(uint_text(n));
}

proof fn lemma_number_bare(v: int)
    requires
        writable_number(v),
    ensures
        bare_word(rounded_text(v, 2)),
{
    lemma_number_round_trip(v);
}

proof fn lemma_span_bare(d: nat)
    requires
        writable_span(d),
    ensures
        bare_word(dur_text(d)),
{
    lemma_span_round_trip(d);
}

proof fn lemma_onoff_bare(b: bool)
    ensures
        bare_word(onoff_text(b)),
        onoff_text(b) == if b {
            "on"@
        } else {
            "off"@
        },
{
    lemma_bare_words();
    lemma_words();
}

proof fn lemma_line_output(show: bool, v: Seq<char>, rest: Seq<Seq<char>>, cfg: ConfigView, o: Seq<OpView>)
    requires
        show ==> writable_text(v),
    ensures
        run_lines(opt_lines(show, "output "@ + quoted_text(v)) + rest, cfg, o) == run_lines(rest, if show {
            ConfigView { output: v, ..cfg }
        } else {
            cfg
        }, o),
        all_clean(opt_lines(show, "output "@ + quoted_text(v))),
{
    let l = "output "@ + quoted_text(v);
    if show {
        lemma_words();
        lemma_bare_words();
        lemma_shape_quoted("output"@, v);
        assert(l =~= "output"@ + seq![' '] + quoted_text(v));
        lemma_set_output(cfg, o, v);
    }
    lemma_run_opt(show, l, seq!["output"@, v], rest, cfg, o, if show {
        ConfigView { output: v, ..cfg }
    } else {
        cfg
    });
}

proof fn lemma_line_theme(show: bool, v: Seq<char>, rest: Seq<Seq<char>>, cfg: ConfigView, o: Seq<OpView>)
    requires
        show ==> writable_text(v),
    ensures
        run_lines(opt_lines(show, "theme "@ + quoted_text(v)) + rest, cfg, o) == run_lines(rest, if show {
            ConfigView { theme: v, ..cfg }
        } else {
            cfg
        }, o),
        all_clean(opt_lines(show, "theme "@ + quoted_text(v))),
{
    let l = "theme "@ + quoted_text(v);
    if show {
        lemma_words();
        lemma_bare_words();
        lemma_shape_quoted("theme"@, v);
        assert(l =~= "theme"@ + seq![' '] + quoted_text(v));
        lemma_set_theme(cfg, o, v);
    }
    lemma_run_opt(show, l, seq!["theme"@, v], rest, cfg, o, if show {
        ConfigView { theme: v, ..cfg }
    } else {
        cfg
    });
}

proof fn lemma_line_width(show: bool, n: u16, rest: Seq<Seq<char>>, cfg: ConfigView, o: Seq<OpView>)
    requires
        show ==> true,
    ensures
        run_lines(opt_lines(show, "width "@ + uint_text(n as nat)) + rest, cfg, o) == run_lines(rest, if show {
            ConfigView { cols: n, ..cfg }
        } else {
            cfg
        }, o),
        all_clean(opt_lines(show, "width "@ + uint_text(n as nat))),
{
    let l = "width "@ + uint_text(n as nat);
    if show {
        lemma_words();
        lemma_bare_words();
        lemma_uint_bare(n as nat);
        lemma_shape_bare("width"@, uint_text(n as nat));
        assert(l =~= "width"@ + seq![' '] + uint_text(n as nat));
        lemma_set_width(cfg, o, n);
    }
    lemma_run_opt(show, l, seq!["width"@, uint_text(n as nat)], rest, cfg, o, if show {
        ConfigView { cols: n, ..cfg }
    } else {
        cfg
    });
}

proof fn lemma_line_height(show: bool, n: u16, rest: Seq<Seq<char>>, cfg: ConfigView, o: Seq<OpView>)
    requires
        show ==> true,
    ensures
        run_lines(opt_lines(show, "height "@ + uint_text(n as nat)) + rest, cfg, o) == run_lines(rest, if show {
            ConfigView { rows: n, ..cfg }
        } else {
            cfg
        }, o),
        all_clean(opt_lines(show, "height "@ + uint_text(n as nat))),
{
    let l = "height "@ + uint_text(n as nat);
    if show {
        lemma_words();
        lemma_bare_words();
        lemma_uint_bare(n as nat);
        lemma_shape_bare("height"@, uint_text(n as nat));
        assert(l =~= "height"@ + seq![' '] + uint_text(n as nat));
        lemma_set_height(cfg, o, n);
    }
    lemma_run_opt(show, l, seq!["height"@, uint_text(n as nat)], rest, cfg, o, if show {
        ConfigView { rows: n, ..cfg }
    } else {
        cfg
    });
}

proof fn lemma_line_font(show: bool, v: Seq<char>, rest: Seq<Seq<char>>, cfg: ConfigView, o: Seq<OpView>)
    requires
        show ==> writable_text(v),
    ensures
        run_lines(opt_lines(show, "font "@ + quoted_text(v)) + rest, cfg, o) == run_lines(rest, if show {
            ConfigView { font_family: v, ..cfg }
        } else {
            cfg
        }, o),
        all_clean(opt_lines(show, "font "@ + quoted_text(v))),
{
    let l = "font "@ + quoted_text(v);
    if show {
        lemma_words();
        lemma_bare_words();
        lemma_shape_quoted("font"@, v);
        assert(l =~= "font"@ + seq![' '] + quoted_text(v));
        lemma_set_font(cfg, o, v);
    }
    lemma_run_opt(show, l, seq!["font"@, v], rest, cfg, o, if show {
        ConfigView { font_family: v, ..cfg }
    } else {
        cfg
    });
}

proof fn lemma_line_padding(show: bool, v: int, rest: Seq<Seq<char>>, cfg: ConfigView, o: Seq<OpView>)
    requires
        show ==> writable_number(v),
    ensures
        run_lines(opt_lines(show, "padding "@ + rounded_text(v, 2)) + rest, cfg, o) == run_lines(rest, if show {
            ConfigView { padding: v, ..cfg }
        } else {
            cfg
        }, o),
        all_clean(opt_lines(show, "padding "@ + rounded_text(v, 2))),
{
    let l = "padding "@ + rounded_text(v, 2);
    if show {
        lemma_words();
        lemma_bare_words();
        lemma_number_bare(v);
        lemma_shape_bare("padding"@, rounded_text(v, 2));
        assert(l =~= "padding"@ + seq![' '] + rounded_text(v, 2));
        lemma_set_padding(cfg, o, v);
    }
    lemma_run_opt(show, l, seq!["padding"@, rounded_text(v, 2)], rest, cfg, o, if show {
        ConfigView { padding: v, ..cfg }
    } else {
        cfg
    });
}

proof fn lemma_line_font_size(show: bool, v: int, rest: Seq<Seq<char>>, cfg: ConfigView, o: Seq<OpView>)
    requires
        show ==> writable_number(v),
    ensures
        run_lines(opt_lines(show, "font-size "@ + rounded_text(v, 2)) + rest, cfg, o) == run_lines(rest, if show {
            ConfigView { font_size: v, ..cfg }
        } else {
            cfg
        }, o),
        all_clean(opt_lines(show, "font-size "@ + rounded_text(v, 2))),
{
    let l = "font-size "@ + rounded_text(v, 2);
    if show {
        lemma_words();
        lemma_bare_words();
        lemma_number_bare(v);
        lemma_shape_bare("font-size"@, rounded_text(v, 2));
        assert(l =~= "font-size"@ + seq![' '] + rounded_text(v, 2));
        lemma_set_font_size(cfg, o, v);
    }
    lemma_run_opt(show, l, seq!["font-size"@, rounded_text(v, 2)], rest, cfg, o, if show {
        ConfigView { font_size: v, ..cfg }
    } else {
        cfg
    });
}

proof fn lemma_line_advance(show: bool, v: int, rest: Seq<Seq<char>>, cfg: ConfigView, o: Seq<OpView>)
    requires
        show ==> writable_number(v),
    ensures
        run_lines(opt_lines(show, "advance "@ + rounded_text(v, 2)) + rest, cfg, o) == run_lines(rest, if show {
            ConfigView { advance: v, ..cfg }
        } else {
            cfg
        }, o),
        all_clean(opt_lines(show, "advance "@ + rounded_text(v, 2))),
{
    let l = "advance "@ + rounded_text(v, 2);
    if show {
        lemma_words();
        lemma_bare_words();
        lemma_number_bare(v);
        lemma_shape_bare("advance"@, rounded_text(v, 2));
        assert(l =~= "advance"@ + seq![' '] + rounded_text(v, 2));
        lemma_set_advance(cfg, o, v);
    }
    lemma_run_opt(show, l, seq!["advance"@, rounded_text(v, 2)], rest, cfg, o, if show {
        ConfigView { advance: v, ..cfg }
    } else {
        cfg
    });
}

proof fn lemma_line_line_height(show: bool, v: int, rest: Seq<Seq<char>>, cfg: ConfigView, o: Seq<OpView>)
    requires
        show ==> writable_number(v),
    ensures
        run_lines(opt_lines(show, "line-height "@ + rounded_text(v, 2)) + rest, cfg, o) == run_lines(rest, if show {
            ConfigView { line_height: v, ..cfg }
        } else {
            cfg
        }, o),
        all_clean(opt_lines(show, "line-height "@ + rounded_text(v, 2))),
{
    let l = "line-height "@ + rounded_text(v, 2);
    if show {
        lemma_words();
        lemma_bare_words();
        lemma_number_bare(v);
        lemma_shape_bare("line-height"@, rounded_text(v, 2));
        assert(l =~= "line-height"@ + seq![' '] + rounded_text(v, 2));
        lemma_set_line_height(cfg, o, v);
    }
    lemma_run_opt(show, l, seq!["line-height"@, rounded_text(v, 2)], rest, cfg, o, if show {
        ConfigView { line_height: v, ..cfg }
    } else {
        cfg
    });
}

proof fn lemma_line_speed(show: bool, v: int, rest: Seq<Seq<char>>, cfg: ConfigView, o: Seq<OpView>)
    requires
        show ==> writable_number(v),
    ensures
        run_lines(opt_lines(show, "speed "@ + rounded_text(v, 2)) + rest, cfg, o) == run_lines(rest, if show {
            ConfigView { speed: v, ..cfg }
        } else {
            cfg
        }, o),
        all_clean(opt_lines(show, "speed "@ + rounded_text(v, 2))),
{
    let l = "speed "@ + rounded_text(v, 2);
    if show {
        lemma_words();
        lemma_bare_words();
        lemma_number_bare(v);
        lemma_shape_bare("speed"@, rounded_text(v, 2));
        assert(l =~= "speed"@ + seq![' '] + rounded_text(v, 2));
        lemma_set_speed(cfg, o, v);
    }
    lemma_run_opt(show, l, seq!["speed"@, rounded_text(v, 2)], rest, cfg, o, if show {
        ConfigView { speed: v, ..cfg }
    } else {
        cfg
    });
}

proof fn lemma_line_tail(show: bool, d: nat, rest: Seq<Seq<char>>, cfg: ConfigView, o: Seq<OpView>)
    requires
        show ==> writable_span(d),
    ensures
        run_lines(opt_lines(show, "tail "@ + dur_text(d)) + rest, cfg, o) == run_lines(rest, if show {
            ConfigView { tail: d, ..cfg }
        } else {
            cfg
        }, o),
        all_clean(opt_lines(show, "tail "@ + dur_text(d))),
{
    let l = "tail "@ + dur_text(d);
    if show {
        lemma_words();
        lemma_bare_words();
        lemma_span_bare(d);
        lemma_shape_bare("tail"@, dur_text(d));
        assert(l =~= "tail"@ + seq![' '] + dur_text(d));
        lemma_set_tail(cfg, o, d);
    }
    lemma_run_opt(show, l, seq!["tail"@, dur_text(d)], rest, cfg, o, if show {
        ConfigView { tail: d, ..cfg }
    } else {
        cfg
    });
}

proof fn lemma_line_type_delay(show: bool, d: nat, rest: Seq<Seq<char>>, cfg: ConfigView, o: Seq<OpView>)
    requires
        show ==> writable_span(d),
    ensures
        run_lines(opt_lines(show, "type-delay "@ + dur_text(d)) + rest, cfg, o) == run_lines(rest, if show {
            ConfigView { type_delay: d, ..cfg }
        } else {
            cfg
        }, o),
        all_clean(opt_lines(show, "type-delay "@ + dur_text(d))),
{
    let l = "type-delay "@ + dur_text(d);
    if show {
        lemma_words();
        lemma_bare_words();
        lemma_span_bare(d);
        lemma_shape_bare("type-delay"@, dur_text(d));
        assert(l =~= "type-delay"@ + seq![' '] + dur_text(d));
        lemma_set_type_delay(cfg, o, d);
    }
    lemma_run_opt(show, l, seq!["type-delay"@, dur_text(d)], rest, cfg, o, if show {
        ConfigView { type_delay: d, ..cfg }
    } else {
        cfg
    });
}

proof fn lemma_line_trim_idle(show: bool, d: nat, rest: Seq<Seq<char>>, cfg: ConfigView, o: Seq<OpView>)
    requires
        show ==> writable_span(d),
    ensures
        run_lines(opt_lines(show, "trim-idle "@ + dur_text(d)) + rest, cfg, o) == run_lines(rest, if show {
            ConfigView { trim_idle: Some(d), ..cfg }
        } else {
            cfg
        }, o),
        all_clean(opt_lines(show, "trim-idle "@ + dur_text(d))),
{
    let l = "trim-idle "@ + dur_text(d);
    if show {
        lemma_words();
        lemma_bare_words();
        lemma_span_bare(d);
        lemma_shape_bare("trim-idle"@, dur_text(d));
        assert(l =~= "trim-idle"@ + seq![' '] + dur_text(d));
        lemma_set_trim_idle(cfg, o, d);
    }
    lemma_run_opt(show, l, seq!["trim-idle"@, dur_text(d)], rest, cfg, o, if show {
        ConfigView { trim_idle: Some(d), ..cfg }
    } else {
        cfg
    });
}

proof fn lemma_line_trim_off(show: bool, rest: Seq<Seq<char>>, cfg: ConfigView, o: Seq<OpView>)
    requires
        show ==> true,
    ensures
        run_lines(opt_lines(show, "trim-idle "@ + seq!['o', 'f', 'f']) + rest, cfg, o) == run_lines(rest, if show {
            ConfigView { trim_idle: None, ..cfg }
        } else {
            cfg
        }, o),
        all_clean(opt_lines(show, "trim-idle "@ + seq!['o', 'f', 'f'])),
{
    let l = "trim-idle "@ + seq!['o', 'f', 'f'];
    if show {
        lemma_words();
        lemma_bare_words();
        lemma_shape_bare("trim-idle"@, "off"@);
        assert(l =~= "trim-idle"@ + seq![' '] + "off"@);
        lemma_set_trim_off(cfg, o);
    }
    lemma_run_opt(show, l, seq!["trim-idle"@, "off"@], rest, cfg, o, if show {
        ConfigView { trim_idle: None, ..cfg }
    } else {
        cfg
    });
}

proof fn lemma_line_window(show: bool, b: bool, rest: Seq<Seq<char>>, cfg: ConfigView, o: Seq<OpView>)
    requires
        show ==> true,
    ensures
        run_lines(opt_lines(show, "window "@ + onoff_text(b)) + rest, cfg, o) == run_lines(rest, if show {
            ConfigView { window: b, ..cfg }
        } else {
            cfg
        }, o),
        all_clean(opt_lines(show, "window "@ + onoff_text(b))),
{
    let l = "window "@ + onoff_text(b);
    if show {
        lemma_words();
        lemma_bare_words();
        lemma_onoff_bare(b);
        lemma_shape_bare("window"@, onoff_text(b));
        assert(l =~= "window"@ + seq![' '] + onoff_text(b));
        lemma_set_window(cfg, o, b);
    }
    lemma_run_opt(show, l, seq!["window"@, onoff_text(b)], rest, cfg, o, if show {
        ConfigView { window: b, ..cfg }
    } else {
        cfg
    });
}

proof fn lemma_line_loop_forever(show: bool, b: bool, rest: Seq<Seq<char>>, cfg: ConfigView, o: Seq<OpView>)
    requires
        show ==> true,
    ensures
        run_lines(opt_lines(show, "loop "@ + onoff_text(b)) + rest, cfg, o) == run_lines(rest, if show {
            ConfigView { loop_forever: b, ..cfg }
        } else {
            cfg
        }, o),
        all_clean(opt_lines(show, "loop "@ + onoff_text(b))),
{
    let l = "loop "@ + onoff_text(b);
    if show {
        lemma_words();
        lemma_bare_words();
        lemma_onoff_bare(b);
        lemma_shape_bare("loop"@, onoff_text(b));
        assert(l =~= "loop"@ + seq![' '] + onoff_text(b));
        lemma_set_loop_forever(cfg, o, b);
    }
    lemma_run_opt(show, l, seq!["loop"@, onoff_text(b)], rest, cfg, o, if show {
        ConfigView { loop_forever: b, ..cfg }
    } else {
        cfg
    });
}

proof fn lemma_line_sanitize(show: bool, b: bool, rest: Seq<Seq<char>>, cfg: ConfigView, o: Seq<OpView>)
    requires
        show ==> true,
    ensures
        run_lines(opt_lines(show, "sanitize "@ + onoff_text(b)) + rest, cfg, o) == run_lines(rest, if show {
            ConfigView { sanitize: b, ..cfg }
        } else {
            cfg
        }, o),
        all_clean(opt_lines(show, "sanitize "@ + onoff_text(b))),
{
    let l = "sanitize "@ + onoff_text(b);
    if show {
        lemma_words();
        lemma_bare_words();
        lemma_onoff_bare(b);
        lemma_shape_bare("sanitize"@, onoff_text(b));
        assert(l =~= "sanitize"@ + seq![' '] + onoff_text(b));
        lemma_set_sanitize(cfg, o, b);
    }
    lemma_run_opt(show, l, seq!["sanitize"@, onoff_text(b)], rest, cfg, o, if show {
        ConfigView { sanitize: b, ..cfg }
    } else {
        cfg
    });
}

proof fn lemma_line_title(show: bool, v: Seq<char>, rest: Seq<Seq<char>>, cfg: ConfigView, o: Seq<OpView>)
    requires
        show ==> writable_text(v),
    ensures
        run_lines(opt_lines(show, "title "@ + quoted_text(v)) + rest, cfg, o) == run_lines(rest, if show {
            ConfigView { title: v, ..cfg }
        } else {
            cfg
        }, o),
        all_clean(opt_lines(show, "title "@ + quoted_text(v))),
{
    let l = "title "@ + quoted_text(v);
    if show {
        lemma_words();
        lemma_bare_words();
        lemma_shape_quoted("title"@, v);
        assert(l =~= "title"@ + seq![' '] + quoted_text(v));
        lemma_set_title(cfg, o, v);
    }
    lemma_run_opt(show, l, seq!["title"@, v], rest, cfg, o, if show {
        ConfigView { title: v, ..cfg }
    } else {
        cfg
    });
}

proof fn lemma_line_shell(show: bool, ws: Seq<Seq<char>>, rest: Seq<Seq<char>>, cfg: ConfigView, o: Seq<OpView>)
    requires
        show ==> writable_shell(ws),
    ensures
        run_lines(opt_lines(show, "shell "@ + quoted_words(ws)) + rest, cfg, o) == run_lines(rest, if show {
            ConfigView { shell: Some(ws), ..cfg }
        } else {
            cfg
        }, o),
        all_clean(opt_lines(show, "shell "@ + quoted_words(ws))),
{
    let l = "shell "@ + quoted_words(ws);
    if show {
        lemma_words();
        lemma_bare_words();
        lemma_shape_words("shell"@, ws);
        assert(l =~= "shell"@ + seq![' '] + quoted_words(ws));
        lemma_set_shell(cfg, o, ws);
    }
    lemma_run_opt(show, l, seq!["shell"@] + ws, rest, cfg, o, if show {
        ConfigView { shell: Some(ws), ..cfg }
    } else {
        cfg
    });
}

proof fn lemma_line_redact(v: Seq<char>, rest: Seq<Seq<char>>, cfg: ConfigView, o: Seq<OpView>)
    requires
        writable_text(v),
    ensures
        run_lines(seq![redact_line(v)] + rest, cfg, o) == run_lines(
            rest,
            ConfigView { redact: cfg.redact.push(v), ..cfg },
            o,
        ),
        clean_line(redact_line(v)),
{
    lemma_words();
    lemma_bare_words();
    let l = redact_line(v);
    lemma_shape_quoted("redact"@, v);
    assert(l =~= "redact"@ + seq![' '] + quoted_text(v));
    lemma_add_redact(cfg, o, v);
    lemma_run_opt(true, l, seq!["redact"@, v], rest, cfg, o, ConfigView { redact: cfg.redact.push(v), ..cfg });
}

proof fn lemma_line_type(t: Seq<char>, rest: Seq<Seq<char>>, cfg: ConfigView, o: Seq<OpView>)
    requires
        writable_text(t),
    ensures
        run_lines(seq![op_text(OpView::Type(t))] + rest, cfg, o) == run_lines(rest, cfg, o.push(OpView::Type(t))),
        clean_line(op_text(OpView::Type(t))),
{
    lemma_words();
    lemma_bare_words();
    let l = op_text(OpView::Type(t));
    lemma_shape_quoted("type"@, t);
    assert(l =~= "type"@ + seq![' '] + quoted_text(t));
    lemma_op_type(cfg, o, t);
    let ls = seq![l] + rest;
    assert(ls[0] == l);
    assert(ls.drop_first() =~= rest);
    lemma_run_first(ls, seq!["type"@, t], cfg, o);
}

proof fn lemma_line_sleep(d: nat, rest: Seq<Seq<char>>, cfg: ConfigView, o: Seq<OpView>)
    requires
        writable_span(d),
    ensures
        run_lines(seq![op_text(OpView::Sleep(d))] + rest, cfg, o) == run_lines(rest, cfg, o.push(OpView::Sleep(d))),
        clean_line(op_text(OpView::Sleep(d))),
{
    lemma_words();
    lemma_bare_words();
    let l = op_text(OpView::Sleep(d));
    lemma_span_bare(d);
    lemma_shape_bare("sleep"@, dur_text(d));
    assert(l =~= "sleep"@ + seq![' '] + dur_text(d));
    lemma_op_sleep(cfg, o, d);
    let ls = seq![l] + rest;
    assert(ls[0] == l);
    assert(ls.drop_first() =~= rest);
    lemma_run_first(ls, seq!["sleep"@, dur_text(d)], cfg, o);
}

proof fn lemma_line_wait(text: Seq<char>, timeout: nat, rest: Seq<Seq<char>>, cfg: ConfigView, o: Seq<OpView>)
    requires
        writable_text(text),
        writable_span(timeout),
    ensures
        run_lines(seq![op_text(OpView::Wait { text, timeout })] + rest, cfg, o) == run_lines(
            rest,
            cfg,
            o.push(OpView::Wait { text, timeout }),
        ),
        clean_line(op_text(OpView::Wait { text, timeout })),
{
    lemma_words();
    lemma_bare_words();
    let l = op_text(OpView::Wait { text, timeout });
    lemma_span_bare(timeout);
    lemma_shape_quoted_bare("wait"@, text, dur_text(timeout));
    assert(l =~= "wait"@ + seq![' '] + quoted_text(text) + seq![' '] + dur_text(timeout));
    lemma_op_wait(cfg, o, text, timeout);
    let ls = seq![l] + rest;
    assert(ls[0] == l);
    assert(ls.drop_first() =~= rest);
    lemma_run_first(ls, seq!["wait"@, text, dur_text(timeout)], cfg, o);
}

proof fn lemma_line_ctrl(x: char, rest: Seq<Seq<char>>, cfg: ConfigView, o: Seq<OpView>)
    requires
        !is_ws(x) && x != '"' && x != '#',
    ensures
        run_lines(seq![op_text(OpView::Key(Key::Ctrl(x)))] + rest, cfg, o) == run_lines(
            rest,
            cfg,
            o.push(OpView::Key(Key::Ctrl(x))),
        ),
        clean_line(op_text(OpView::Key(Key::Ctrl(x)))),
{
    lemma_words();
    lemma_bare_words();
    let l = op_text(OpView::Key(Key::Ctrl(x)));
    assert(bare_word(seq![x]));
    lemma_shape_bare("ctrl"@, seq![x]);
    assert(l =~= "ctrl"@ + seq![' '] + seq![x]);
    lemma_op_ctrl(cfg, o, x);
    let ls = seq![l] + rest;
    assert(ls[0] == l);
    assert(ls.drop_first() =~= rest);
    lemma_run_first(ls, seq!["ctrl"@, seq![x]], cfg, o);
}

proof fn lemma_line_key(k: Key, rest: Seq<Seq<char>>, cfg: ConfigView, o: Seq<OpView>)
    requires
        !(k is Ctrl),
    ensures
        run_lines(seq![op_text(OpView::Key(k))] + rest, cfg, o) == run_lines(rest, cfg, o.push(OpView::Key(k))),
        clean_line(op_text(OpView::Key(k))),
{
    lemma_words();
    let l = op_text(OpView::Key(k));
    assert(l == key_text(k));
    assert(bare_word(key_text(k)));
    lemma_shape_word(key_text(k));
    lemma_op_key(cfg, o, k);
    let ls = seq![l] + rest;
    assert(ls[0] == l);
    assert(ls.drop_first() =~= rest);
    lemma_run_first(ls, seq![key_text(k)], cfg, o);
}

proof fn lemma_line_op(op: OpView, rest: Seq<Seq<char>>, cfg: ConfigView, o: Seq<OpView>)
    requires
        writable_op(op),
    ensures
        run_lines(seq![op_text(op)] + rest, cfg, o) == run_lines(rest, cfg, o.push(op)),
        clean_line(op_text(op)),
{
    match op {
        OpView::Type(t) => lemma_line_type(t, rest, cfg, o),
        OpView::Sleep(d) => lemma_line_sleep(d, rest, cfg, o),
        OpView::Wait { text, timeout } => lemma_line_wait(text, timeout, rest, cfg, o),
        OpView::Key(k) => match k {
            Key::Ctrl(x) => lemma_line_ctrl(x, rest, cfg, o),
            _ => lemma_line_key(k, rest, cfg, o),
        },
    }
}

proof fn lemma_run_blank(show: bool, rest: Seq<Seq<char>>, cfg: ConfigView, o: Seq<OpView>)
    ensures
        run_lines(opt_lines(show, Seq::empty()) + rest, cfg, o) == run_lines(rest, cfg, o),
        all_clean(opt_lines(show, Seq::empty())),
{
    let ls = opt_lines(show, Seq::empty()) + rest;
    if show {
        assert(ls[0] == Seq::<char>::empty());
        assert(ls.drop_first() =~= rest);
        assert(uncommented(Seq::<char>::empty()) == Seq::<char>::empty());
        assert(crate::chars::trim(Seq::<char>::empty()) == Seq::<char>::empty());
    } else {
        assert(ls =~= rest);
    }
}

proof fn lemma_run_redacts(ps: Seq<Seq<char>>, rest: Seq<Seq<char>>, cfg: ConfigView, o: Seq<OpView>)
    requires
        forall|i: int| 0 <= i < ps.len() ==> writable_text(#[trigger] ps[i]),
    ensures
        run_lines(ps.map_values(|p: Seq<char>| redact_line(p)) + rest, cfg, o) == run_lines(
            rest,
            ConfigView { redact: cfg.redact + ps, ..cfg },
            o,
        ),
        all_clean(ps.map_values(|p: Seq<char>| redact_line(p))),
    decreases ps.len(),
{
    let m = ps.map_values(|p: Seq<char>| redact_line(p));
    if ps.len() == 0 {
        assert(m + rest =~= rest);
        assert(cfg.redact + ps =~= cfg.redact);
    } else {
        let a = ps.drop_last();
        let x = ps.last();
        assert forall|i: int| 0 <= i < a.len() implies writable_text(#[trigger] a[i]) by {
            assert(a[i] == ps[i]);
        }
        assert(writable_text(ps[ps.len() - 1]));
        let ma = a.map_values(|p: Seq<char>| redact_line(p));
        assert(m =~= ma.push(redact_line(x)));
        assert(m + rest =~= ma + (seq![redact_line(x)] + rest));
        lemma_run_redacts(a, seq![redact_line(x)] + rest, cfg, o);
        let mid = ConfigView { redact: cfg.redact + a, ..cfg };
        lemma_line_redact(x, rest, mid, o);
        assert((cfg.redact + a).push(x) =~= cfg.redact + ps);
        assert(all_clean(m)) by {
            assert forall|i: int| 0 <= i < m.len() implies clean_line(#[trigger] m[i]) by {
                if i < ma.len() {
                    assert(m[i] == ma[i]);
                }
            }
        }
    }
}

proof fn lemma_run_ops(ops: Seq<OpView>, rest: Seq<Seq<char>>, cfg: ConfigView, o: Seq<OpView>)
    requires
        forall|i: int| 0 <= i < ops.len() ==> writable_op(#[trigger] ops[i]),
    ensures
        run_lines(ops.map_values(|op: OpView| op_text(op)) + rest, cfg, o) == run_lines(rest, cfg, o + ops),
        all_clean(ops.map_values(|op: OpView| op_text(op))),
    decreases ops.len(),
{
    let m = ops.map_values(|op: OpView| op_text(op));
    if ops.len() == 0 {
        assert(m + rest =~= rest);
        assert(o + ops =~= o);
    } else {
        let a = ops.drop_last();
        let x = ops.last();
        assert forall|i: int| 0 <= i < a.len() implies writable_op(#[trigger] a[i]) by {
            assert(a[i] == ops[i]);
        }
        assert(writable_op(ops[ops.len() - 1]));
        let ma = a.map_values(|op: OpView| op_text(op));
        assert(m =~= ma.push(op_text(x)));
        assert(m + rest =~= ma + (seq![op_text(x)] + rest));
        lemma_run_ops(a, seq![op_text(x)] + rest, cfg, o);
        lemma_line_op(x, rest, cfg, o + a);
        assert((o + a).push(x) =~= o + ops);
        assert(all_clean(m)) by {
            assert forall|i: int| 0 <= i < m.len() implies clean_line(#[trigger] m[i]) by {
                if i < ma.len() {
                    assert(m[i] == ma[i]);
                }
            }
        }
    }
}

proof fn lemma_run_head(c: ConfigView, rest: Seq<Seq<char>>, cfg: ConfigView, o: Seq<OpView>)
    requires
        writable_text(c.output),
        writable_text(c.theme),
        writable_number(c.padding),
    ensures
        run_lines(head_lines(c) + rest, cfg, o) == run_lines(
            rest,
            ConfigView { output: c.output, theme: c.theme, cols: c.cols, rows: c.rows, padding: c.padding, ..cfg },
            o,
        ),
        all_clean(head_lines(c)),
{
    let l0 = "output "@ + quoted_text(c.output);
    let l1 = "theme "@ + quoted_text(c.theme);
    let l2 = "width "@ + uint_text(c.cols as nat);
    let l3 = "height "@ + uint_text(c.rows as nat);
    let l4 = "padding "@ + rounded_text(c.padding, 2);
    let a = ConfigView { output: c.output, ..cfg };
    let b = ConfigView { theme: c.theme, ..a };
    let e = ConfigView { cols: c.cols, ..b };
    let f = ConfigView { rows: c.rows, ..e };
    let r4 = opt_lines(true, l4) + rest;
    let r3 = opt_lines(true, l3) + r4;
    let r2 = opt_lines(true, l2) + r3;
    let r1 = opt_lines(true, l1) + r2;
    lemma_line_padding(true, c.padding, rest, f, o);
    lemma_line_height(true, c.rows, r4, e, o);
    lemma_line_width(true, c.cols, r3, b, o);
    lemma_line_theme(true, c.theme, r2, a, o);
    lemma_line_output(true, c.output, r1, cfg, o);
    assert(head_lines(c) + rest =~= opt_lines(true, l0) + r1);
    assert(all_clean(head_lines(c))) by {
        assert(clean_line(opt_lines(true, l0)[0]));
        assert(clean_line(opt_lines(true, l1)[0]));
        assert(clean_line(opt_lines(true, l2)[0]));
        assert(clean_line(opt_lines(true, l3)[0]));
        assert(clean_line(opt_lines(true, l4)[0]));
    }
}

proof fn lemma_run_font(c: ConfigView, rest: Seq<Seq<char>>, cfg: ConfigView, o: Seq<OpView>)
    requires
        writable_config(c),
        cfg.font_family == default_config().font_family,
        cfg.font_size == default_config().font_size,
        cfg.advance == default_config().advance,
        cfg.line_height == default_config().line_height,
    ensures
        run_lines(font_lines(c) + rest, cfg, o) == run_lines(
            rest,
            ConfigView {
                font_family: c.font_family,
                font_size: c.font_size,
                advance: c.advance,
                line_height: c.line_height,
                ..cfg
            },
            o,
        ),
        all_clean(font_lines(c)),
{
    let d = default_config();
    let s1 = c.font_family != d.font_family;
    let s2 = c.font_size != d.font_size;
    let s3 = c.advance != d.advance;
    let s4 = c.line_height != d.line_height;
    let f1 = opt_lines(s1, "font "@ + quoted_text(c.font_family));
    let f2 = opt_lines(s2, "font-size "@ + rounded_text(c.font_size, 2));
    let f3 = opt_lines(s3, "advance "@ + rounded_text(c.advance, 2));
    let f4 = opt_lines(s4, "line-height "@ + rounded_text(c.line_height, 2));
    let a = ConfigView { font_family: c.font_family, ..cfg };
    let b = ConfigView { font_size: c.font_size, ..a };
    let e = ConfigView { advance: c.advance, ..b };
    let g = ConfigView { line_height: c.line_height, ..e };
    lemma_line_line_height(s4, c.line_height, rest, e, o);
    lemma_line_advance(s3, c.advance, f4 + rest, b, o);
    lemma_line_font_size(s2, c.font_size, f3 + (f4 + rest), a, o);
    lemma_line_font(s1, c.font_family, f2 + (f3 + (f4 + rest)), cfg, o);
    assert(font_lines(c) + rest =~= f1 + (f2 + (f3 + (f4 + rest))));
    lemma_all_clean_add(f1, f2);
    lemma_all_clean_add(f1 + f2, f3);
    lemma_all_clean_add(f1 + f2 + f3, f4);
}

proof fn lemma_run_frame(c: ConfigView, rest: Seq<Seq<char>>, cfg: ConfigView, o: Seq<OpView>)
    requires
        writable_config(c),
        cfg.shell == default_config().shell,
        cfg.window == default_config().window,
        cfg.title == default_config().title,
    ensures
        run_lines(frame_lines(c) + rest, cfg, o) == run_lines(
            rest,
            ConfigView { shell: c.shell, window: c.window, title: c.title, ..cfg },
            o,
        ),
        all_clean(frame_lines(c)),
{
    let d = default_config();
    let sw = match c.shell {
        Some(ws) => ws,
        None => Seq::empty(),
    };
    let g1 = opt_lines(c.shell is Some, "shell "@ + quoted_words(sw));
    let g2 = opt_lines(c.window != d.window, "window "@ + onoff_text(c.window));
    let g3 = opt_lines(c.title.len() > 0, "title "@ + quoted_text(c.title));
    let a = ConfigView { shell: c.shell, ..cfg };
    let b = ConfigView { window: c.window, ..a };
    if c.title.len() == 0 {
        assert(c.title =~= d.title);
    }
    lemma_line_title(c.title.len() > 0, c.title, rest, b, o);
    lemma_line_window(c.window != d.window, c.window, g3 + rest, a, o);
    lemma_line_shell(c.shell is Some, sw, g2 + (g3 + rest), cfg, o);
    assert(frame_lines(c) + rest =~= g1 + (g2 + (g3 + rest)));
    lemma_all_clean_add(g1, g2);
    lemma_all_clean_add(g1 + g2, g3);
}

#[verifier::spinoff_prover]
#[verifier::rlimit(80)]
proof fn lemma_run_timing(c: ConfigView, rest: Seq<Seq<char>>, cfg: ConfigView, o: Seq<OpView>)
    requires
        writable_config(c),
        cfg.type_delay == default_config().type_delay,
        cfg.trim_idle == default_config().trim_idle,
        cfg.tail == default_config().tail,
        cfg.speed == default_config().speed,
        cfg.loop_forever == default_config().loop_forever,
    ensures
        run_lines(timing_lines(c) + rest, cfg, o) == run_lines(
            rest,
            ConfigView {
                type_delay: c.type_delay,
                trim_idle: c.trim_idle,
                tail: c.tail,
                speed: c.speed,
                loop_forever: c.loop_forever,
                ..cfg
            },
            o,
        ),
        all_clean(timing_lines(c)),
{
    let d = default_config();
    let tv = match c.trim_idle {
        Some(v) => dur_text(v),
        None => seq!['o', 'f', 'f'],
    };
    let t1 = opt_lines(c.type_delay != d.type_delay, "type-delay "@ + dur_text(c.type_delay));
    let t2 = opt_lines(c.trim_idle != d.trim_idle, "trim-idle "@ + tv);
    let t3 = opt_lines(c.tail != d.tail, "tail "@ + dur_text(c.tail));
    let t4 = opt_lines(c.speed != d.speed, "speed "@ + rounded_text(c.speed, 2));
    let t5 = opt_lines(c.loop_forever != d.loop_forever, "loop "@ + onoff_text(c.loop_forever));
    let a = ConfigView { type_delay: c.type_delay, ..cfg };
    let b = ConfigView { trim_idle: c.trim_idle, ..a };
    let e = ConfigView { tail: c.tail, ..b };
    let f = ConfigView { speed: c.speed, ..e };
    lemma_line_loop_forever(c.loop_forever != d.loop_forever, c.loop_forever, rest, f, o);
    lemma_line_speed(c.speed != d.speed, c.speed, t5 + rest, e, o);
    lemma_line_tail(c.tail != d.tail, c.tail, t4 + (t5 + rest), b, o);
    match c.trim_idle {
        Some(v) => {
            lemma_line_trim_idle(c.trim_idle != d.trim_idle, v, t3 + (t4 + (t5 + rest)), a, o);
        },
        None => {
            lemma_line_trim_off(c.trim_idle != d.trim_idle, t3 + (t4 + (t5 + rest)), a, o);
        },
    }
    lemma_line_type_delay(c.type_delay != d.type_delay, c.type_delay, t2 + (t3 + (t4 + (t5 + rest))), cfg, o);
    assert(timing_lines(c) + rest =~= t1 + (t2 + (t3 + (t4 + (t5 + rest)))));
    lemma_all_clean_add(t1, t2);
    lemma_all_clean_add(t1 + t2, t3);
    lemma_all_clean_add(t1 + t2 + t3, t4);
    lemma_all_clean_add(t1 + t2 + t3 + t4, t5);
}

proof fn lemma_run_privacy(c: ConfigView, rest: Seq<Seq<char>>, cfg: ConfigView, o: Seq<OpView>)
    requires
        writable_config(c),
        cfg.redact == default_config().redact,
        cfg.sanitize == default_config().sanitize,
    ensures
        run_lines(privacy_lines(c) + rest, cfg, o) == run_lines(
            rest,
            ConfigView { redact: c.redact, sanitize: c.sanitize, ..cfg },
            o,
        ),
        all_clean(privacy_lines(c)),
{
    let d = default_config();
    let rl = c.redact.map_values(|p: Seq<char>| redact_line(p));
    let sl = opt_lines(c.sanitize != d.sanitize, "sanitize "@ + onoff_text(c.sanitize));
    lemma_run_redacts(c.redact, sl + rest, cfg, o);
    assert(cfg.redact + c.redact =~= c.redact);
    let a = ConfigView { redact: c.redact, ..cfg };
    lemma_line_sanitize(c.sanitize != d.sanitize, c.sanitize, rest, a, o);
    assert(privacy_lines(c) + rest =~= rl + (sl + rest));
    lemma_all_clean_add(rl, sl);
}

proof fn lemma_five_parts(
    a: Seq<Seq<char>>,
    b: Seq<Seq<char>>,
    c: Seq<Seq<char>>,
    d: Seq<Seq<char>>,
    e: Seq<Seq<char>>,
    rest: Seq<Seq<char>>,
)
    ensures
        a + b + c + d + e + rest == a + (b + (c + (d + (e + rest)))),
        all_clean(a) && all_clean(b) && all_clean(c) && all_clean(d) && all_clean(e) ==> all_clean(
            a + b + c + d + e,
        ),
{
    assert(a + b + c + d + e + rest =~= a + (b + (c + (d + (e + rest)))));
    if all_clean(a) && all_clean(b) && all_clean(c) && all_clean(d) && all_clean(e) {
        lemma_all_clean_add(a, b);
        lemma_all_clean_add(a + b, c);
        lemma_all_clean_add(a + b + c, d);
        lemma_all_clean_add(a + b + c + d, e);
    }
}

proof fn lemma_settings_parts(c: ConfigView, rest: Seq<Seq<char>>)
    ensures
        settings_lines(c) + rest == head_lines(c) + (font_lines(c) + (frame_lines(c) + (timing_lines(c) + (
        privacy_lines(c) + rest)))),
        all_clean(head_lines(c)) && all_clean(font_lines(c)) && all_clean(frame_lines(c)) && all_clean(
            timing_lines(c),
        ) && all_clean(privacy_lines(c)) ==> all_clean(settings_lines(c)),
{
    lemma_five_parts(head_lines(c), font_lines(c), frame_lines(c), timing_lines(c), privacy_lines(c), rest);
}

#[verifier::spinoff_prover]
#[verifier::rlimit(100)]
proof fn lemma_run_settings(c: ConfigView, rest: Seq<Seq<char>>)
    requires
        writable_config(c),
    ensures
        run_lines(settings_lines(c) + rest, default_config(), Seq::empty()) == run_lines(rest, c, Seq::empty()),
        all_clean(settings_lines(c)),
{
    let d = default_config();
    let e = Seq::<OpView>::empty();
    let r4 = privacy_lines(c) + rest;
    let r3 = timing_lines(c) + r4;
    let r2 = frame_lines(c) + r3;
    let r1 = font_lines(c) + r2;
    let c1 = ConfigView { output: c.output, theme: c.theme, cols: c.cols, rows: c.rows, padding: c.padding, ..d };
    let c2 = ConfigView {
        font_family: c.font_family,
        font_size: c.font_size,
        advance: c.advance,
        line_height: c.line_height,
        ..c1
    };
    let c3 = ConfigView { shell: c.shell, window: c.window, title: c.title, ..c2 };
    let c4 = ConfigView {
        type_delay: c.type_delay,
        trim_idle: c.trim_idle,
        tail: c.tail,
        speed: c.speed,
        loop_forever: c.loop_forever,
        ..c3
    };
    let c5 = ConfigView { redact: c.redact, sanitize: c.sanitize, ..c4 };
    assert(run_lines(r4, c4, e) == run_lines(rest, c5, e)) by {
        lemma_run_privacy(c, rest, c4, e);
    }
    assert(run_lines(r3, c3, e) == run_lines(r4, c4, e)) by {
        lemma_run_timing(c, r4, c3, e);
    }
    assert(run_lines(r2, c2, e) == run_lines(r3, c3, e)) by {
        lemma_run_frame(c, r3, c2, e);
    }
    assert(run_lines(r1, c1, e) == run_lines(r2, c2, e)) by {
        lemma_run_font(c, r2, c1, e);
    }
    assert(run_lines(head_lines(c) + r1, d, e) == run_lines(r1, c1, e)) by {
        lemma_run_head(c, r1, d, e);
    }
    assert(c5 == c);
    lemma_settings_parts(c, rest);
    lemma_run_head(c, r1, d, e);
    lemma_run_font(c, r2, c1, e);
    lemma_run_frame(c, r3, c2, e);
    lemma_run_timing(c, r4, c3, e);
    lemma_run_privacy(c, rest, c4, e);
}

/// A tape written from settings and actions reads back as those settings
/// and actions, wherever every text, number and span in them is one that
/// the written form holds exactly (see [`writable_config`] and
/// [`writable_op`]).
pub proof fn law_tape_round_trip(c: ConfigView, ops: Seq<OpView>)
    requires
        writable_config(c),
        forall|i: int| 0 <= i < ops.len() ==> writable_op(#[trigger] ops[i]),
    ensures
        crate::tape::parse::tape_of(source_text(c, ops)) == Some((c, ops)),
{
    let e = Seq::<OpView>::empty();
    let opl = ops.map_values(|op: OpView| op_text(op));
    let bl = opt_lines(ops.len() > 0, Seq::empty());
    let ls = tape_lines(c, ops);
    lemma_run_settings(c, bl + opl);
    lemma_run_blank(ops.len() > 0, opl, c, e);
    lemma_run_ops(ops, Seq::empty(), c, e);
    assert(opl + Seq::<Seq<char>>::empty() =~= opl);
    assert(e + ops =~= ops);
    assert(ls =~= settings_lines(c) + (bl + opl));
    lemma_all_clean_add(bl, opl);
    lemma_all_clean_add(settings_lines(c), bl + opl);
    lemma_source_lines(c, ops);
    lemma_lines_joined(ls);
}

/// Any text, quoted as the writer quotes it, reads back as that one word,
/// whatever quotes, backslashes, spaces or `#`s it holds.
pub proof fn law_quoted_word_round_trip(t: Seq<char>)
    ensures
        tokens_of(quoted_text(t)) == Some(seq![t]),
{
    let l = quoted_text(t);
    assert(l.subrange(0, l.len() as int) =~= l);
    lemma_quoted(l, 0, t, Seq::empty(), Seq::empty(), false, false);
    assert(Seq::<char>::empty() + t =~= t);
    lemma_line_end(l, Seq::empty(), t, false);
    assert(Seq::<Seq<char>>::empty().push(t) =~= seq![t]);
}

/// A span of whole milliseconds, as the writer writes it, reads back as the
/// same span.
pub proof fn law_duration_round_trip(d: nat)
    requires
        writable_span(d),
    ensures
        duration_of(dur_text(d)) == Some(d),
{
    lemma_span_round_trip(d);
}

/// A line that opens a quote and ends before closing it does not read,
/// whatever text stands inside: the reader reports an unterminated string.
pub proof fn law_open_quote_refused(t: Seq<char>)
    ensures
        tokens_of(seq!['"'] + escaped(t)) is None,
{
    let l = seq!['"'] + escaped(t);
    assert(l.subrange(1, 1 + escaped(t).len() as int) =~= escaped(t));
    assert(l[0] == '"');
    lemma_tokens_escaped(l, 1, t, Seq::empty(), Seq::empty());
}

/// A key directive followed by a whole number `n` of at least one, such as
/// `down 3`, presses its key `n` times: it adds exactly `n` key actions,
/// all of that key, after the actions before it, and changes no setting.
pub proof fn law_key_repeats(c: ConfigView, o: Seq<OpView>, k: Key, w: Seq<char>, n: nat)
    requires
        !(k is Ctrl),
        uint_of(w) == Some(n),
        1 <= n <= usize::MAX,
    ensures
        apply_spec(c, o, seq![key_text(k), w]) matches Some((c2, o2)) && c2 == c && o2.len() == o.len()
            + n && o2.subrange(0, o.len() as int) == o && forall|j: int|
            o.len() <= j < o2.len() ==> #[trigger] o2[j] == OpView::Key(k),
{
    lemma_words();
    let kw = key_text(k);
    lemma_lower_plain(kw);
    let toks = seq![kw, w];
    assert(crate::tape::parse::repeat_count(toks) == n);
    let added = Seq::new(n, |_i: int| OpView::Key(k));
    let o2 = o + added;
    assert(o2.subrange(0, o.len() as int) =~= o);
    assert forall|j: int| o.len() <= j < o2.len() implies #[trigger] o2[j] == OpView::Key(k) by {
        assert(o2[j] == added[j - o.len()]);
    }
}

/// A key directive followed by anything but a whole number of at least
/// one (zero, a word, a number too large to count) presses its key once.
pub proof fn law_key_once(c: ConfigView, o: Seq<OpView>, k: Key, w: Seq<char>)
    requires
        !(k is Ctrl),
        match uint_of(w) {
            Some(n) => n == 0 || n > usize::MAX,
            None => true,
        },
    ensures
        apply_spec(c, o, seq![key_text(k), w]) == Some((c, o.push(OpView::Key(k)))),
{
    lemma_words();
    let kw = key_text(k);
    lemma_lower_plain(kw);
    let toks = seq![kw, w];
    assert(crate::tape::parse::repeat_count(toks) == 1);
    assert(Seq::new(1, |_i: int| OpView::Key(k)) =~= seq![OpView::Key(k)]);
    assert(o + seq![OpView::Key(k)] =~= o.push(OpView::Key(k)));
}

} // verus!
