use vstd::prelude::*;

use crate::chars::{chars_of, push_char, push_str, push_wide_uint, uint_text};
use crate::number::{
    decimals_text, lemma_pow10_mono, lemma_pow10_pos, lemma_pow10_six, pow10, pow10_exec,
    push_decimals, round_div, Decimal,
};

verus! {

broadcast use vstd::string::group_string_axioms;

/// How one character is written inside SVG text or an attribute: markup
/// characters as entities, control characters other than tab as a space.
pub open spec fn escape_char(c: char) -> Seq<char> {
    if c == '&' {
        "&amp;"@
    } else if c == '<' {
        "&lt;"@
    } else if c == '>' {
        "&gt;"@
    } else if c == '"' {
        "&quot;"@
    } else if (c as u32) < 0x20 && c != '\t' {
        seq![' ']
    } else {
        seq![c]
    }
}

/// `s` with every character written as [`escape_char`] says.
pub open spec fn escape_text(s: Seq<char>) -> Seq<char>
    decreases s.len(),
{
    if s.len() == 0 {
        Seq::empty()
    } else {
        escape_text(s.drop_last()) + escape_char(s.last())
    }
}

/// Appends `text`, escaped as [`escape_text`] says.
pub fn push_escaped(s: &mut String, text: &str)
    ensures
        final(s)@ == old(s)@ + escape_text(text@),
{
    let v = chars_of(text);
    let mut i: usize = 0;
    while i < v.len()
        invariant
            i <= v.len(),
            v@ == text@,
            s@ == old(s)@ + escape_text(v@.take(i as int)),
        decreases v.len() - i,
    {
        let c = v[i];
        proof {
            reveal_strlit("&amp;");
            reveal_strlit("&lt;");
            reveal_strlit("&gt;");
            reveal_strlit("&quot;");
        }
        if c == '&' {
            push_str(s, "&amp;");
        } else if c == '<' {
            push_str(s, "&lt;");
        } else if c == '>' {
            push_str(s, "&gt;");
        } else if c == '"' {
            push_str(s, "&quot;");
        } else if (c as u32) < 0x20 && c != '\t' {
            push_char(s, ' ');
        } else {
            push_char(s, c);
        }
        assert(v@.take(i + 1).drop_last() == v@.take(i as int));
        i = i + 1;
    }
    assert(v@.take(v.len() as int) == v@);
}

/// `s` escaped for SVG, as [`escape_text`] says.
pub fn escape(s: &str) -> (out: String)
    ensures
        out@ == escape_text(s@),
{
    let mut out = String::new();
    push_escaped(&mut out, s);
    out
}

/// `r / 10^places` written out: a minus sign when negative, the whole part,
/// and the decimals without trailing zeros, with no point for a whole number.
pub open spec fn fixed_text(r: int, places: nat) -> Seq<char> {
    let a = if r < 0 {
        -r
    } else {
        r
    };
    let unit = pow10(places) as int;
    let whole = (a / unit) as nat;
    let frac = (a % unit) as nat;
    let sign = if r < 0 {
        seq!['-']
    } else {
        Seq::<char>::empty()
    };
    let tail = if frac == 0 {
        Seq::<char>::empty()
    } else {
        seq!['.'] + decimals_text(frac, places)
    };
    sign + uint_text(whole) + tail
}

/// Appends `r / 10^places`, written as [`fixed_text`] says.
pub fn push_fixed(s: &mut String, r: i128, places: u32)
    requires
        places <= 6,
        -0x4000_0000_0000_0000_0000_0000_0000_0000 < r < 0x4000_0000_0000_0000_0000_0000_0000_0000,
    ensures
        final(s)@ == old(s)@ + fixed_text(r as int, places as nat),
{
    let a: i128 = if r < 0 {
        -r
    } else {
        r
    };
    proof {
        lemma_pow10_pos(places as nat);
        lemma_pow10_mono(places as nat, 6);
        lemma_pow10_six();
    }
    let unit = pow10_exec(places) as i128;
    let whole = (a / unit) as u128;
    let frac = (a % unit) as u64;
    if r < 0 {
        push_char(s, '-');
    }
    push_wide_uint(s, whole);
    if frac != 0 {
        push_char(s, '.');
        push_decimals(s, frac, places);
    }
}

/// `x / d` rounded to the nearest whole number, halves away from zero, as
/// [`round_div`] says.
pub fn round_div_exec(x: i128, d: i128) -> (r: i128)
    requires
        d > 0,
        -0x4000_0000_0000_0000_0000_0000_0000_0000 < x < 0x4000_0000_0000_0000_0000_0000_0000_0000,
        d < 0x4000_0000_0000_0000_0000_0000_0000_0000,
    ensures
        r == round_div(x as int, d as int),
        x >= 0 ==> 0 <= r <= x,
        x < 0 ==> x <= r <= 0,
{
    if x >= 0 {
        let r = (x + d / 2) / d;
        assert(r <= x) by (nonlinear_arith)
            requires
                x >= 0,
                d > 0,
                r == (x + d / 2) / (d as int),
        ;
        r
    } else {
        let q = (-x + d / 2) / d;
        assert(q <= -x) by (nonlinear_arith)
            requires
                -x > 0,
                d > 0,
                q == (-x + d / 2) / (d as int),
        ;
        -q
    }
}

/// A number of millionths written to the hundredth, as SVG lengths are:
/// rounded half away from zero, with no trailing zeros.
pub open spec fn num_text(micros: int) -> Seq<char> {
    fixed_text(round_div(micros, 10_000), 2nat)
}

/// A number of millionths written to the thousandth, as CSS percentages
/// are: rounded half away from zero, with no trailing zeros.
pub open spec fn pct_text(micros: int) -> Seq<char> {
    fixed_text(round_div(micros, 1_000), 3nat)
}

/// `v` written to the hundredth, as [`num_text`] says.
pub fn num(v: Decimal) -> (out: String)
    ensures
        out@ == num_text(v@),
{
    let r = round_div_exec(v.micros as i128, 10_000);
    let mut out = String::new();
    push_fixed(&mut out, r, 2);
    out
}

/// `v` written to the thousandth, as [`pct_text`] says.
pub fn pct(v: Decimal) -> (out: String)
    ensures
        out@ == pct_text(v@),
{
    let r = round_div_exec(v.micros as i128, 1_000);
    let mut out = String::new();
    push_fixed(&mut out, r, 3);
    out
}

/// Whether a character may stand as it is in SVG text: it opens no markup,
/// closes no attribute, and is no control character but tab.
pub open spec fn markup_safe(c: char) -> bool {
    c != '<' && c != '>' && c != '"' && ((c as u32) >= 0x20 || c == '\t')
}

/// Escaped text opens no markup, closes no attribute and holds no control
/// character but tab, whatever it was made from.
pub proof fn law_escape_safe(s: Seq<char>)
    ensures
        forall|i: int| 0 <= i < escape_text(s).len() ==> markup_safe(#[trigger] escape_text(s)[i]),
    decreases s.len(),
{
    if s.len() > 0 {
        law_escape_safe(s.drop_last());
        reveal_strlit("&amp;");
        reveal_strlit("&lt;");
        reveal_strlit("&gt;");
        reveal_strlit("&quot;");
        let a = escape_text(s.drop_last());
        let b = escape_char(s.last());
        assert(forall|k: int| 0 <= k < b.len() ==> markup_safe(#[trigger] b[k]));
        assert forall|i: int| 0 <= i < escape_text(s).len() implies markup_safe(
            #[trigger] escape_text(s)[i],
        ) by {
            if i < a.len() {
                assert(escape_text(s)[i] == a[i]);
            } else {
                assert(escape_text(s)[i] == b[i - a.len()]);
            }
        }
    }
}

} // verus!
