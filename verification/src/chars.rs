use vstd::prelude::*;
use vstd::std_specs::iter::IteratorSpec;

verus! {

broadcast use vstd::string::group_string_axioms;

/// Appends one character to a string.
///
/// Trusted: calls `String::push`, which the standard library documents as
/// appending the given char to the end of the string.
#[verifier::external_body]
pub(crate) fn push_char(s: &mut String, c: char)
    ensures
        final(s)@ == old(s)@.push(c),
{
    s.push(c);
}

/// The characters of `s`, in order.
pub fn chars_of(s: &str) -> (out: Vec<char>)
    ensures
        out@ == s@,
{
    let mut out: Vec<char> = Vec::new();
    for c in iter: s.chars()
        invariant
            out@ == iter.seq().take(iter.index() as int),
    {
        out.push(c);
    }
    out
}

/// A string made of the characters of `v`, in order.
pub fn string_of(v: &[char]) -> (out: String)
    ensures
        out@ == v@,
{
    let mut out = String::new();
    let mut i: usize = 0;
    while i < v.len()
        invariant
            i <= v.len(),
            out@ == v@.take(i as int),
        decreases v.len() - i,
    {
        push_char(&mut out, v[i]);
        assert(v@.take(i + 1) == v@.take(i as int).push(v@[i as int]));
        i = i + 1;
    }
    assert(v@.take(v.len() as int) == v@);
    out
}

/// Appends every character of `v` to `s`.
pub fn push_all(s: &mut String, v: &[char])
    ensures
        final(s)@ == old(s)@ + v@,
{
    let mut i: usize = 0;
    while i < v.len()
        invariant
            i <= v.len(),
            s@ == old(s)@ + v@.take(i as int),
        decreases v.len() - i,
    {
        push_char(s, v[i]);
        assert(v@.take(i + 1) == v@.take(i as int).push(v@[i as int]));
        i = i + 1;
    }
    assert(v@.take(v.len() as int) == v@);
}

/// Appends `t` to `s`.
pub fn push_str(s: &mut String, t: &str)
    ensures
        final(s)@ == old(s)@ + t@,
{
    let v = chars_of(t);
    push_all(s, v.as_slice());
}

/// The decimal digits of `n`, most significant first, with no leading zero.
pub open spec fn uint_text(n: nat) -> Seq<char>
    decreases n,
{
    if n < 10 {
        seq![digit_char(n)]
    } else {
        uint_text(n / 10).push(digit_char(n % 10))
    }
}

/// The character for a digit below ten.
pub open spec fn digit_char(d: nat) -> char {
    ((d + 48) as u8) as char
}

/// Writes `n` in decimal.
pub fn uint_chars(n: u64) -> (out: Vec<char>)
    ensures
        out@ == uint_text(n as nat),
    decreases n,
{
    if n < 10 {
        let c = ((n as u8) + 48) as char;
        let mut out = Vec::new();
        out.push(c);
        out
    } else {
        let mut out = uint_chars(n / 10);
        let c = (((n % 10) as u8) + 48) as char;
        out.push(c);
        out
    }
}

/// Appends `n`, written in decimal, to `s`.
pub fn push_uint(s: &mut String, n: u64)
    ensures
        final(s)@ == old(s)@ + uint_text(n as nat),
{
    let v = uint_chars(n);
    push_all(s, v.as_slice());
}

/// What `char::is_whitespace` holds for: the Unicode `White_Space` characters.
pub open spec fn is_ws(c: char) -> bool {
    ||| c == ' '
    ||| ('\t' <= c && c <= '\r')
    ||| c == '\u{85}'
    ||| c == '\u{a0}'
    ||| c == '\u{1680}'
    ||| ('\u{2000}' <= c && c <= '\u{200a}')
    ||| c == '\u{2028}'
    ||| c == '\u{2029}'
    ||| c == '\u{202f}'
    ||| c == '\u{205f}'
    ||| c == '\u{3000}'
}

pub fn is_whitespace(c: char) -> (b: bool)
    ensures
        b == is_ws(c),
{
    c == ' ' || ('\t' <= c && c <= '\r') || c == '\u{85}' || c == '\u{a0}' || c == '\u{1680}'
        || ('\u{2000}' <= c && c <= '\u{200a}') || c == '\u{2028}' || c == '\u{2029}' || c
        == '\u{202f}' || c == '\u{205f}' || c == '\u{3000}'
}

/// `s` without leading whitespace.
pub open spec fn trim_start(s: Seq<char>) -> Seq<char>
    decreases s.len(),
{
    if s.len() > 0 && is_ws(s[0]) {
        trim_start(s.drop_first())
    } else {
        s
    }
}

/// `s` without trailing whitespace.
pub open spec fn trim_end(s: Seq<char>) -> Seq<char>
    decreases s.len(),
{
    if s.len() > 0 && is_ws(s.last()) {
        trim_end(s.drop_last())
    } else {
        s
    }
}

/// `s` without leading or trailing whitespace, as `str::trim` gives it.
pub open spec fn trim(s: Seq<char>) -> Seq<char> {
    trim_end(trim_start(s))
}

/// `c` with an ASCII capital turned into its small letter.
pub open spec fn lower(c: char) -> char {
    if 'A' <= c && c <= 'Z' {
        ((c as u8) + 32) as char
    } else {
        c
    }
}

/// `s` with every ASCII capital turned into its small letter, as `str::to_ascii_lowercase` gives it.
pub open spec fn lower_all(s: Seq<char>) -> Seq<char> {
    s.map_values(|c: char| lower(c))
}

pub fn lower_char(c: char) -> (r: char)
    ensures
        r == lower(c),
{
    if 'A' <= c && c <= 'Z' {
        ((c as u8) + 32) as char
    } else {
        c
    }
}

pub fn lower_chars(s: &[char]) -> (out: Vec<char>)
    ensures
        out@ == lower_all(s@),
{
    let mut out: Vec<char> = Vec::new();
    let mut i: usize = 0;
    while i < s.len()
        invariant
            i <= s.len(),
            out@ == lower_all(s@.take(i as int)),
        decreases s.len() - i,
    {
        out.push(lower_char(s[i]));
        assert(lower_all(s@.take(i + 1)) == lower_all(s@.take(i as int)).push(lower(s@[i as int])));
        i = i + 1;
    }
    assert(s@.take(s.len() as int) == s@);
    out
}

/// `s[from..to]` as a new vector.
pub fn slice_of(s: &[char], from: usize, to: usize) -> (out: Vec<char>)
    requires
        from <= to <= s.len(),
    ensures
        out@ == s@.subrange(from as int, to as int),
{
    let mut out: Vec<char> = Vec::new();
    let mut i = from;
    while i < to
        invariant
            from <= i <= to,
            to <= s.len(),
            out@ == s@.subrange(from as int, i as int),
        decreases to - i,
    {
        out.push(s[i]);
        assert(s@.subrange(from as int, i + 1) == s@.subrange(from as int, i as int).push(s@[i as int]));
        i = i + 1;
    }
    out
}

/// `s` without leading or trailing whitespace.
pub fn trimmed(s: &[char]) -> (out: Vec<char>)
    ensures
        out@ == trim(s@),
{
    let mut a: usize = 0;
    assert(s@.subrange(0, s.len() as int) == s@);
    while a < s.len() && is_whitespace(s[a])
        invariant
            a <= s.len(),
            trim_start(s@) == trim_start(s@.subrange(a as int, s.len() as int)),
        decreases s.len() - a,
    {
        assert(s@.subrange(a as int, s.len() as int).drop_first() == s@.subrange(a + 1, s.len() as int));
        a = a + 1;
    }
    let ghost mid = s@.subrange(a as int, s.len() as int);
    assert(trim_start(mid) == mid);
    let mut b: usize = s.len();
    while b > a && is_whitespace(s[b - 1])
        invariant
            a <= b <= s.len(),
            mid == s@.subrange(a as int, s.len() as int),
            trim_end(mid) == trim_end(s@.subrange(a as int, b as int)),
        decreases b,
    {
        assert(s@.subrange(a as int, b as int).drop_last() == s@.subrange(a as int, b - 1));
        b = b - 1;
    }
    assert(s@.subrange(a as int, s.len() as int) == mid);
    slice_of(s, a, b)
}

/// Whether `a` holds the same characters as the string `b`.
pub fn same_chars(a: &[char], b: &str) -> (r: bool)
    ensures
        r == (a@ == b@),
{
    let v = chars_of(b);
    if a.len() != v.len() {
        return false;
    }
    let mut i: usize = 0;
    while i < a.len()
        invariant
            i <= a.len(),
            a.len() == v.len(),
            v@ == b@,
            forall|j: int| 0 <= j < i ==> a@[j] == v@[j],
        decreases a.len() - i,
    {
        if a[i] != v[i] {
            assert(a@[i as int] != v@[i as int]);
            return false;
        }
        i = i + 1;
    }
    assert(a@ == v@);
    true
}

/// Whether `c` occurs in `s`.
pub open spec fn has_char(s: Seq<char>, c: char) -> bool {
    exists|i: int| 0 <= i < s.len() && s[i] == c
}

/// Where `c` first occurs in `s`.
pub open spec fn first_at(s: Seq<char>, c: char) -> int {
    choose|i: int| 0 <= i < s.len() && s[i] == c && forall|j: int| 0 <= j < i ==> s[j] != c
}

/// Where `c` first occurs in `s[from..]`, if it does.
pub fn find_char(s: &[char], c: char) -> (r: Option<usize>)
    ensures
        match r {
            Some(i) => {
                &&& has_char(s@, c)
                &&& i == first_at(s@, c)
                &&& i < s@.len()
                &&& s@[i as int] == c
                &&& forall|j: int| 0 <= j < i ==> s@[j] != c
            },
            None => !has_char(s@, c),
        },
{
    let mut i: usize = 0;
    while i < s.len()
        invariant
            i <= s.len(),
            forall|j: int| 0 <= j < i ==> s@[j] != c,
        decreases s.len() - i,
    {
        if s[i] == c {
            proof {
                let k = first_at(s@, c);
                assert(s@[i as int] == c);
                if k < i {
                    assert(s@[k] != c);
                }
                if k > i {
                    assert(s@[i as int] != c);
                }
            }
            return Some(i);
        }
        i = i + 1;
    }
    None
}

/// Appends `n`, written in decimal, to `s`.
pub fn push_wide_uint(s: &mut String, n: u128)
    ensures
        final(s)@ == old(s)@ + uint_text(n as nat),
    decreases n,
{
    if n < 10 {
        push_char(s, ((n as u8) + 48) as char);
    } else {
        push_wide_uint(s, n / 10);
        push_char(s, (((n % 10) as u8) + 48) as char);
    }
}

/// Takes the last character off `s`, if it has one.
pub fn pop_char(s: &mut String) -> (r: Option<char>)
    ensures
        old(s)@.len() == 0 ==> r is None && final(s)@ == old(s)@,
        old(s)@.len() > 0 ==> r == Some(old(s)@.last()) && final(s)@ == old(s)@.drop_last(),
{
    let v = chars_of(s.as_str());
    if v.len() == 0 {
        return None;
    }
    let last = v[v.len() - 1];
    let rest = slice_of(v.as_slice(), 0, v.len() - 1);
    *s = string_of(rest.as_slice());
    assert(v@.subrange(0, v@.len() - 1) == v@.drop_last());
    Some(last)
}

/// Whether `s` ends with `suffix`.
pub open spec fn has_suffix(s: Seq<char>, suffix: Seq<char>) -> bool {
    s.len() >= suffix.len() && s.subrange(s.len() - suffix.len(), s.len() as int) == suffix
}

/// Whether `s` ends with `suffix`, as [`has_suffix`] says.
pub fn ends_with_chars(s: &[char], suffix: &str) -> (b: bool)
    ensures
        b == has_suffix(s@, suffix@),
{
    let t = chars_of(suffix);
    if s.len() < t.len() {
        return false;
    }
    let tail = slice_of(s, s.len() - t.len(), s.len());
    same_chars(tail.as_slice(), suffix)
}

} // verus!
