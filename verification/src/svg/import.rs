use vstd::prelude::*;

use crate::chars::{
    chars_of, find_char, first_at, has_char, is_whitespace, lower, lower_all, lower_chars, push_char,
    push_str, same_chars, slice_of, string_of, trim, trim_start, trimmed,
};
use crate::svg::theme::{hex_value, is_hex, rgb, rgb_of, Palette, PaletteView, Theme, ThemeView};
use crate::tape::parse::{lines_of, split_lines, vecs_view};
use crate::tape::strings_view;
use crate::tape::write::quoted_text;
use serde_json::Value;

verus! {

broadcast use vstd::string::group_string_axioms;

/// Whether `c` is an ASCII letter or digit.
pub open spec fn is_alnum(c: char) -> bool {
    ('0' <= c && c <= '9') || ('a' <= c && c <= 'z') || ('A' <= c && c <= 'Z')
}

/// A name reduced to lowercase letters and digits, each other stretch of
/// characters one hyphen, before the leading and trailing hyphens go.
pub open spec fn slug_raw(s: Seq<char>) -> Seq<char>
    decreases s.len(),
{
    if s.len() == 0 {
        Seq::empty()
    } else {
        let before = slug_raw(s.drop_last());
        let c = s.last();
        if is_alnum(c) {
            before.push(lower(c))
        } else if before.len() > 0 && before.last() == '-' {
            before
        } else {
            before.push('-')
        }
    }
}

/// `s` without `c` at either end, as `str::trim_matches` leaves it.
pub open spec fn strip_start(s: Seq<char>, c: char) -> Seq<char>
    decreases s.len(),
{
    if s.len() > 0 && s[0] == c {
        strip_start(s.drop_first(), c)
    } else {
        s
    }
}

pub open spec fn strip_end(s: Seq<char>, c: char) -> Seq<char>
    decreases s.len(),
{
    if s.len() > 0 && s.last() == c {
        strip_end(s.drop_last(), c)
    } else {
        s
    }
}

pub open spec fn strip(s: Seq<char>, c: char) -> Seq<char> {
    strip_end(strip_start(s, c), c)
}

/// A theme name that can be typed: lowercase letters, digits and single
/// hyphens.
pub open spec fn slug_text(s: Seq<char>) -> Seq<char> {
    strip(slug_raw(s), '-')
}

/// `s` without `c` at either end, as [`strip`] says.
fn stripped(s: &[char], c: char) -> (out: Vec<char>)
    ensures
        out@ == strip(s@, c),
{
    let mut a: usize = 0;
    assert(s@.subrange(0, s.len() as int) == s@);
    while a < s.len() && s[a] == c
        invariant
            a <= s.len(),
            strip_start(s@, c) == strip_start(s@.subrange(a as int, s.len() as int), c),
        decreases s.len() - a,
    {
        assert(s@.subrange(a as int, s.len() as int).drop_first() == s@.subrange(a + 1, s.len() as int));
        a = a + 1;
    }
    let ghost mid = s@.subrange(a as int, s.len() as int);
    assert(strip_start(mid, c) == mid);
    let mut b: usize = s.len();
    while b > a && s[b - 1] == c
        invariant
            a <= b <= s.len(),
            mid == s@.subrange(a as int, s.len() as int),
            strip_end(mid, c) == strip_end(s@.subrange(a as int, b as int), c),
        decreases b,
    {
        assert(s@.subrange(a as int, b as int).drop_last() == s@.subrange(a as int, b - 1));
        b = b - 1;
    }
    slice_of(s, a, b)
}

/// A name made typeable, as [`slug_text`] says.
pub fn slug(name: &str) -> (out: String)
    ensures
        out@ == slug_text(name@),
{
    let v = chars_of(name);
    let mut raw: Vec<char> = Vec::new();
    let mut i: usize = 0;
    while i < v.len()
        invariant
            i <= v.len(),
            v@ == name@,
            raw@ == slug_raw(v@.take(i as int)),
        decreases v.len() - i,
    {
        let c = v[i];
        assert(v@.take(i + 1).drop_last() == v@.take(i as int));
        if ('0' <= c && c <= '9') || ('a' <= c && c <= 'z') || ('A' <= c && c <= 'Z') {
            raw.push(crate::chars::lower_char(c));
        } else if raw.len() > 0 && raw[raw.len() - 1] == '-' {
        } else {
            raw.push('-');
        }
        i = i + 1;
    }
    assert(v@.take(v.len() as int) == v@);
    let s = stripped(raw.as_slice(), '-');
    string_of(s.as_slice())
}

/// A color as a scheme file writes it, cleaned: spaces and quotes round it
/// dropped, lowercase, with a `#` in front.
pub open spec fn clean_color(raw: Seq<char>) -> Seq<char> {
    let v = trim(strip(strip(trim(raw), '"'), '\''));
    if v.len() > 0 && v[0] == '#' {
        lower_all(v)
    } else {
        seq!['#'] + lower_all(v)
    }
}

/// A scheme file's color as `#rrggbb`, or why it is not one.
#[verifier::opaque]
pub open spec fn hex_of(raw: Seq<char>) -> Result<Seq<char>, Seq<char>> {
    let v = clean_color(raw);
    if rgb_of(v) is Some {
        Ok(v)
    } else {
        Err(quoted_text(raw) + " is not an #rrggbb color"@)
    }
}

/// Reads a scheme file's color, as [`hex_of`] says.
fn hex(raw: &str) -> (r: Result<String, String>)
    ensures
        match hex_of(raw@) {
            Ok(v) => r matches Ok(s) && s@ == v,
            Err(e) => r matches Err(m) && m@ == e,
        },
{
    proof {
        reveal(hex_of);
    }
    let a = chars_of(raw);
    let a = trimmed(a.as_slice());
    let a = stripped(a.as_slice(), '"');
    let a = stripped(a.as_slice(), '\'');
    let a = trimmed(a.as_slice());
    let low = lower_chars(a.as_slice());
    let mut v = String::new();
    if !(a.len() > 0 && a[0] == '#') {
        push_char(&mut v, '#');
    }
    crate::chars::push_all(&mut v, low.as_slice());
    proof {
        if a@.len() > 0 && a@[0] == '#' {
            assert(v@ =~= lower_all(a@));
        } else {
            assert(v@ =~= seq!['#'] + lower_all(a@));
        }
    }
    if rgb(v.as_str()).is_none() {
        let mut m = crate::tape::write::quoted(raw);
        push_str(&mut m, " is not an #rrggbb color");
        return Err(m);
    }
    Ok(v)
}

/// The slot a base16 key names: `base` and two hexadecimal digits, or a
/// plus sign and one, as `usize::from_str_radix` reads them.
pub open spec fn slot_index(key: Seq<char>) -> Option<nat> {
    if key.len() == 6 && key.take(4) == "base"@ {
        let a = key[4];
        let b = key[5];
        if a == '+' && is_hex(b) {
            Some(hex_value(b))
        } else if is_hex(a) && is_hex(b) {
            Some(hex_value(a) * 16 + hex_value(b))
        } else {
            None
        }
    } else {
        None
    }
}

/// What reading a base16 scheme has found so far: a color for each slot it
/// has seen, and the scheme's name.
pub struct Base16 {
    pub slots: Seq<Option<Seq<char>>>,
    pub name: Seq<char>,
}

/// The key and the value of a `key: value` line, each without the space
/// round it; nothing for a line without a colon or with an empty value.
pub open spec fn entry_of(line: Seq<char>) -> Option<(Seq<char>, Seq<char>)> {
    let l = trim(line);
    if !has_char(l, ':') {
        None
    } else {
        let k = first_at(l, ':');
        let key = trim(l.take(k));
        let value = trim(l.subrange(k + 1, l.len() as int));
        if value.len() == 0 {
            None
        } else {
            Some((key, value))
        }
    }
}

/// Whether a line names a slot past the sixteen a scheme has.
pub open spec fn line_overflows(line: Seq<char>) -> bool {
    match entry_of(line) {
        Some((key, value)) => key != "scheme"@ && key != "name"@ && match slot_index(key) {
            Some(i) => i >= 16,
            None => false,
        },
        None => false,
    }
}

/// One line of a base16 scheme: its name, taken from the first `scheme` or
/// `name` line, or the color of one of its slots.
pub open spec fn base16_line(st: Base16, line: Seq<char>) -> Result<Base16, Seq<char>> {
    match entry_of(line) {
        None => Ok(st),
        Some((key, value)) => if key == "scheme"@ || key == "name"@ {
            if st.name.len() == 0 {
                Ok(Base16 { name: strip(strip(value, '"'), '\''), ..st })
            } else {
                Ok(st)
            }
        } else {
            match slot_index(key) {
                Some(i) => match hex_of(value) {
                    Ok(c) => Ok(Base16 { slots: st.slots.update(i as int, Some(c)), ..st }),
                    Err(e) => Err(e),
                },
                None => Ok(st),
            }
        },
    }
}

pub open spec fn base16_lines(lines: Seq<Seq<char>>) -> Result<Base16, Seq<char>>
    decreases lines.len(),
{
    if lines.len() == 0 {
        Ok(Base16 { slots: Seq::new(16, |i: int| None::<Seq<char>>), name: Seq::empty() })
    } else {
        match base16_lines(lines.drop_last()) {
            Ok(st) => base16_line(st, lines.last()),
            Err(e) => Err(e),
        }
    }
}

/// Which base16 slot becomes each of the sixteen ANSI colors.
pub open spec fn base16_ansi() -> Seq<int> {
    seq![0x00, 0x08, 0x0b, 0x0a, 0x0d, 0x0e, 0x0c, 0x05, 0x03, 0x08, 0x0b, 0x0a, 0x0d, 0x0e, 0x0c, 0x07]
}

/// Two uppercase hexadecimal digits.
pub open spec fn upper_hex2(v: nat) -> Seq<char> {
    let d = |x: nat|
        if x < 10 {
            ((x + 48) as u8) as char
        } else {
            ((x + 55) as u8) as char
        };
    seq![d(v / 16), d(v % 16)]
}

/// The first slot without a color.
pub open spec fn first_missing(slots: Seq<Option<Seq<char>>>) -> int {
    choose|i: int|
        0 <= i < slots.len() && slots[i] is None && forall|j: int| 0 <= j < i ==> (#[trigger] slots[j]) is Some
}

/// The theme of a base16 scheme: the text on the background, the cursor in
/// the text color, the title bar and the frame from the two lightest
/// backgrounds, the buttons from red, yellow and green, and the ANSI colors
/// as [`base16_ansi`] maps them.
pub open spec fn base16_theme(src: Seq<char>) -> Result<ThemeView, Seq<char>> {
    match base16_lines(lines_of(src)) {
        Err(e) => Err(e),
        Ok(st) => if exists|i: int| 0 <= i < 16 && (#[trigger] st.slots[i]) is None {
            Err("base16 scheme is missing base"@ + upper_hex2(first_missing(st.slots) as nat))
        } else {
            let base = st.slots.map_values(|o: Option<Seq<char>>| o->0);
            let name = if st.name.len() == 0 {
                "imported"@
            } else {
                st.name
            };
            Ok(
                ThemeView {
                    name: slug_text(name),
                    dark: PaletteView {
                        fg: base[0x05],
                        bg: base[0x00],
                        cursor: Some(base[0x05]),
                        chrome: Some(base[0x01]),
                        border: Some(base[0x02]),
                        buttons: Some(seq![base[0x08], base[0x0a], base[0x0b]]),
                        ansi: base16_ansi().map_values(|i: int| base[i]),
                    },
                    light: None,
                },
            )
        },
    }
}

fn entry_exec(line: &[char]) -> (r: Option<(Vec<char>, Vec<char>)>)
    ensures
        match entry_of(line@) {
            Some((k, v)) => r matches Some((a, b)) && a@ == k && b@ == v,
            None => r is None,
        },
{
    let l = trimmed(line);
    let k = match find_char(l.as_slice(), ':') {
        Some(k) => k,
        None => {
            return None;
        },
    };
    let key = slice_of(l.as_slice(), 0, k);
    assert(key@ == l@.take(k as int));
    let key = trimmed(key.as_slice());
    let n = l.len();
    let value = slice_of(l.as_slice(), k + 1, n);
    let value = trimmed(value.as_slice());
    if value.len() == 0 {
        return None;
    }
    Some((key, value))
}

fn hex_digit(c: char) -> (r: Option<usize>)
    ensures
        match r {
            Some(v) => is_hex(c) && v == hex_value(c) && v < 16,
            None => !is_hex(c),
        },
{
    if '0' <= c && c <= '9' {
        Some((c as u32 - 48) as usize)
    } else if 'a' <= c && c <= 'f' {
        Some((c as u32 - 87) as usize)
    } else if 'A' <= c && c <= 'F' {
        Some((c as u32 - 55) as usize)
    } else {
        None
    }
}

fn slot_exec(key: &[char]) -> (r: Option<usize>)
    ensures
        match slot_index(key@) {
            Some(i) => r == Some(i as usize),
            None => r is None,
        },
{
    if key.len() != 6 {
        return None;
    }
    let head = slice_of(key, 0, 4);
    assert(head@ == key@.take(4));
    if !same_chars(head.as_slice(), "base") {
        return None;
    }
    let a = key[4];
    let b = key[5];
    match hex_digit(b) {
        None => None,
        Some(vb) => {
            if a == '+' {
                Some(vb)
            } else {
                match hex_digit(a) {
                    Some(va) => Some(va * 16 + vb),
                    None => None,
                }
            }
        },
    }
}

/// Whether any line of a base16 scheme names a slot past the sixteen it
/// has, as [`line_overflows`] says.
pub fn base16_overflows(src: &str) -> (b: bool)
    ensures
        b == exists|i: int| 0 <= i < lines_of(src@).len() && line_overflows(#[trigger] lines_of(src@)[i]),
{
    let chars = chars_of(src);
    let lines = split_lines(chars.as_slice());
    let ghost ls = lines_of(src@);
    let mut i: usize = 0;
    while i < lines.len()
        invariant
            i <= lines.len(),
            ls == lines_of(src@),
            vecs_view(lines@) == ls,
            forall|j: int| 0 <= j < i ==> !line_overflows(#[trigger] ls[j]),
        decreases lines.len() - i,
    {
        assert(ls[i as int] == lines@[i as int]@);
        match entry_exec(lines[i].as_slice()) {
            Some((key, _)) => {
                if !same_chars(key.as_slice(), "scheme") && !same_chars(key.as_slice(), "name") {
                    match slot_exec(key.as_slice()) {
                        Some(k) => {
                            if k >= 16 {
                                assert(line_overflows(ls[i as int]));
                                return true;
                            }
                        },
                        None => {},
                    }
                }
            },
            None => {},
        }
        i = i + 1;
    }
    false
}

proof fn lemma_base16_err(ls: Seq<Seq<char>>, k: int, e: Seq<char>)
    requires
        0 <= k <= ls.len(),
        base16_lines(ls.take(k)) == Err::<Base16, Seq<char>>(e),
    ensures
        base16_lines(ls) == Err::<Base16, Seq<char>>(e),
    decreases ls.len() - k,
{
    if k < ls.len() {
        assert(ls.take(k + 1).drop_last() == ls.take(k));
        lemma_base16_err(ls, k + 1, e);
    } else {
        assert(ls.take(k) == ls);
    }
}

pub open spec fn slots_view(v: Seq<Option<String>>) -> Seq<Option<Seq<char>>> {
    v.map_values(|o: Option<String>|
        match o {
            Some(s) => Some(s@),
            None => None,
        })
}

fn push_upper_hex2(s: &mut String, v: u8)
    ensures
        final(s)@ == old(s)@ + upper_hex2(v as nat),
{
    let hi = v / 16;
    let lo = v % 16;
    let a = if hi < 10 {
        (hi + 48) as char
    } else {
        (hi + 55) as char
    };
    let b = if lo < 10 {
        (lo + 48) as char
    } else {
        (lo + 55) as char
    };
    push_char(s, a);
    push_char(s, b);
}

proof fn lemma_slots_push(v: Seq<Option<String>>, x: Option<String>)
    ensures
        slots_view(v.push(x)) == slots_view(v).push(
            match x {
                Some(s) => Some(s@),
                None => None,
            },
        ),
{
    assert(slots_view(v.push(x)) =~= slots_view(v).push(
        match x {
            Some(s) => Some(s@),
            None => None,
        },
    ));
}

proof fn lemma_slots_update(v: Seq<Option<String>>, i: int, x: String)
    requires
        0 <= i < v.len(),
    ensures
        slots_view(v.update(i, Some(x))) == slots_view(v).update(i, Some(x@)),
{
    assert(slots_view(v.update(i, Some(x))) =~= slots_view(v).update(i, Some(x@)));
}

fn take_line(slots: &mut Vec<Option<String>>, name: &mut String, line: &[char]) -> (r: Result<(), String>)
    requires
        old(slots)@.len() == 16,
        !line_overflows(line@),
    ensures
        final(slots)@.len() == 16,
        match base16_line(Base16 { slots: slots_view(old(slots)@), name: old(name)@ }, line@) {
            Ok(st) => r is Ok && slots_view(final(slots)@) == st.slots && final(name)@ == st.name,
            Err(e) => r matches Err(m) && m@ == e,
        },
{
    proof {
        reveal_strlit("scheme");
        reveal_strlit("name");
    }
    match entry_exec(line) {
        Some((key, value)) => {
            if same_chars(key.as_slice(), "scheme") || same_chars(key.as_slice(), "name") {
                if name.as_str().is_empty() {
                    let a = stripped(value.as_slice(), '"');
                    let b = stripped(a.as_slice(), '\'');
                    *name = string_of(b.as_slice());
                }
                Ok(())
            } else {
                match slot_exec(key.as_slice()) {
                    Some(idx) => {
                        let v = string_of(value.as_slice());
                        match hex(v.as_str()) {
                            Ok(c) => {
                                let ghost raw = slots@;
                                let ghost cc = c;
                                slots.set(idx, Some(c));
                                proof {
                                    lemma_slots_update(raw, idx as int, cc);
                                }
                                Ok(())
                            },
                            Err(e) => Err(e),
                        }
                    },
                    None => Ok(()),
                }
            }
        },
        None => Ok(()),
    }
}

fn empty_slots() -> (v: Vec<Option<String>>)
    ensures
        slots_view(v@) == Seq::new(16, |i: int| None::<Seq<char>>),
        v@.len() == 16,
{
    let mut v: Vec<Option<String>> = Vec::new();
    let mut k: usize = 0;
    while k < 16
        invariant
            k <= 16,
            v@.len() == k,
            slots_view(v@) == Seq::new(k as nat, |i: int| None::<Seq<char>>),
        decreases 16 - k,
    {
        let ghost raw = v@;
        v.push(None);
        proof {
            lemma_slots_push(raw, None);
        }
        assert(slots_view(v@) =~= Seq::new((k + 1) as nat, |i: int| None::<Seq<char>>));
        k = k + 1;
    }
    v
}

fn read_base16(src: &str) -> (r: Result<(Vec<Option<String>>, String), String>)
    requires
        !exists|i: int| 0 <= i < lines_of(src@).len() && line_overflows(#[trigger] lines_of(src@)[i]),
    ensures
        match base16_lines(lines_of(src@)) {
            Ok(st) => r matches Ok((slots, name)) && slots_view(slots@) == st.slots && name@ == st.name
                && slots@.len() == 16,
            Err(e) => r matches Err(m) && m@ == e,
        },
{
    let chars = chars_of(src);
    let lines = split_lines(chars.as_slice());
    let ghost ls = lines_of(src@);
    let mut slots = empty_slots();
    let mut name = String::new();
    let mut i: usize = 0;
    assert(ls.take(0) =~= Seq::<Seq<char>>::empty());
    while i < lines.len()
        invariant
            i <= lines.len(),
            ls == lines_of(src@),
            vecs_view(lines@) == ls,
            !exists|j: int| 0 <= j < ls.len() && line_overflows(#[trigger] ls[j]),
            slots@.len() == 16,
            base16_lines(ls.take(i as int)) == Ok::<Base16, Seq<char>>(
                Base16 { slots: slots_view(slots@), name: name@ },
            ),
        decreases lines.len() - i,
    {
        assert(ls[i as int] == lines@[i as int]@);
        assert(ls.take(i + 1).drop_last() == ls.take(i as int));
        assert(!line_overflows(ls[i as int]));
        match take_line(&mut slots, &mut name, lines[i].as_slice()) {
            Ok(()) => {},
            Err(e) => {
                proof {
                    lemma_base16_err(ls, i + 1, e@);
                }
                return Err(e);
            },
        }
        i = i + 1;
    }
    assert(ls.take(lines.len() as int) == ls);
    Ok((slots, name))
}

fn ansi_indices() -> (v: Vec<usize>)
    ensures
        v@.len() == 16,
        forall|i: int| 0 <= i < 16 ==> v@[i] == base16_ansi()[i],
{
    let mut v: Vec<usize> = Vec::new();
    v.push(0x00);
    v.push(0x08);
    v.push(0x0b);
    v.push(0x0a);
    v.push(0x0d);
    v.push(0x0e);
    v.push(0x0c);
    v.push(0x05);
    v.push(0x03);
    v.push(0x08);
    v.push(0x0b);
    v.push(0x0a);
    v.push(0x0d);
    v.push(0x0e);
    v.push(0x0c);
    v.push(0x07);
    v
}

/// Reads a base16 scheme, as [`base16_theme`] says.
pub fn base16(src: &str) -> (r: Result<Theme, String>)
    requires
        !exists|i: int| 0 <= i < lines_of(src@).len() && line_overflows(#[trigger] lines_of(src@)[i]),
    ensures
        match base16_theme(src@) {
            Ok(t) => r matches Ok(x) && x@ == t,
            Err(e) => r matches Err(m) && m@ == e,
        },
{
    let read = read_base16(src);
    let (slots, name) = match read {
        Ok(pair) => pair,
        Err(e) => {
            return Err(e);
        },
    };
    assert(base16_lines(lines_of(src@)) is Ok);
    let ghost sv = slots_view(slots@);
    let ghost st = base16_lines(lines_of(src@))->Ok_0;
    assert(st.slots == sv && st.name == name@);
    let mut i: usize = 0;
    while i < 16
        invariant
            i <= 16,
            slots@.len() == 16,
            sv == slots_view(slots@),
            st == base16_lines(lines_of(src@))->Ok_0,
            base16_lines(lines_of(src@)) is Ok,
            st.slots == sv,
            st.name == name@,
            forall|j: int| 0 <= j < i ==> (#[trigger] sv[j]) is Some,
        decreases 16 - i,
    {
        if slots[i].is_none() {
            let mut m = String::new();
            push_str(&mut m, "base16 scheme is missing base");
            push_upper_hex2(&mut m, i as u8);
            proof {
                assert(sv[i as int] is None);
                assert(st.slots[i as int] is None);
                let k = first_missing(sv);
                assert(0 <= k < sv.len() && sv[k] is None && forall|j: int| 0 <= j < k ==> (#[trigger] sv[j]) is Some);
                if k < i {
                    assert(sv[k] is Some);
                }
                if k > i {
                    assert(sv[i as int] is Some);
                }
            }
            return Err(m);
        }
        i = i + 1;
    }
    let ghost base = sv.map_values(|o: Option<Seq<char>>| o->0);
    let mut b: Vec<String> = Vec::new();
    let mut k: usize = 0;
    while k < 16
        invariant
            k <= 16,
            slots@.len() == 16,
            sv == slots_view(slots@),
            base == sv.map_values(|o: Option<Seq<char>>| o->0),
            st == base16_lines(lines_of(src@))->Ok_0,
            base16_lines(lines_of(src@)) is Ok,
            st.slots == sv,
            st.name == name@,
            forall|j: int| 0 <= j < 16 ==> (#[trigger] sv[j]) is Some,
            b@.len() == k,
            forall|j: int| 0 <= j < k ==> (#[trigger] b@[j])@ == base[j],
        decreases 16 - k,
    {
        match &slots[k] {
            Some(c) => b.push(c.clone()),
            None => {
                assert(sv[k as int] is Some);
                b.push(String::new());
            },
        }
        k = k + 1;
    }
    let idx = ansi_indices();
    let mut ansi: Vec<String> = Vec::new();
    let mut a: usize = 0;
    while a < 16
        invariant
            a <= 16,
            idx@.len() == 16,
            forall|j: int| 0 <= j < 16 ==> idx@[j] == base16_ansi()[j],
            b@.len() == 16,
            forall|j: int| 0 <= j < 16 ==> (#[trigger] b@[j])@ == base[j],
            ansi@.len() == a,
            base == sv.map_values(|o: Option<Seq<char>>| o->0),
            st == base16_lines(lines_of(src@))->Ok_0,
            base16_lines(lines_of(src@)) is Ok,
            st.slots == sv,
            st.name == name@,
            forall|j: int| 0 <= j < 16 ==> (#[trigger] sv[j]) is Some,
            forall|j: int| 0 <= j < a ==> (#[trigger] ansi@[j])@ == base[base16_ansi()[j]],
        decreases 16 - a,
    {
        ansi.push(b[idx[a]].clone());
        a = a + 1;
    }
    let mut buttons: Vec<String> = Vec::new();
    buttons.push(b[8].clone());
    buttons.push(b[0x0a].clone());
    buttons.push(b[0x0b].clone());
    let shown = if name.as_str().is_empty() {
        "imported".to_owned()
    } else {
        name
    };
    let palette = Palette {
        fg: b[5].clone(),
        bg: b[0].clone(),
        cursor: Some(b[5].clone()),
        chrome: Some(b[1].clone()),
        border: Some(b[2].clone()),
        buttons: Some(buttons),
        ansi,
    };
    let t = Theme { name: slug(shown.as_str()), dark: palette, light: None };
    proof {
        assert(!exists|j: int| 0 <= j < 16 && (#[trigger] st.slots[j]) is None);
        assert(t@.dark.ansi =~= base16_ansi().map_values(|i: int| base[i]));
        assert(t@.dark.buttons->0 =~= seq![base[0x08], base[0x0a], base[0x0b]]);
    }
    Ok(t)
}

/// A member of the top object of a JSON document, as far as reading a
/// Windows Terminal file needs it: text, a list whose entries are given by
/// their text members, or anything else.
#[derive(Clone, Debug)]
pub enum Field {
    Text(String),
    List(Vec<Vec<(String, Option<String>)>>),
    Other,
}

/// The members of a JSON object: their names, and their text where it is
/// text.
pub open spec fn members_view(m: Seq<(String, Option<String>)>) -> Seq<(Seq<char>, Option<Seq<char>>)> {
    m.map_values(|p: (String, Option<String>)|
        (
            p.0@,
            match p.1 {
                Some(t) => Some(t@),
                None => None,
            },
        ))
}

pub enum FieldView {
    Text(Seq<char>),
    List(Seq<Seq<(Seq<char>, Option<Seq<char>>)>>),
    Other,
}

pub open spec fn field_view(f: Field) -> FieldView {
    match f {
        Field::Text(t) => FieldView::Text(t@),
        Field::List(l) => FieldView::List(
            l@.map_values(|m: Vec<(String, Option<String>)>| members_view(m@)),
        ),
        Field::Other => FieldView::Other,
    }
}

pub open spec fn fields_view(v: Seq<(String, Field)>) -> Seq<(Seq<char>, FieldView)> {
    v.map_values(|p: (String, Field)| (p.0@, field_view(p.1)))
}

/// The top object of a JSON document as `serde_json` reads it, or what it
/// says is wrong with the document; a document that is not an object has
/// no members.
pub uninterp spec fn json_fields(src: Seq<char>) -> Result<Seq<(Seq<char>, FieldView)>, Seq<char>>;

/// Reads a JSON document with `serde_json::from_str` and converts its top
/// object.
///
/// Trusted: the document is the crate's reading and is only named here.
#[verifier::external_body]
fn parse_json(src: &str) -> (r: Result<Vec<(String, Field)>, String>)
    ensures
        match r {
            Ok(v) => json_fields(src@) == Ok::<Seq<(Seq<char>, FieldView)>, Seq<char>>(fields_view(v@)),
            Err(e) => json_fields(src@) == Err::<Seq<(Seq<char>, FieldView)>, Seq<char>>(e@),
        },
{
    let root: Value = serde_json::from_str(src).map_err(|e| e.to_string())?;
    Ok(root.as_object().into_iter().flatten().map(|(k, v)| (k.clone(), match v {
        Value::String(s) => Field::Text(s.clone()),
        Value::Array(a) => Field::List(a.iter().map(|x| x.as_object().into_iter().flatten()
            .map(|(n, y)| (n.clone(), y.as_str().map(str::to_owned))).collect()).collect()),
        _ => Field::Other,
    })).collect())
}

/// The text of the member `key`, where there is one and it is text.
#[verifier::opaque]
pub open spec fn member_text(m: Seq<(Seq<char>, Option<Seq<char>>)>, key: Seq<char>) -> Option<Seq<char>> {
    if exists|i: int| 0 <= i < m.len() && (#[trigger] m[i]).0 == key {
        m[choose|i: int| 0 <= i < m.len() && (#[trigger] m[i]).0 == key && forall|j: int| 0 <= j < i ==> (#[trigger] m[j]).0 != key].1
    } else {
        None
    }
}

/// The color of member `key` of a scheme, or why there is none.
#[verifier::opaque]
pub open spec fn pick_of(m: Seq<(Seq<char>, Option<Seq<char>>)>, key: Seq<char>) -> Result<Seq<char>, Seq<char>> {
    match member_text(m, key) {
        Some(raw) => hex_of(raw),
        None => Err("scheme is missing "@ + quoted_text(key)),
    }
}

/// The names of the sixteen ANSI colors in a Windows Terminal scheme.
pub open spec fn wt_keys() -> Seq<Seq<char>> {
    seq![
        "black"@, "red"@, "green"@, "yellow"@, "blue"@, "purple"@, "cyan"@, "white"@,
        "brightBlack"@, "brightRed"@, "brightGreen"@, "brightYellow"@, "brightBlue"@,
        "brightPurple"@, "brightCyan"@, "brightWhite"@,
    ]
}

/// The colors of `keys`, in order, or why the first that fails does.
pub open spec fn picks_of(m: Seq<(Seq<char>, Option<Seq<char>>)>, keys: Seq<Seq<char>>) -> Result<Seq<Seq<char>>, Seq<char>>
    decreases keys.len(),
{
    if keys.len() == 0 {
        Ok(Seq::empty())
    } else {
        match picks_of(m, keys.drop_last()) {
            Err(e) => Err(e),
            Ok(v) => match pick_of(m, keys.last()) {
                Err(e) => Err(e),
                Ok(c) => Ok(v.push(c)),
            },
        }
    }
}

/// The theme of one Windows Terminal scheme: its text and background, its
/// sixteen colors, its cursor where it names a good one, the title bar and
/// frame from black and bright black, and the buttons from red, yellow and
/// green.
pub open spec fn scheme_theme(m: Seq<(Seq<char>, Option<Seq<char>>)>) -> Result<ThemeView, Seq<char>> {
    match pick_of(m, "foreground"@) {
        Err(e) => Err(e),
        Ok(fg) => match pick_of(m, "background"@) {
            Err(e) => Err(e),
            Ok(bg) => match picks_of(m, wt_keys()) {
                Err(e) => Err(e),
                Ok(ansi) => {
                    let name = match member_text(m, "name"@) {
                        Some(n) => n,
                        None => "imported"@,
                    };
                    let cursor = match member_text(m, "cursorColor"@) {
                        Some(raw) => match hex_of(raw) {
                            Ok(c) => Some(c),
                            Err(_) => None,
                        },
                        None => None,
                    };
                    Ok(
                        ThemeView {
                            name: slug_text(name),
                            dark: PaletteView {
                                fg,
                                bg,
                                cursor,
                                chrome: Some(ansi[0]),
                                border: Some(ansi[8]),
                                buttons: Some(seq![ansi[1], ansi[3], ansi[2]]),
                                ansi,
                            },
                            light: None,
                        },
                    )
                },
            },
        },
    }
}

/// The themes of a list of schemes, in order, or why the first that fails
/// does.
pub open spec fn schemes_themes(list: Seq<Seq<(Seq<char>, Option<Seq<char>>)>>) -> Result<Seq<ThemeView>, Seq<char>>
    decreases list.len(),
{
    if list.len() == 0 {
        Ok(Seq::empty())
    } else {
        match schemes_themes(list.drop_last()) {
            Err(e) => Err(e),
            Ok(v) => match scheme_theme(list.last()) {
                Err(e) => Err(e),
                Ok(t) => Ok(v.push(t)),
            },
        }
    }
}

/// The schemes of a Windows Terminal file: its `schemes` list, or the file
/// itself as one scheme.
pub open spec fn schemes_of(top: Seq<(Seq<char>, FieldView)>) -> Seq<Seq<(Seq<char>, Option<Seq<char>>)>> {
    let as_scheme = top.map_values(|p: (Seq<char>, FieldView)|
        (
            p.0,
            match p.1 {
                FieldView::Text(t) => Some(t),
                _ => None,
            },
        ));
    if exists|i: int| 0 <= i < top.len() && (#[trigger] top[i]).0 == "schemes"@ {
        let k = choose|i: int| 0 <= i < top.len() && (#[trigger] top[i]).0 == "schemes"@ && forall|j: int| 0 <= j < i ==> (#[trigger] top[j]).0 != "schemes"@;
        match top[k].1 {
            FieldView::List(l) => l,
            _ => seq![as_scheme],
        }
    } else {
        seq![as_scheme]
    }
}

/// The themes of a Windows Terminal settings file or of one scheme of it.
pub open spec fn windows_terminal_themes(src: Seq<char>) -> Result<Seq<ThemeView>, Seq<char>> {
    match json_fields(src) {
        Err(e) => Err("parsing the windows terminal json: "@ + e),
        Ok(top) => match schemes_themes(schemes_of(top)) {
            Err(e) => Err(e),
            Ok(v) => if v.len() == 0 {
                Err("no color schemes in that file"@)
            } else {
                Ok(v)
            },
        },
    }
}

fn same_text(a: &str, b: &str) -> (r: bool)
    ensures
        r == (a@ == b@),
{
    let v = chars_of(a);
    same_chars(v.as_slice(), b)
}

fn member(m: &Vec<(String, Option<String>)>, key: &str) -> (r: Option<String>)
    ensures
        match member_text(members_view(m@), key@) {
            Some(t) => r matches Some(x) && x@ == t,
            None => r is None,
        },
{
    proof {
        reveal(member_text);
    }
    let ghost mv = members_view(m@);
    let mut i: usize = 0;
    while i < m.len()
        invariant
            i <= m.len(),
            mv == members_view(m@),
            forall|j: int| 0 <= j < i ==> (#[trigger] mv[j]).0 != key@,
        decreases m.len() - i,
    {
        assert(mv[i as int].0 == m@[i as int].0@);
        if same_text(m[i].0.as_str(), key) {
            proof {
                reveal(member_text);
                let k = choose|k: int| 0 <= k < mv.len() && (#[trigger] mv[k]).0 == key@ && forall|j: int| 0 <= j < k ==> (#[trigger] mv[j]).0 != key@;
                assert(mv[i as int].0 == key@);
                assert(0 <= k < mv.len() && mv[k].0 == key@ && forall|j: int| 0 <= j < k ==> (#[trigger] mv[j]).0 != key@);
                if k < i {
                    assert(mv[k].0 != key@);
                }
                if k > i {
                    assert(mv[i as int].0 != key@);
                }
            }
            return match &m[i].1 {
                Some(t) => Some(t.clone()),
                None => None,
            };
        }
        i = i + 1;
    }
    proof {
        reveal(member_text);
    }
    None
}

fn pick(m: &Vec<(String, Option<String>)>, key: &str) -> (r: Result<String, String>)
    ensures
        match pick_of(members_view(m@), key@) {
            Ok(c) => r matches Ok(x) && x@ == c,
            Err(e) => r matches Err(x) && x@ == e,
        },
{
    proof {
        reveal(pick_of);
    }
    match member(m, key) {
        Some(raw) => hex(raw.as_str()),
        None => {
            let mut e = String::new();
            push_str(&mut e, "scheme is missing ");
            let q = crate::tape::write::quoted(key);
            push_str(&mut e, q.as_str());
            Err(e)
        },
    }
}

fn wt_key_list() -> (v: Vec<String>)
    ensures
        strings_view(v@) == wt_keys(),
{
    let mut v: Vec<String> = Vec::new();
    v.push("black".to_owned());
    v.push("red".to_owned());
    v.push("green".to_owned());
    v.push("yellow".to_owned());
    v.push("blue".to_owned());
    v.push("purple".to_owned());
    v.push("cyan".to_owned());
    v.push("white".to_owned());
    v.push("brightBlack".to_owned());
    v.push("brightRed".to_owned());
    v.push("brightGreen".to_owned());
    v.push("brightYellow".to_owned());
    v.push("brightBlue".to_owned());
    v.push("brightPurple".to_owned());
    v.push("brightCyan".to_owned());
    v.push("brightWhite".to_owned());
    assert(strings_view(v@) == wt_keys());
    v
}

proof fn lemma_picks_err(m: Seq<(Seq<char>, Option<Seq<char>>)>, keys: Seq<Seq<char>>, k: int, e: Seq<char>)
    requires
        0 <= k <= keys.len(),
        picks_of(m, keys.take(k)) == Err::<Seq<Seq<char>>, Seq<char>>(e),
    ensures
        picks_of(m, keys) == Err::<Seq<Seq<char>>, Seq<char>>(e),
    decreases keys.len() - k,
{
    if k < keys.len() {
        assert(keys.take(k + 1).drop_last() == keys.take(k));
        lemma_picks_err(m, keys, k + 1, e);
    } else {
        assert(keys.take(k) == keys);
    }
}

proof fn lemma_picks_len(m: Seq<(Seq<char>, Option<Seq<char>>)>, keys: Seq<Seq<char>>)
    requires
        picks_of(m, keys) is Ok,
    ensures
        picks_of(m, keys)->Ok_0.len() == keys.len(),
    decreases keys.len(),
{
    if keys.len() > 0 {
        lemma_picks_len(m, keys.drop_last());
    }
}

fn picks(m: &Vec<(String, Option<String>)>) -> (r: Result<Vec<String>, String>)
    ensures
        match picks_of(members_view(m@), wt_keys()) {
            Ok(v) => r matches Ok(x) && strings_view(x@) == v,
            Err(e) => r matches Err(x) && x@ == e,
        },
{
    let keys = wt_key_list();
    let ghost ks = strings_view(keys@);
    let ghost mv = members_view(m@);
    let mut out: Vec<String> = Vec::new();
    let mut i: usize = 0;
    assert(ks.take(0) =~= Seq::<Seq<char>>::empty());
    assert(strings_view(out@) =~= Seq::<Seq<char>>::empty());
    while i < keys.len()
        invariant
            i <= keys.len(),
            ks == strings_view(keys@),
            ks == wt_keys(),
            mv == members_view(m@),
            picks_of(mv, ks.take(i as int)) == Ok::<Seq<Seq<char>>, Seq<char>>(strings_view(out@)),
        decreases keys.len() - i,
    {
        assert(ks.take(i + 1).drop_last() == ks.take(i as int));
        assert(ks[i as int] == keys@[i as int]@);
        match pick(m, keys[i].as_str()) {
            Ok(c) => {
                let ghost before = out@;
                out.push(c);
                assert(strings_view(out@) =~= strings_view(before).push(c@));
            },
            Err(e) => {
                proof {
                    lemma_picks_err(mv, ks, i + 1, e@);
                }
                return Err(e);
            },
        }
        i = i + 1;
    }
    assert(ks.take(keys.len() as int) == ks);
    Ok(out)
}

/// The theme of one Windows Terminal scheme, as [`scheme_theme`] says.
pub fn one_windows_terminal(m: &Vec<(String, Option<String>)>) -> (r: Result<Theme, String>)
    ensures
        match scheme_theme(members_view(m@)) {
            Ok(t) => r matches Ok(x) && x@ == t,
            Err(e) => r matches Err(x) && x@ == e,
        },
{
    proof {
        reveal_strlit("imported");
    }
    let fg = pick(m, "foreground")?;
    let bg = pick(m, "background")?;
    let ansi = picks(m)?;
    let name = match member(m, "name") {
        Some(n) => n,
        None => "imported".to_owned(),
    };
    let cursor = match member(m, "cursorColor") {
        Some(raw) => match hex(raw.as_str()) {
            Ok(c) => Some(c),
            Err(_) => None,
        },
        None => None,
    };
    proof {
        lemma_picks_len(members_view(m@), wt_keys());
    }
    assert(strings_view(ansi@).len() == 16);
    let mut buttons: Vec<String> = Vec::new();
    buttons.push(ansi[1].clone());
    buttons.push(ansi[3].clone());
    buttons.push(ansi[2].clone());
    let palette = Palette {
        fg,
        bg,
        cursor,
        chrome: Some(ansi[0].clone()),
        border: Some(ansi[8].clone()),
        buttons: Some(buttons),
        ansi,
    };
    let t = Theme { name: slug(name.as_str()), dark: palette, light: None };
    proof {
        let a = strings_view(palette.ansi@);
        assert(a[0] == palette.ansi@[0]@);
        assert(a[1] == palette.ansi@[1]@);
        assert(a[2] == palette.ansi@[2]@);
        assert(a[3] == palette.ansi@[3]@);
        assert(a[8] == palette.ansi@[8]@);
        assert(t@.dark.buttons->0 =~= seq![a[1], a[3], a[2]]);
    }
    Ok(t)
}

fn copy_members(m: &Vec<(String, Option<String>)>) -> (out: Vec<(String, Option<String>)>)
    ensures
        members_view(out@) == members_view(m@),
{
    let mut out: Vec<(String, Option<String>)> = Vec::new();
    let mut i: usize = 0;
    while i < m.len()
        invariant
            i <= m.len(),
            members_view(out@) == members_view(m@).take(i as int),
        decreases m.len() - i,
    {
        let k = m[i].0.clone();
        let v = match &m[i].1 {
            Some(t) => Some(t.clone()),
            None => None,
        };
        let ghost before = out@;
        out.push((k, v));
        assert(members_view(out@) =~= members_view(before).push(members_view(m@)[i as int]));
        i = i + 1;
    }
    assert(members_view(m@).take(m.len() as int) =~= members_view(m@));
    out
}

pub open spec fn lists_view(l: Seq<Vec<(String, Option<String>)>>) -> Seq<Seq<(Seq<char>, Option<Seq<char>>)>> {
    l.map_values(|m: Vec<(String, Option<String>)>| members_view(m@))
}

fn find_field(top: &Vec<(String, Field)>, key: &str) -> (r: Option<usize>)
    ensures
        match r {
            Some(i) => i < top@.len() && fields_view(top@)[i as int].0 == key@ && forall|j: int|
                0 <= j < i ==> (#[trigger] fields_view(top@)[j]).0 != key@,
            None => forall|j: int| 0 <= j < top@.len() ==> (#[trigger] fields_view(top@)[j]).0 != key@,
        },
{
    let ghost tv = fields_view(top@);
    let mut i: usize = 0;
    while i < top.len()
        invariant
            i <= top.len(),
            tv == fields_view(top@),
            forall|j: int| 0 <= j < i ==> (#[trigger] tv[j]).0 != key@,
        decreases top.len() - i,
    {
        assert(tv[i as int].0 == top@[i as int].0@);
        if same_text(top[i].0.as_str(), key) {
            return Some(i);
        }
        i = i + 1;
    }
    None
}

fn copy_lists(l: &Vec<Vec<(String, Option<String>)>>) -> (out: Vec<Vec<(String, Option<String>)>>)
    ensures
        lists_view(out@) == lists_view(l@),
{
    let mut out: Vec<Vec<(String, Option<String>)>> = Vec::new();
    let mut k: usize = 0;
    while k < l.len()
        invariant
            k <= l.len(),
            lists_view(out@) == lists_view(l@).take(k as int),
        decreases l.len() - k,
    {
        let c = copy_members(&l[k]);
        let ghost before = out@;
        out.push(c);
        assert(lists_view(out@) =~= lists_view(before).push(lists_view(l@)[k as int]));
        k = k + 1;
    }
    assert(lists_view(l@).take(l.len() as int) =~= lists_view(l@));
    out
}

fn as_one_scheme(top: &Vec<(String, Field)>) -> (out: Vec<Vec<(String, Option<String>)>>)
    ensures
        lists_view(out@) == seq![
            fields_view(top@).map_values(|p: (Seq<char>, FieldView)|
                (
                    p.0,
                    match p.1 {
                        FieldView::Text(t) => Some(t),
                        _ => None,
                    },
                )),
        ],
{
    let ghost tv = fields_view(top@);
    let ghost want = tv.map_values(|p: (Seq<char>, FieldView)|
        (
            p.0,
            match p.1 {
                FieldView::Text(t) => Some(t),
                _ => None,
            },
        ));
    let mut one: Vec<(String, Option<String>)> = Vec::new();
    let mut k: usize = 0;
    while k < top.len()
        invariant
            k <= top.len(),
            tv == fields_view(top@),
            want == tv.map_values(|p: (Seq<char>, FieldView)|
                (
                    p.0,
                    match p.1 {
                        FieldView::Text(t) => Some(t),
                        _ => None,
                    },
                )),
            members_view(one@) == want.take(k as int),
        decreases top.len() - k,
    {
        let name = top[k].0.clone();
        let text = match &top[k].1 {
            Field::Text(t) => Some(t.clone()),
            _ => None,
        };
        let ghost before = one@;
        one.push((name, text));
        assert(members_view(one@) =~= members_view(before).push(want[k as int]));
        k = k + 1;
    }
    assert(want.take(top.len() as int) =~= want);
    let mut out: Vec<Vec<(String, Option<String>)>> = Vec::new();
    out.push(one);
    assert(lists_view(out@) =~= seq![want]);
    out
}

fn schemes_in(top: &Vec<(String, Field)>) -> (out: Vec<Vec<(String, Option<String>)>>)
    ensures
        lists_view(out@) == schemes_of(fields_view(top@)),
{
    let ghost tv = fields_view(top@);
    proof {
        reveal_strlit("schemes");
    }
    match find_field(top, "schemes") {
        Some(i) => {
            proof {
                let c = choose|c: int| 0 <= c < tv.len() && (#[trigger] tv[c]).0 == "schemes"@ && forall|j: int| 0 <= j < c ==> (#[trigger] tv[j]).0 != "schemes"@;
                assert(tv[i as int].0 == "schemes"@);
                assert(0 <= c < tv.len() && tv[c].0 == "schemes"@ && forall|j: int| 0 <= j < c ==> (#[trigger] tv[j]).0 != "schemes"@);
                if c < i {
                    assert(tv[c].0 != "schemes"@);
                }
                if c > i {
                    assert(tv[i as int].0 != "schemes"@);
                }
            }
            match &top[i].1 {
                Field::List(l) => copy_lists(l),
                _ => as_one_scheme(top),
            }
        },
        None => as_one_scheme(top),
    }
}

pub open spec fn themes_view(v: Seq<Theme>) -> Seq<ThemeView> {
    v.map_values(|t: Theme| t@)
}

proof fn lemma_schemes_err(l: Seq<Seq<(Seq<char>, Option<Seq<char>>)>>, k: int, e: Seq<char>)
    requires
        0 <= k <= l.len(),
        schemes_themes(l.take(k)) == Err::<Seq<ThemeView>, Seq<char>>(e),
    ensures
        schemes_themes(l) == Err::<Seq<ThemeView>, Seq<char>>(e),
    decreases l.len() - k,
{
    if k < l.len() {
        assert(l.take(k + 1).drop_last() == l.take(k));
        lemma_schemes_err(l, k + 1, e);
    } else {
        assert(l.take(k) == l);
    }
}

/// Reads a Windows Terminal settings file, or one scheme of it, as
/// [`windows_terminal_themes`] says.
pub fn windows_terminal(src: &str) -> (r: Result<Vec<Theme>, String>)
    ensures
        match windows_terminal_themes(src@) {
            Ok(v) => r matches Ok(x) && themes_view(x@) == v,
            Err(e) => r matches Err(x) && x@ == e,
        },
{
    let top = match parse_json(src) {
        Ok(t) => t,
        Err(e) => {
            let mut m = String::new();
            push_str(&mut m, "parsing the windows terminal json: ");
            push_str(&mut m, e.as_str());
            return Err(m);
        },
    };
    let list = schemes_in(&top);
    let ghost lv = lists_view(list@);
    let mut out: Vec<Theme> = Vec::new();
    let mut i: usize = 0;
    assert(lv.take(0) =~= Seq::<Seq<(Seq<char>, Option<Seq<char>>)>>::empty());
    assert(themes_view(out@) =~= Seq::<ThemeView>::empty());
    while i < list.len()
        invariant
            i <= list.len(),
            lv == lists_view(list@),
            lv == schemes_of(fields_view(top@)),
            json_fields(src@) == Ok::<Seq<(Seq<char>, FieldView)>, Seq<char>>(fields_view(top@)),
            schemes_themes(lv.take(i as int)) == Ok::<Seq<ThemeView>, Seq<char>>(themes_view(out@)),
        decreases list.len() - i,
    {
        assert(lv.take(i + 1).drop_last() == lv.take(i as int));
        assert(lv[i as int] == members_view(list@[i as int]@));
        match one_windows_terminal(&list[i]) {
            Ok(t) => {
                let ghost before = out@;
                out.push(t);
                assert(themes_view(out@) =~= themes_view(before).push(t@));
            },
            Err(e) => {
                proof {
                    lemma_schemes_err(lv, i + 1, e@);
                }
                return Err(e);
            },
        }
        i = i + 1;
    }
    assert(lv.take(list.len() as int) == lv);
    if out.len() == 0 {
        return Err("no color schemes in that file".to_owned());
    }
    Ok(out)
}

/// Whether a character may stand in a typeable name.
pub open spec fn name_char(c: char) -> bool {
    ('a' <= c && c <= 'z') || ('0' <= c && c <= '9') || c == '-'
}

/// Whether a text is a typeable name: lowercase letters, digits and single
/// hyphens, with no hyphen at either end.
pub open spec fn typeable(s: Seq<char>) -> bool {
    &&& forall|i: int| 0 <= i < s.len() ==> name_char(#[trigger] s[i])
    &&& forall|i: int| 0 <= i < s.len() - 1 ==> !(#[trigger] s[i] == '-' && s[i + 1] == '-')
    &&& s.len() > 0 ==> s[0] != '-' && s.last() != '-'
}

proof fn lemma_slug_raw(s: Seq<char>)
    ensures
        forall|i: int| 0 <= i < slug_raw(s).len() ==> name_char(#[trigger] slug_raw(s)[i]),
        forall|i: int| 0 <= i < slug_raw(s).len() - 1 ==> !(#[trigger] slug_raw(s)[i] == '-' && slug_raw(s)[i + 1] == '-'),
    decreases s.len(),
{
    if s.len() > 0 {
        lemma_slug_raw(s.drop_last());
        let b = slug_raw(s.drop_last());
        let r = slug_raw(s);
        assert forall|i: int| 0 <= i < r.len() implies name_char(#[trigger] r[i]) by {
            if i < b.len() {
                assert(r[i] == b[i]);
            }
        }
        assert forall|i: int| 0 <= i < r.len() - 1 implies !(#[trigger] r[i] == '-' && r[i + 1] == '-') by {
            if i + 1 < b.len() {
                assert(r[i] == b[i] && r[i + 1] == b[i + 1]);
            }
        }
    }
}

proof fn lemma_strip_start(s: Seq<char>, c: char)
    ensures
        exists|k: int| 0 <= k <= s.len() && strip_start(s, c) == s.subrange(k, s.len() as int),
        strip_start(s, c).len() > 0 ==> strip_start(s, c)[0] != c,
    decreases s.len(),
{
    if s.len() > 0 && s[0] == c {
        lemma_strip_start(s.drop_first(), c);
        let k = choose|k: int| 0 <= k <= s.drop_first().len() && strip_start(s.drop_first(), c) == s.drop_first().subrange(k, s.drop_first().len() as int);
        assert(s.drop_first().subrange(k, s.drop_first().len() as int) == s.subrange(k + 1, s.len() as int));
    } else {
        assert(s.subrange(0, s.len() as int) == s);
    }
}

proof fn lemma_strip_end(s: Seq<char>, c: char)
    ensures
        exists|k: int| 0 <= k <= s.len() && strip_end(s, c) == s.subrange(0, k),
        strip_end(s, c).len() > 0 ==> strip_end(s, c).last() != c,
    decreases s.len(),
{
    if s.len() > 0 && s.last() == c {
        lemma_strip_end(s.drop_last(), c);
        let k = choose|k: int| 0 <= k <= s.drop_last().len() && strip_end(s.drop_last(), c) == s.drop_last().subrange(0, k);
        assert(s.drop_last().subrange(0, k) == s.subrange(0, k));
    } else {
        assert(s.subrange(0, s.len() as int) == s);
    }
}

/// A name made typeable holds only lowercase letters, digits and single
/// hyphens, and starts and ends with neither.
pub proof fn law_slug_typeable(s: Seq<char>)
    ensures
        typeable(slug_text(s)),
{
    lemma_slug_raw(s);
    let r = slug_raw(s);
    lemma_strip_start(r, '-');
    let a = strip_start(r, '-');
    let ka = choose|k: int| 0 <= k <= r.len() && a == r.subrange(k, r.len() as int);
    lemma_strip_end(a, '-');
    let b = strip_end(a, '-');
    let kb = choose|k: int| 0 <= k <= a.len() && b == a.subrange(0, k);
    assert(b == r.subrange(ka, ka + kb));
    assert forall|i: int| 0 <= i < b.len() implies name_char(#[trigger] b[i]) by {
        assert(b[i] == r[ka + i]);
    }
    assert forall|i: int| 0 <= i < b.len() - 1 implies !(#[trigger] b[i] == '-' && b[i + 1] == '-') by {
        assert(b[i] == r[ka + i] && b[i + 1] == r[ka + i + 1]);
    }
    if b.len() > 0 {
        assert(b[0] == a[0]);
    }
}

/// Whether a theme file is a JSON object: its first character that is not
/// whitespace opens one.
pub open spec fn opens_object(src: Seq<char>) -> bool {
    trim_start(src).len() > 0 && trim_start(src)[0] == '{'
}

fn starts_object(src: &str) -> (b: bool)
    ensures
        b == opens_object(src@),
{
    let v = chars_of(src);
    let mut i: usize = 0;
    assert(v@.skip(0) =~= v@);
    while i < v.len() && is_whitespace(v[i])
        invariant
            i <= v.len(),
            v@ == src@,
            trim_start(src@) == trim_start(v@.skip(i as int)),
        decreases v.len() - i,
    {
        assert(v@.skip(i as int).drop_first() =~= v@.skip(i + 1));
        i = i + 1;
    }
    if i < v.len() {
        assert(v@.skip(i as int)[0] == v@[i as int]);
        v[i] == '{'
    } else {
        assert(v@.skip(i as int).len() == 0);
        false
    }
}

/// The themes a theme file describes: the color schemes of a Windows
/// Terminal JSON file where it is a JSON object, one base16 scheme
/// otherwise.
pub fn from_text(src: &str) -> (r: Result<Vec<Theme>, String>)
    requires
        !opens_object(src@) ==> !exists|i: int| 0 <= i < lines_of(src@).len() && line_overflows(
            #[trigger] lines_of(src@)[i],
        ),
    ensures
        opens_object(src@) ==> match windows_terminal_themes(src@) {
            Ok(v) => r matches Ok(x) && themes_view(x@) == v,
            Err(e) => r matches Err(x) && x@ == e,
        },
        !opens_object(src@) ==> match base16_theme(src@) {
            Ok(t) => r matches Ok(x) && themes_view(x@) == seq![t],
            Err(e) => r matches Err(x) && x@ == e,
        },
{
    if starts_object(src) {
        windows_terminal(src)
    } else {
        match base16(src) {
            Ok(t) => {
                let mut v: Vec<Theme> = Vec::new();
                v.push(t);
                assert(themes_view(v@) =~= seq![v@[0]@]);
                Ok(v)
            },
            Err(e) => Err(e),
        }
    }
}

/// A base16 scheme's ANSI colors come from its slots by the base16
/// convention: black base00, red base08, green base0B, yellow base0A, blue
/// base0D, magenta base0E, cyan base0C and white base05, then bright black
/// base03, the bright colors from the same slots again, and bright white
/// base07. The text is base05 on base00.
pub proof fn law_base16_ansi(src: Seq<char>)
    requires
        base16_theme(src) is Ok,
        !exists|i: int| 0 <= i < lines_of(src).len() && line_overflows(#[trigger] lines_of(src)[i]),
    ensures
        ({
            let slot = |i: int| base16_lines(lines_of(src))->Ok_0.slots[i]->0;
            let t = base16_theme(src)->Ok_0;
            &&& t.dark.ansi.len() == 16
            &&& t.dark.ansi[0] == slot(0x00)
            &&& t.dark.ansi[1] == slot(0x08)
            &&& t.dark.ansi[2] == slot(0x0b)
            &&& t.dark.ansi[3] == slot(0x0a)
            &&& t.dark.ansi[4] == slot(0x0d)
            &&& t.dark.ansi[5] == slot(0x0e)
            &&& t.dark.ansi[6] == slot(0x0c)
            &&& t.dark.ansi[7] == slot(0x05)
            &&& t.dark.ansi[8] == slot(0x03)
            &&& t.dark.ansi[9] == slot(0x08)
            &&& t.dark.ansi[10] == slot(0x0b)
            &&& t.dark.ansi[11] == slot(0x0a)
            &&& t.dark.ansi[12] == slot(0x0d)
            &&& t.dark.ansi[13] == slot(0x0e)
            &&& t.dark.ansi[14] == slot(0x0c)
            &&& t.dark.ansi[15] == slot(0x07)
            &&& t.dark.fg == slot(0x05)
            &&& t.dark.bg == slot(0x00)
        }),
{
    lemma_slots_len(lines_of(src));
    let st = base16_lines(lines_of(src))->Ok_0;
    let base = st.slots.map_values(|o: Option<Seq<char>>| o->0);
    let t = base16_theme(src)->Ok_0;
    let a = base16_ansi();
    assert(t.dark.ansi == a.map_values(|i: int| base[i]));
    assert(t.dark.ansi.len() == 16);
    assert forall|k: int| 0 <= k < 16 implies #[trigger] t.dark.ansi[k] == st.slots[a[k]]->0 by {
        assert(0 <= a[k] < 16);
    }
    assert(t.dark.ansi[5] == st.slots[0x0e]->0);
    assert(t.dark.ansi[6] == st.slots[0x0c]->0);
}

/// Reading a scheme keeps its sixteen slots.
proof fn lemma_slots_len(lines: Seq<Seq<char>>)
    requires
        !exists|i: int| 0 <= i < lines.len() && line_overflows(#[trigger] lines[i]),
    ensures
        base16_lines(lines) matches Ok(st) ==> st.slots.len() == 16,
    decreases lines.len(),
{
    if lines.len() > 0 {
        assert forall|i: int| 0 <= i < lines.drop_last().len() implies !line_overflows(
            #[trigger] lines.drop_last()[i],
        ) by {
            assert(lines.drop_last()[i] == lines[i]);
        }
        lemma_slots_len(lines.drop_last());
        assert(!line_overflows(lines[lines.len() - 1]));
    }
}

} // verus!
