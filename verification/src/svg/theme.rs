use vstd::prelude::*;

use crate::chars::{
    is_ws, trim_end, trim_start,
    chars_of, find_char, first_at, has_char, lower_all, lower_chars, push_char, push_str, push_uint,
    same_chars, slice_of, string_of, trim, trimmed, uint_text,
};
use crate::tape::strings_view;
use crate::tape::write::{quoted, quoted_text};
use crate::term::frame::Color;

verus! {

broadcast use vstd::string::group_string_axioms;

/// The traffic-light colors of the window buttons when a palette names none.
pub open spec fn default_buttons() -> Seq<Seq<char>> {
    seq!["#ff5f57"@, "#febc2e"@, "#28c840"@]
}

/// The default window button colors, close, minimise and zoom.
pub fn builtin_buttons() -> (v: Vec<String>)
    ensures
        strings_view(v@) == default_buttons(),
{
    let mut v: Vec<String> = Vec::new();
    v.push("#ff5f57".to_owned());
    v.push("#febc2e".to_owned());
    v.push("#28c840".to_owned());
    assert(strings_view(v@) == default_buttons());
    v
}

/// The colors of one variant of a theme, each as `#rrggbb`.
#[derive(Clone, Debug)]
pub struct Palette {
    pub fg: String,
    pub bg: String,
    pub cursor: Option<String>,
    pub chrome: Option<String>,
    pub border: Option<String>,
    pub buttons: Option<Vec<String>>,
    pub ansi: Vec<String>,
}

pub struct PaletteView {
    pub fg: Seq<char>,
    pub bg: Seq<char>,
    pub cursor: Option<Seq<char>>,
    pub chrome: Option<Seq<char>>,
    pub border: Option<Seq<char>>,
    pub buttons: Option<Seq<Seq<char>>>,
    pub ansi: Seq<Seq<char>>,
}

pub open spec fn text_view(o: Option<String>) -> Option<Seq<char>> {
    match o {
        Some(s) => Some(s@),
        None => None,
    }
}

impl View for Palette {
    type V = PaletteView;

    open spec fn view(&self) -> PaletteView {
        PaletteView {
            fg: self.fg@,
            bg: self.bg@,
            cursor: text_view(self.cursor),
            chrome: text_view(self.chrome),
            border: text_view(self.border),
            buttons: match self.buttons {
                Some(v) => Some(strings_view(v@)),
                None => None,
            },
            ansi: strings_view(self.ansi@),
        }
    }
}

/// The buttons a palette draws: its own three, or the defaults.
pub open spec fn buttons_of(p: PaletteView) -> Seq<Seq<char>> {
    match p.buttons {
        Some(v) => if v.len() == 3 {
            v
        } else {
            default_buttons()
        },
        None => default_buttons(),
    }
}

fn copy_strings(v: &Vec<String>) -> (out: Vec<String>)
    ensures
        strings_view(out@) == strings_view(v@),
{
    let mut out: Vec<String> = Vec::new();
    let mut i: usize = 0;
    while i < v.len()
        invariant
            i <= v.len(),
            strings_view(out@) == strings_view(v@.take(i as int)),
        decreases v.len() - i,
    {
        out.push(v[i].clone());
        assert(strings_view(v@.take(i + 1)) == strings_view(v@.take(i as int)).push(v@[i as int]@));
        i = i + 1;
    }
    assert(v@.take(v.len() as int) == v@);
    out
}

impl Palette {
    /// The cursor color, falling back to the text color.
    pub fn cursor(&self) -> (c: &str)
        ensures
            c@ == match self@.cursor {
                Some(c) => c,
                None => self@.fg,
            },
    {
        match &self.cursor {
            Some(c) => c.as_str(),
            None => self.fg.as_str(),
        }
    }

    /// The title bar color, falling back to the background.
    pub fn chrome(&self) -> (c: &str)
        ensures
            c@ == match self@.chrome {
                Some(c) => c,
                None => self@.bg,
            },
    {
        match &self.chrome {
            Some(c) => c.as_str(),
            None => self.bg.as_str(),
        }
    }

    /// The frame color, falling back to the background.
    pub fn border(&self) -> (c: &str)
        ensures
            c@ == match self@.border {
                Some(c) => c,
                None => self@.bg,
            },
    {
        match &self.border {
            Some(c) => c.as_str(),
            None => self.bg.as_str(),
        }
    }

    /// The three window button colors: the palette's own when it names
    /// exactly three, the defaults otherwise.
    pub fn buttons(&self) -> (v: Vec<String>)
        ensures
            strings_view(v@) == buttons_of(self@),
    {
        match &self.buttons {
            Some(v) => {
                if v.len() == 3 {
                    copy_strings(v)
                } else {
                    builtin_buttons()
                }
            },
            None => builtin_buttons(),
        }
    }
}

/// A named color scheme: a dark palette and, optionally, a light one.
#[derive(Clone, Debug)]
pub struct Theme {
    pub name: String,
    pub dark: Palette,
    pub light: Option<Palette>,
}

pub struct ThemeView {
    pub name: Seq<char>,
    pub dark: PaletteView,
    pub light: Option<PaletteView>,
}

impl View for Theme {
    type V = ThemeView;

    open spec fn view(&self) -> ThemeView {
        ThemeView {
            name: self.name@,
            dark: self.dark@,
            light: match self.light {
                Some(p) => Some(p@),
                None => None,
            },
        }
    }
}

/// The palette used for a light background: the light one, or the dark one
/// where there is none.
pub open spec fn light_of(t: ThemeView) -> PaletteView {
    match t.light {
        Some(p) => p,
        None => t.dark,
    }
}

/// The theme's palettes, dark first.
pub open spec fn palettes_of(t: ThemeView) -> Seq<PaletteView> {
    match t.light {
        Some(p) => seq![t.dark, p],
        None => seq![t.dark],
    }
}

impl Theme {
    pub fn light(&self) -> (p: &Palette)
        ensures
            p@ == light_of(self@),
    {
        match &self.light {
            Some(p) => p,
            None => &self.dark,
        }
    }

    pub fn has_light(&self) -> (b: bool)
        ensures
            b == self@.light is Some,
    {
        self.light.is_some()
    }

    pub fn palettes(&self) -> (v: Vec<&Palette>)
        ensures
            v@.map_values(|p: &Palette| p@) == palettes_of(self@),
    {
        let mut v: Vec<&Palette> = Vec::new();
        v.push(&self.dark);
        match &self.light {
            Some(l) => v.push(l),
            None => {},
        }
        assert(v@.map_values(|p: &Palette| p@) == palettes_of(self@));
        v
    }

    /// Whether any palette names its own cursor color.
    pub fn has_cursor(&self) -> (b: bool)
        ensures
            b == exists|i: int|
                0 <= i < palettes_of(self@).len() && (#[trigger] palettes_of(self@)[i]).cursor is Some,
    {
        let r = self.dark.cursor.is_some() || match &self.light {
            Some(l) => l.cursor.is_some(),
            None => false,
        };
        proof {
            let ps = palettes_of(self@);
            if r {
                if self.dark.cursor.is_some() {
                    assert(ps[0].cursor is Some);
                } else {
                    assert(ps[1].cursor is Some);
                }
            }
        }
        r
    }

    /// Whether any palette names its own title bar color.
    pub fn has_chrome(&self) -> (b: bool)
        ensures
            b == exists|i: int|
                0 <= i < palettes_of(self@).len() && (#[trigger] palettes_of(self@)[i]).chrome is Some,
    {
        let r = self.dark.chrome.is_some() || match &self.light {
            Some(l) => l.chrome.is_some(),
            None => false,
        };
        proof {
            let ps = palettes_of(self@);
            if r {
                if self.dark.chrome.is_some() {
                    assert(ps[0].chrome is Some);
                } else {
                    assert(ps[1].chrome is Some);
                }
            }
        }
        r
    }

    /// Whether any palette names its own frame color.
    pub fn has_border(&self) -> (b: bool)
        ensures
            b == exists|i: int|
                0 <= i < palettes_of(self@).len() && (#[trigger] palettes_of(self@)[i]).border is Some,
    {
        let r = self.dark.border.is_some() || match &self.light {
            Some(l) => l.border.is_some(),
            None => false,
        };
        proof {
            let ps = palettes_of(self@);
            if r {
                if self.dark.border.is_some() {
                    assert(ps[0].border is Some);
                } else {
                    assert(ps[1].border is Some);
                }
            }
        }
        r
    }

    /// Whether any palette names its own window button colors.
    pub fn has_buttons(&self) -> (b: bool)
        ensures
            b == exists|i: int|
                0 <= i < palettes_of(self@).len() && (#[trigger] palettes_of(self@)[i]).buttons is Some,
    {
        let r = self.dark.buttons.is_some() || match &self.light {
            Some(l) => l.buttons.is_some(),
            None => false,
        };
        proof {
            let ps = palettes_of(self@);
            if r {
                if self.dark.buttons.is_some() {
                    assert(ps[0].buttons is Some);
                } else {
                    assert(ps[1].buttons is Some);
                }
            }
        }
        r
    }
}

/// Whether `c` is an ASCII hexadecimal digit.
pub open spec fn is_hex(c: char) -> bool {
    ('0' <= c && c <= '9') || ('a' <= c && c <= 'f') || ('A' <= c && c <= 'F')
}

/// The value of a hexadecimal digit.
pub open spec fn hex_value(c: char) -> nat {
    if '0' <= c && c <= '9' {
        (c as nat - 48) as nat
    } else if 'a' <= c && c <= 'f' {
        (c as nat - 87) as nat
    } else {
        (c as nat - 55) as nat
    }
}

/// The byte written by the two hexadecimal digits at `i` and `i + 1`.
pub open spec fn hex_byte(s: Seq<char>, i: int) -> u8 {
    (hex_value(s[i]) * 16 + hex_value(s[i + 1])) as u8
}

/// The red, green and blue of a `#rrggbb` color, or nothing for any other text.
pub open spec fn rgb_of(s: Seq<char>) -> Option<(u8, u8, u8)> {
    if s.len() == 7 && s[0] == '#' && forall|i: int| 1 <= i < 7 ==> is_hex(#[trigger] s[i]) {
        Some((hex_byte(s, 1), hex_byte(s, 3), hex_byte(s, 5)))
    } else {
        None
    }
}

pub fn hex_digit_value(c: char) -> (r: Option<u8>)
    ensures
        match r {
            Some(v) => is_hex(c) && v == hex_value(c) && v < 16,
            None => !is_hex(c),
        },
{
    if '0' <= c && c <= '9' {
        Some((c as u32 - 48) as u8)
    } else if 'a' <= c && c <= 'f' {
        Some((c as u32 - 87) as u8)
    } else if 'A' <= c && c <= 'F' {
        Some((c as u32 - 55) as u8)
    } else {
        None
    }
}

/// Reads a `#rrggbb` color, as [`rgb_of`] says.
pub fn rgb(hex: &str) -> (r: Option<(u8, u8, u8)>)
    ensures
        r == rgb_of(hex@),
{
    let s = crate::chars::chars_of(hex);
    if s.len() != 7 || s[0] != '#' {
        return None;
    }
    let mut values: Vec<u8> = Vec::new();
    let mut i: usize = 1;
    while i < 7
        invariant
            1 <= i <= 7,
            s@ == hex@,
            s@.len() == 7,
            values@.len() == i - 1,
            forall|j: int| 1 <= j < i ==> is_hex(#[trigger] s@[j]),
            forall|j: int| 1 <= j < i ==> values@[j - 1] == hex_value(#[trigger] s@[j]),
            forall|j: int| 0 <= j < values@.len() ==> values@[j] < 16,
        decreases 7 - i,
    {
        match hex_digit_value(s[i]) {
            Some(v) => values.push(v),
            None => {
                return None;
            },
        }
        i = i + 1;
    }
    let r = values[0] * 16 + values[1];
    let g = values[2] * 16 + values[3];
    let b = values[4] * 16 + values[5];
    Some((r, g, b))
}

/// A lowercase hexadecimal digit.
pub open spec fn hex_char(d: nat) -> char {
    if d < 10 {
        ((d + 48) as u8) as char
    } else {
        ((d + 87) as u8) as char
    }
}

/// A byte as two lowercase hexadecimal digits.
pub open spec fn hex2(v: u8) -> Seq<char> {
    seq![hex_char(v as nat / 16), hex_char(v as nat % 16)]
}

/// `#rrggbb` for a color.
pub open spec fn hex_color(r: u8, g: u8, b: u8) -> Seq<char> {
    seq!['#'] + hex2(r) + hex2(g) + hex2(b)
}

fn push_hex2(s: &mut String, v: u8)
    ensures
        final(s)@ == old(s)@ + hex2(v),
{
    let hi = v / 16;
    let lo = v % 16;
    let a = if hi < 10 {
        (hi + 48) as char
    } else {
        (hi + 87) as char
    };
    let b = if lo < 10 {
        (lo + 48) as char
    } else {
        (lo + 87) as char
    };
    push_char(s, a);
    push_char(s, b);
}

fn push_hex_color(s: &mut String, r: u8, g: u8, b: u8)
    ensures
        final(s)@ == old(s)@ + hex_color(r, g, b),
{
    push_char(s, '#');
    push_hex2(s, r);
    push_hex2(s, g);
    push_hex2(s, b);
}

/// A level of the 6x6x6 color cube of the 256-color palette.
pub open spec fn cube(v: nat) -> u8 {
    if v == 0 {
        0
    } else {
        (55 + v * 40) as u8
    }
}

/// The color of entry `idx` of the 256-color palette: the color cube and the
/// gray ramp as `#rrggbb`, the first sixteen as the theme's variables.
pub open spec fn xterm_text(idx: u8) -> Seq<char> {
    if 16 <= idx && idx <= 231 {
        let i = (idx - 16) as nat;
        hex_color(cube(i / 36), cube((i % 36) / 6), cube(i % 6))
    } else if idx >= 232 {
        let v = (8 + (idx - 232) * 10) as u8;
        hex_color(v, v, v)
    } else {
        "var(--c"@ + uint_text(idx as nat) + seq![')']
    }
}

fn cube_exec(v: u8) -> (r: u8)
    requires
        v < 6,
    ensures
        r == cube(v as nat),
{
    if v == 0 {
        0
    } else {
        55 + v * 40
    }
}

/// The color of entry `idx` of the 256-color palette, as [`xterm_text`] says.
pub fn xterm256(idx: u8) -> (out: String)
    ensures
        out@ == xterm_text(idx),
{
    let mut out = String::new();
    if 16 <= idx && idx <= 231 {
        let i = idx - 16;
        let r = cube_exec(i / 36);
        let g = cube_exec((i % 36) / 6);
        let b = cube_exec(i % 6);
        push_hex_color(&mut out, r, g, b);
    } else if idx >= 232 {
        let v = 8 + (idx - 232) * 10;
        push_hex_color(&mut out, v, v, v);
    } else {
        push_str(&mut out, "var(--c");
        push_uint(&mut out, idx as u64);
        push_char(&mut out, ')');
    }
    out
}

/// How a cell color is painted: with a literal palette, the palette's own
/// color; without one, the theme's CSS variable for the default and the first
/// sixteen colors. Other palette entries and true colors are always literal.
pub open spec fn paint_text(color: Color, fallback: Seq<char>, literal: Option<PaletteView>) -> Seq<
    char,
> {
    match literal {
        Some(p) => match color {
            Color::Default => if fallback == "bg"@ {
                p.bg
            } else {
                p.fg
            },
            Color::Idx(i) => if (i as nat) < p.ansi.len() {
                p.ansi[i as int]
            } else {
                xterm_text(i)
            },
            Color::Rgb(r, g, b) => hex_color(r, g, b),
        },
        None => match color {
            Color::Default => "var(--"@ + fallback + seq![')'],
            Color::Idx(i) => if i < 16 {
                "var(--c"@ + uint_text(i as nat) + seq![')']
            } else {
                xterm_text(i)
            },
            Color::Rgb(r, g, b) => hex_color(r, g, b),
        },
    }
}

/// Paints a cell color, as [`paint_text`] says.
pub fn paint(color: Color, fallback: &str, literal: Option<&Palette>) -> (out: String)
    ensures
        out@ == paint_text(
            color,
            fallback@,
            match literal {
                Some(p) => Some(p@),
                None => None,
            },
        ),
{
    match literal {
        Some(p) => match color {
            Color::Default => {
                proof {
                    reveal_strlit("bg");
                }
                if crate::chars::same_chars(crate::chars::chars_of(fallback).as_slice(), "bg") {
                    p.bg.clone()
                } else {
                    p.fg.clone()
                }
            },
            Color::Idx(i) => {
                if (i as usize) < p.ansi.len() {
                    p.ansi[i as usize].clone()
                } else {
                    xterm256(i)
                }
            },
            Color::Rgb(r, g, b) => {
                let mut out = String::new();
                push_hex_color(&mut out, r, g, b);
                out
            },
        },
        None => match color {
            Color::Default => {
                let mut out = String::new();
                push_str(&mut out, "var(--");
                push_str(&mut out, fallback);
                push_char(&mut out, ')');
                out
            },
            Color::Idx(i) => {
                if i < 16 {
                    let mut out = String::new();
                    push_str(&mut out, "var(--c");
                    push_uint(&mut out, i as u64);
                    push_char(&mut out, ')');
                    out
                } else {
                    xterm256(i)
                }
            },
            Color::Rgb(r, g, b) => {
                let mut out = String::new();
                push_hex_color(&mut out, r, g, b);
                out
            },
        },
    }
}

/// What is wrong with the colors of one palette, labelled `label`, of the
/// theme named `name`: the first problem found, or nothing.
pub open spec fn palette_problem(name: Seq<char>, label: Seq<char>, p: PaletteView) -> Option<
    Seq<char>,
> {
    let head = "theme "@ + quoted_text(name) + ": "@ + label;
    if p.ansi.len() != 16 {
        Some(head + " palette needs 16 ansi colors, found "@ + uint_text(p.ansi.len()))
    } else {
        let colors = seq![p.fg, p.bg] + p.ansi;
        if exists|i: int| 0 <= i < colors.len() && rgb_of(#[trigger] colors[i]) is None {
            let i = choose|i: int|
                0 <= i < colors.len() && rgb_of(#[trigger] colors[i]) is None && forall|j: int|
                    0 <= j < i ==> rgb_of(#[trigger] colors[j]) is Some;
            Some(head + " palette has "@ + quoted_text(colors[i]) + ", expected #rrggbb"@)
        } else {
            match p.buttons {
                Some(b) => if b.len() != 3 {
                    Some(head + " palette needs 3 buttons, found "@ + uint_text(b.len()))
                } else {
                    None
                },
                None => None,
            }
        }
    }
}

/// What is wrong with a theme: the first problem of its dark palette, then of
/// its light one.
pub open spec fn theme_problem(t: ThemeView) -> Option<Seq<char>> {
    match palette_problem(t.name, "dark"@, t.dark) {
        Some(m) => Some(m),
        None => match t.light {
            Some(l) => palette_problem(t.name, "light"@, l),
            None => None,
        },
    }
}

fn problem_head(s: &mut String, name: &str, label: &str)
    ensures
        final(s)@ == old(s)@ + "theme "@ + quoted_text(name@) + ": "@ + label@,
{
    push_str(s, "theme ");
    let q = quoted(name);
    push_str(s, q.as_str());
    push_str(s, ": ");
    push_str(s, label);
}

fn check_palette(name: &str, label: &str, p: &Palette) -> (r: Result<(), String>)
    ensures
        match palette_problem(name@, label@, p@) {
            Some(m) => r is Err && r->Err_0@ == m,
            None => r is Ok,
        },
{
    let ghost head = "theme "@ + quoted_text(name@) + ": "@ + label@;
    if p.ansi.len() != 16 {
        let mut m = String::new();
        problem_head(&mut m, name, label);
        push_str(&mut m, " palette needs 16 ansi colors, found ");
        push_uint(&mut m, p.ansi.len() as u64);
        return Err(m);
    }
    let ghost colors = seq![p@.fg, p@.bg] + p@.ansi;
    let n = p.ansi.len() + 2;
    let mut i: usize = 0;
    while i < n
        invariant
            n == colors.len(),
            p@.ansi.len() == 16,
            colors == seq![p@.fg, p@.bg] + p@.ansi,
            i <= n,
            forall|j: int| 0 <= j < i ==> rgb_of(#[trigger] colors[j]) is Some,
        decreases n - i,
    {
        let c: &str = if i == 0 {
            p.fg.as_str()
        } else if i == 1 {
            p.bg.as_str()
        } else {
            p.ansi[i - 2].as_str()
        };
        assert(c@ == colors[i as int]);
        if rgb(c).is_none() {
            let mut m = String::new();
            problem_head(&mut m, name, label);
            push_str(&mut m, " palette has ");
            let q = quoted(c);
            push_str(&mut m, q.as_str());
            push_str(&mut m, ", expected #rrggbb");
            proof {
                let k = choose|k: int|
                    0 <= k < colors.len() && rgb_of(#[trigger] colors[k]) is None && forall|j: int|
                        0 <= j < k ==> rgb_of(#[trigger] colors[j]) is Some;
                assert(rgb_of(colors[i as int]) is None);
                if k < i {
                    assert(rgb_of(colors[k]) is Some);
                }
                if k > i {
                    assert(rgb_of(colors[i as int]) is Some);
                }
            }
            return Err(m);
        }
        i = i + 1;
    }
    match &p.buttons {
        Some(b) => {
            if b.len() != 3 {
                let mut m = String::new();
                problem_head(&mut m, name, label);
                push_str(&mut m, " palette needs 3 buttons, found ");
                push_uint(&mut m, b.len() as u64);
                return Err(m);
            }
        },
        None => {},
    }
    Ok(())
}

impl Theme {
    /// Checks that every palette has sixteen ANSI colors, `#rrggbb` colors
    /// throughout, and three buttons where it names any; the error says which
    /// palette and what, as [`theme_problem`] gives it.
    pub fn validate(&self) -> (r: Result<(), String>)
        ensures
            match theme_problem(self@) {
                Some(m) => r is Err && r->Err_0@ == m,
                None => r is Ok,
            },
    {
        check_palette(self.name.as_str(), "dark", &self.dark)?;
        match &self.light {
            Some(l) => check_palette(self.name.as_str(), "light", l),
            None => Ok(()),
        }
    }
}

/// Which slot a part of a theme pair names, and the theme's name: `slot=name`
/// names its slot in any case; a bare name is dark when it comes first and
/// light when it comes second.
pub open spec fn slot_of(part: Seq<char>, first: bool) -> (Seq<char>, Seq<char>) {
    if has_char(part, '=') {
        let e = first_at(part, '=');
        (lower_all(trim(part.take(e))), trim(part.subrange(e + 1, part.len() as int)))
    } else {
        (if first {
            "dark"@
        } else {
            "light"@
        }, part)
    }
}

pub open spec fn is_slot(s: Seq<char>) -> bool {
    s == "dark"@ || s == "light"@
}

/// The dark and the light theme names of a pair such as `nord,github` or
/// `light=github, dark=nord`; nothing unless the text holds exactly one comma
/// and names both slots.
pub open spec fn pair_of(s: Seq<char>) -> Option<(Seq<char>, Seq<char>)> {
    if !has_char(s, ',') {
        None
    } else {
        let k = first_at(s, ',');
        let rest = s.subrange(k + 1, s.len() as int);
        if has_char(rest, ',') {
            None
        } else {
            let (s0, n0) = slot_of(trim(s.take(k)), true);
            let (s1, n1) = slot_of(trim(rest), false);
            if !is_slot(s0) || !is_slot(s1) {
                None
            } else {
                let d = if s1 == "dark"@ {
                    Some(n1)
                } else if s0 == "dark"@ {
                    Some(n0)
                } else {
                    None::<Seq<char>>
                };
                let l = if s1 == "light"@ {
                    Some(n1)
                } else if s0 == "light"@ {
                    Some(n0)
                } else {
                    None::<Seq<char>>
                };
                match (d, l) {
                    (Some(d), Some(l)) => Some((d, l)),
                    _ => None,
                }
            }
        }
    }
}

fn slot_exec(part: &[char], first: bool) -> (r: (Vec<char>, Vec<char>))
    ensures
        (r.0@, r.1@) == slot_of(part@, first),
{
    match find_char(part, '=') {
        Some(e) => {
            let key = slice_of(part, 0, e);
            let key = trimmed(key.as_slice());
            let key = lower_chars(key.as_slice());
            let value = slice_of(part, e + 1, part.len());
            let value = trimmed(value.as_slice());
            assert(part@.take(e as int) == part@.subrange(0, e as int));
            (key, value)
        },
        None => {
            let label = if first {
                chars_of("dark")
            } else {
                chars_of("light")
            };
            (label, slice_of(part, 0, part.len()))
        },
    }
}

fn is_word(v: &Vec<char>, w: &str) -> (b: bool)
    ensures
        b == (v@ == w@),
{
    same_chars(v.as_slice(), w)
}

/// Reads a theme pair, as [`pair_of`] says.
pub fn split_pair(spec: &str) -> (r: Option<(String, String)>)
    ensures
        match pair_of(spec@) {
            Some((d, l)) => match r {
                Some((a, b)) => a@ == d && b@ == l,
                None => false,
            },
            None => r is None,
        },
{
    let s = chars_of(spec);
    let k = match find_char(s.as_slice(), ',') {
        Some(k) => k,
        None => {
            return None;
        },
    };
    let n = s.len();
    let rest = slice_of(s.as_slice(), k + 1, n);
    if find_char(rest.as_slice(), ',').is_some() {
        return None;
    }
    let head = slice_of(s.as_slice(), 0, k);
    assert(s@.take(k as int) == head@);
    let p0 = trimmed(head.as_slice());
    let p1 = trimmed(rest.as_slice());
    let (s0, n0) = slot_exec(p0.as_slice(), true);
    let (s1, n1) = slot_exec(p1.as_slice(), false);
    let d0 = is_word(&s0, "dark");
    let l0 = is_word(&s0, "light");
    let d1 = is_word(&s1, "dark");
    let l1 = is_word(&s1, "light");
    if !(d0 || l0) || !(d1 || l1) {
        return None;
    }
    let dark = if d1 {
        n1.clone()
    } else if d0 {
        n0.clone()
    } else {
        return None;
    };
    let light = if l1 {
        n1
    } else if l0 {
        n0
    } else {
        return None;
    };
    Some((string_of(dark.as_slice()), string_of(light.as_slice())))
}

/// The names of the built-in themes.
pub open spec fn builtin_names() -> Seq<Seq<char>> {
    seq![
        "tokyonight"@,
        "catppuccin"@,
        "catppuccin-mocha"@,
        "catppuccin-macchiato"@,
        "catppuccin-frappe"@,
        "catppuccin-latte"@,
        "gruvbox"@,
        "nord"@,
        "dracula"@,
        "solarized"@,
        "onedark"@,
        "monokai"@,
        "everforest"@,
        "kanagawa"@,
        "rose-pine"@,
        "github"@,
    ]
}

/// A theme whose dark palette comes from `dark` and whose light palette is
/// `light`'s own light one, or its dark one where it has none.
pub open spec fn paired_of(dark: ThemeView, light: ThemeView) -> ThemeView {
    ThemeView {
        name: dark.name + seq![','] + light.name,
        dark: dark.dark,
        light: Some(light_of(light)),
    }
}

impl Theme {
    /// The names of the built-in themes, in the order they are offered.
    pub fn names() -> (v: Vec<String>)
        ensures
            strings_view(v@) == builtin_names(),
    {
        let mut v: Vec<String> = Vec::new();
        v.push("tokyonight".to_owned());
        v.push("catppuccin".to_owned());
        v.push("catppuccin-mocha".to_owned());
        v.push("catppuccin-macchiato".to_owned());
        v.push("catppuccin-frappe".to_owned());
        v.push("catppuccin-latte".to_owned());
        v.push("gruvbox".to_owned());
        v.push("nord".to_owned());
        v.push("dracula".to_owned());
        v.push("solarized".to_owned());
        v.push("onedark".to_owned());
        v.push("monokai".to_owned());
        v.push("everforest".to_owned());
        v.push("kanagawa".to_owned());
        v.push("rose-pine".to_owned());
        v.push("github".to_owned());
        assert(strings_view(v@) == builtin_names());
        v
    }

    /// Two themes as one, as [`paired_of`] says.
    pub fn paired(dark: Theme, light: Theme) -> (t: Theme)
        ensures
            t@ == paired_of(dark@, light@),
    {
        let mut name = dark.name;
        push_char(&mut name, ',');
        push_str(&mut name, light.name.as_str());
        let l = match light.light {
            Some(p) => p,
            None => light.dark,
        };
        let t = Theme { name, dark: dark.dark, light: Some(l) };
        assert(t@.name =~= paired_of(dark@, light@).name);
        t
    }
}

/// A theme without a light palette draws a light background with its dark
/// one.
pub proof fn law_light_falls_back(t: ThemeView)
    ensures
        t.light is None ==> light_of(t) == t.dark,
        t.light matches Some(l) ==> light_of(t) == l,
{
}

/// A pair takes its dark palette from the first theme and its light one from
/// the second: the second's own light palette, or its dark one where it has
/// none.
pub proof fn law_pair_palettes(dark: ThemeView, light: ThemeView)
    ensures
        paired_of(dark, light).dark == dark.dark,
        light_of(paired_of(dark, light)) == light_of(light),
        light.light is None ==> light_of(paired_of(dark, light)) == light.dark,
{
}

/// A theme name that can stand in a pair: no comma, no `=`, no whitespace
/// at either end.
pub open spec fn pair_name(a: Seq<char>) -> bool {
    &&& a.len() > 0
    &&& !has_char(a, ',')
    &&& !has_char(a, '=')
    &&& !is_ws(a[0])
    &&& !is_ws(a.last())
}

proof fn lemma_first_comma(a: Seq<char>, s: Seq<char>, c: char)
    requires
        !has_char(a, c),
        s.len() > a.len(),
        s.take(a.len() as int) == a,
        s[a.len() as int] == c,
    ensures
        has_char(s, c),
        first_at(s, c) == a.len(),
{
    let n = a.len() as int;
    assert(0 <= n < s.len() && s[n] == c && forall|j: int| 0 <= j < n ==> s[j] != c) by {
        assert forall|j: int| 0 <= j < n implies s[j] != c by {
            assert(s[j] == a[j]);
        }
    }
    let i = first_at(s, c);
    if i < n {
        assert(s[i] == a[i]);
    }
}

proof fn lemma_lower_word(w: Seq<char>)
    requires
        forall|i: int| 0 <= i < w.len() ==> 'a' <= #[trigger] w[i] <= 'z' || w[i] == '=',
    ensures
        lower_all(w) == w,
{
    assert(lower_all(w) =~= w);
}

proof fn lemma_pair_plain(a: Seq<char>, b: Seq<char>)
    requires
        pair_name(a),
        pair_name(b),
    ensures
        pair_of(a + seq![','] + b) == Some((a, b)),
{
    reveal_strlit("dark");
    reveal_strlit("light");
    assert("dark"@ != "light"@) by {
        assert("dark"@.len() != "light"@.len());
    }
    let s1 = a + seq![','] + b;
    assert(s1.take(a.len() as int) =~= a);
    lemma_first_comma(a, s1, ',');
    assert(s1.subrange(a.len() as int + 1, s1.len() as int) =~= b);
    assert(trim(a) == a);
    assert(trim(b) == b);
}

#[verifier::rlimit(40)]
proof fn lemma_pair_named(a: Seq<char>, b: Seq<char>)
    requires
        pair_name(a),
        pair_name(b),
    ensures
        pair_of("light="@ + b + ",dark="@ + a) == Some((a, b)),
{
    reveal_strlit("light=");
    reveal_strlit(",dark=");
    reveal_strlit("dark=");
    reveal_strlit("dark");
    reveal_strlit("light");
    let dark = "dark"@;
    let light = "light"@;
    assert(dark != light) by {
        assert(dark.len() != light.len());
    }
    let h = "light="@ + b;
    let r = "dark="@ + a;
    assert(",dark="@ =~= seq![','] + "dark="@);
    assert("light="@ + b + ",dark="@ + a =~= h + seq![','] + r);
    let s2 = h + seq![','] + r;
    assert(!has_char(h, ',')) by {
        if has_char(h, ',') {
            let i = choose|i: int| 0 <= i < h.len() && h[i] == ',';
            if i >= 6 {
                assert(h[i] == b[i - 6]);
            }
        }
    }
    assert(s2.take(h.len() as int) =~= h);
    lemma_first_comma(h, s2, ',');
    assert(s2.subrange(h.len() as int + 1, s2.len() as int) =~= r);
    assert(!has_char(r, ',')) by {
        if has_char(r, ',') {
            let i = choose|i: int| 0 <= i < r.len() && r[i] == ',';
            if i >= 5 {
                assert(r[i] == a[i - 5]);
            }
        }
    }
    assert(trim(h) == h) by {
        assert(h[0] == 'l');
        assert(h.last() == b.last());
    }
    assert(trim(r) == r) by {
        assert(r[0] == 'd');
        assert(r.last() == a.last());
    }
    assert(!has_char(light, '=')) by {
        if has_char(light, '=') {
            let i = choose|i: int| 0 <= i < light.len() && light[i] == '=';
        }
    }
    assert(!has_char(dark, '=')) by {
        if has_char(dark, '=') {
            let i = choose|i: int| 0 <= i < dark.len() && dark[i] == '=';
        }
    }
    assert(h.take(5) =~= light);
    lemma_first_comma(light, h, '=');
    assert(r.take(4) =~= dark);
    lemma_first_comma(dark, r, '=');
    assert(trim(light) == light);
    assert(trim(dark) == dark);
    lemma_lower_word(light);
    lemma_lower_word(dark);
    assert(h.subrange(6, h.len() as int) =~= b);
    assert(r.subrange(5, r.len() as int) =~= a);
    assert(slot_of(h, true) == (light, b));
    assert(slot_of(r, false) == (dark, a));
}

/// A pair names its themes the same way written either way round: `a,b`
/// and `light=b,dark=a` both take `a`'s dark palette and `b`'s light one.
pub proof fn law_pair_either_way(a: Seq<char>, b: Seq<char>)
    requires
        pair_name(a),
        pair_name(b),
    ensures
        pair_of(a + seq![','] + b) == Some((a, b)),
        pair_of("light="@ + b + ",dark="@ + a) == Some((a, b)),
{
    lemma_pair_plain(a, b);
    lemma_pair_named(a, b);
}

/// Trimming keeps out any character the text does not hold.
proof fn lemma_trim_keeps_out(s: Seq<char>, c: char)
    requires
        !has_char(s, c),
    ensures
        !has_char(trim_start(s), c),
        !has_char(trim_end(s), c),
        !has_char(trim(s), c),
    decreases s.len(),
{
    if s.len() > 0 {
        assert(!has_char(s.drop_first(), c)) by {
            if has_char(s.drop_first(), c) {
                let i = choose|i: int| 0 <= i < s.drop_first().len() && s.drop_first()[i] == c;
                assert(s[i + 1] == c);
            }
        }
        assert(!has_char(s.drop_last(), c)) by {
            if has_char(s.drop_last(), c) {
                let i = choose|i: int| 0 <= i < s.drop_last().len() && s.drop_last()[i] == c;
                assert(s[i] == c);
            }
        }
        lemma_trim_keeps_out(s.drop_first(), c);
        lemma_trim_keeps_out(s.drop_last(), c);
        lemma_trim_keeps_out_end(trim_start(s), c);
    }
}

proof fn lemma_trim_keeps_out_end(s: Seq<char>, c: char)
    requires
        !has_char(s, c),
    ensures
        !has_char(trim_end(s), c),
    decreases s.len(),
{
    if s.len() > 0 {
        assert(!has_char(s.drop_last(), c)) by {
            if has_char(s.drop_last(), c) {
                let i = choose|i: int| 0 <= i < s.drop_last().len() && s.drop_last()[i] == c;
                assert(s[i] == c);
            }
        }
        lemma_trim_keeps_out_end(s.drop_last(), c);
    }
}

/// Names with whitespace round them pair as their trimmed selves: `a,b`
/// takes `a`'s dark palette and `b`'s light one, spaces aside.
pub proof fn law_pair_spaced(a: Seq<char>, b: Seq<char>)
    requires
        !has_char(a, ','),
        !has_char(a, '='),
        !has_char(b, ','),
        !has_char(b, '='),
    ensures
        pair_of(a + seq![','] + b) == Some((trim(a), trim(b))),
{
    reveal_strlit("dark");
    reveal_strlit("light");
    assert("dark"@ != "light"@) by {
        assert("dark"@.len() != "light"@.len());
    }
    let s1 = a + seq![','] + b;
    assert(s1.take(a.len() as int) =~= a);
    lemma_first_comma(a, s1, ',');
    assert(s1.subrange(a.len() as int + 1, s1.len() as int) =~= b);
    lemma_trim_keeps_out(a, '=');
    lemma_trim_keeps_out(b, '=');
}

pub open spec fn some_ink(y: Seq<char>) -> bool {
    exists|i: int| 0 <= i < y.len() && !is_ws(y[i])
}

/// Trailing whitespace is cut only from the end.
proof fn lemma_trim_end_after(x: Seq<char>, y: Seq<char>)
    requires
        (x.len() > 0 && !is_ws(x.last())) || some_ink(y),
    ensures
        trim_end(x + y) == x + trim_end(y),
    decreases y.len(),
{
    if y.len() == 0 {
        assert(x + y =~= x);
        assert(x + trim_end(y) =~= x);
    } else if is_ws(y.last()) {
        assert((x + y).drop_last() =~= x + y.drop_last());
        if !(x.len() > 0 && !is_ws(x.last())) {
            let i = choose|i: int| 0 <= i < y.len() && !is_ws(y[i]);
            assert(i < y.len() - 1);
            assert(y.drop_last()[i] == y[i]);
        }
        lemma_trim_end_after(x, y.drop_last());
    } else {
        assert((x + y).last() == y.last());
    }
}

/// Whitespace after text that ends in whitespace goes with it.
proof fn lemma_trim_end_blank(x: Seq<char>, y: Seq<char>)
    requires
        !some_ink(y),
    ensures
        trim_end(x + y) == trim_end(x),
    decreases y.len(),
{
    if y.len() == 0 {
        assert(x + y =~= x);
    } else {
        assert(is_ws(y.last())) by {
            if !is_ws(y.last()) {
                assert(!is_ws(y[y.len() - 1]));
            }
        }
        assert((x + y).drop_last() =~= x + y.drop_last());
        assert(!some_ink(y.drop_last())) by {
            if some_ink(y.drop_last()) {
                let i = choose|i: int| 0 <= i < y.drop_last().len() && !is_ws(y.drop_last()[i]);
                assert(y[i] == y.drop_last()[i]);
            }
        }
        lemma_trim_end_blank(x, y.drop_last());
    }
}

proof fn lemma_trim_end_twice(y: Seq<char>)
    ensures
        trim_end(trim_end(y)) == trim_end(y),
    decreases y.len(),
{
    if y.len() > 0 && is_ws(y.last()) {
        lemma_trim_end_twice(y.drop_last());
    }
}

/// Cutting the two ends of a text in either order gives the same.
proof fn lemma_trim_commutes(s: Seq<char>)
    ensures
        trim_start(trim_end(s)) == trim_end(trim_start(s)),
    decreases s.len(),
{
    if s.len() > 0 {
        let s1 = s.drop_first();
        let x = seq![s[0]];
        assert(s =~= x + s1);
        if is_ws(s[0]) {
            lemma_trim_commutes(s1);
            if some_ink(s1) {
                lemma_trim_end_after(x, s1);
                let t = x + trim_end(s1);
                assert(t.drop_first() =~= trim_end(s1));
            } else {
                lemma_trim_end_blank(x, s1);
                lemma_trim_end_blank(Seq::<char>::empty(), s1);
                assert(Seq::<char>::empty() + s1 =~= s1);
                assert(trim_end(x) == trim_end(x.drop_last()));
                assert(x.drop_last() =~= Seq::<char>::empty());
            }
        } else {
            lemma_trim_end_after(x, s1);
            let t = x + trim_end(s1);
            assert(t[0] == s[0]);
        }
    }
}

/// Trimming what has been cut at the end is trimming the whole.
proof fn lemma_trim_of_trim_end(y: Seq<char>)
    ensures
        trim(trim_end(y)) == trim(y),
{
    lemma_trim_commutes(y);
    lemma_trim_end_twice(trim_start(y));
}

/// `light=b,dark=a` pairs as `a,b` does, whitespace round the names aside.
#[verifier::rlimit(60)]
pub proof fn law_pair_named_spaced(a: Seq<char>, b: Seq<char>)
    requires
        !has_char(a, ','),
        !has_char(a, '='),
        !has_char(b, ','),
        !has_char(b, '='),
    ensures
        pair_of("light="@ + b + ",dark="@ + a) == Some((trim(a), trim(b))),
{
    reveal_strlit("light=");
    reveal_strlit(",dark=");
    reveal_strlit("dark=");
    reveal_strlit("dark");
    reveal_strlit("light");
    let dark = "dark"@;
    let light = "light"@;
    assert(dark != light) by {
        assert(dark.len() != light.len());
    }
    let hl = "light="@;
    let dl = "dark="@;
    let h = hl + b;
    let r = dl + a;
    assert(",dark="@ =~= seq![','] + dl);
    assert(hl + b + ",dark="@ + a =~= h + seq![','] + r);
    let s2 = h + seq![','] + r;
    assert(!has_char(h, ',')) by {
        if has_char(h, ',') {
            let i = choose|i: int| 0 <= i < h.len() && h[i] == ',';
            if i >= 6 {
                assert(h[i] == b[i - 6]);
            }
        }
    }
    assert(s2.take(h.len() as int) =~= h);
    lemma_first_comma(h, s2, ',');
    assert(s2.subrange(h.len() as int + 1, s2.len() as int) =~= r);
    assert(!has_char(r, ',')) by {
        if has_char(r, ',') {
            let i = choose|i: int| 0 <= i < r.len() && r[i] == ',';
            if i >= 5 {
                assert(r[i] == a[i - 5]);
            }
        }
    }
    // the two parts, trimmed
    lemma_trim_end_after(hl, b);
    lemma_trim_end_after(dl, a);
    let th = hl + trim_end(b);
    let tr = dl + trim_end(a);
    assert(trim_start(h) == h) by {
        assert(h[0] == 'l');
    }
    assert(trim_start(r) == r) by {
        assert(r[0] == 'd');
    }
    assert(trim(h) == th);
    assert(trim(r) == tr);
    lemma_trim_keeps_out_end(b, '=');
    lemma_trim_keeps_out_end(a, '=');
    assert(!has_char(light, '=')) by {
        if has_char(light, '=') {
            let i = choose|i: int| 0 <= i < light.len() && light[i] == '=';
        }
    }
    assert(!has_char(dark, '=')) by {
        if has_char(dark, '=') {
            let i = choose|i: int| 0 <= i < dark.len() && dark[i] == '=';
        }
    }
    assert(th.take(5) =~= light);
    lemma_first_comma(light, th, '=');
    assert(tr.take(4) =~= dark);
    lemma_first_comma(dark, tr, '=');
    assert(trim(light) == light);
    assert(trim(dark) == dark);
    lemma_lower_word(light);
    lemma_lower_word(dark);
    assert(th.subrange(6, th.len() as int) =~= trim_end(b));
    assert(tr.subrange(5, tr.len() as int) =~= trim_end(a));
    lemma_trim_of_trim_end(a);
    lemma_trim_of_trim_end(b);
    assert(slot_of(th, true) == (light, trim(b)));
    assert(slot_of(tr, false) == (dark, trim(a)));
}

} // verus!
