use vstd::prelude::*;

use crate::chars::{chars_of, push_char, push_str, string_of};
use crate::tape::write::quoted_text;
use crate::tape::{strings_view, Config};
use crate::term::frame::{Frame, FrameView, Row, Run, RunView};

verus! {

broadcast use vstd::string::group_string_axioms;

/// The character that covers each character of a match of a pattern.
pub const MASK: char = '*';

/// Whether the `regex` crate compiles `pattern`.
pub uninterp spec fn regex_accepts(pattern: Seq<char>) -> bool;

/// What the `regex` crate says is wrong with `pattern`.
pub uninterp spec fn regex_error(pattern: Seq<char>) -> Seq<char>;

/// The parts of `text` between the successive matches of `pattern`, as the
/// `regex` crate splits it.
pub uninterp spec fn regex_gaps(pattern: Seq<char>, text: Seq<char>) -> Seq<Seq<char>>;

/// The successive non-overlapping matches of `pattern` in `text`, as the
/// `regex` crate finds them.
pub uninterp spec fn regex_found(pattern: Seq<char>, text: Seq<char>) -> Seq<Seq<char>>;

/// The characters that have a meaning of their own in a regular expression.
pub open spec fn is_meta(c: char) -> bool {
    c == '\\' || c == '.' || c == '+' || c == '*' || c == '?' || c == '(' || c == ')' || c == '|'
        || c == '[' || c == ']' || c == '{' || c == '}' || c == '^' || c == '$' || c == '#' || c
        == '&' || c == '-' || c == '~'
}

/// `text` with a backslash before each meta character, so that it matches
/// itself literally.
pub open spec fn regex_escaped(text: Seq<char>) -> Seq<char>
    decreases text.len(),
{
    if text.len() == 0 {
        Seq::empty()
    } else {
        let c = text.last();
        regex_escaped(text.drop_last()) + if is_meta(c) {
            seq!['\\', c]
        } else {
            seq![c]
        }
    }
}

/// The text that gaps and matches make together: the first gap, then each
/// match followed by the next gap.
pub open spec fn interleave(gaps: Seq<Seq<char>>, found: Seq<Seq<char>>) -> Seq<char>
    decreases found.len(),
{
    if found.len() == 0 {
        if gaps.len() > 0 {
            gaps[0]
        } else {
            Seq::empty()
        }
    } else {
        interleave(gaps.drop_last(), found.drop_last()) + found.last() + gaps.last()
    }
}

/// Compiles `pattern` with `regex::Regex::new`.
///
/// Trusted: whether the `regex` crate accepts a pattern, and the message it
/// gives when it does not, depend on the pattern alone; this names both and
/// says nothing more of them.
#[verifier::external_body]
fn regex_check(pattern: &str) -> (r: Option<String>)
    ensures
        r is None <==> regex_accepts(pattern@),
        r matches Some(m) ==> m@ == regex_error(pattern@),
{
    regex::Regex::new(pattern).err().map(|e| e.to_string())
}

/// The gaps between the matches of `pattern` in `text`, from
/// `regex::Regex::split`.
///
/// Trusted: the pieces are the crate's and are only named here.
#[verifier::external_body]
fn regex_split(pattern: &str, text: &str) -> (gaps: Vec<String>)
    requires
        regex_accepts(pattern@),
    ensures
        strings_view(gaps@) == regex_gaps(pattern@, text@),
{
    let re = regex::Regex::new(pattern).unwrap();
    re.split(text).map(|g| g.to_owned()).collect()
}

/// The matches of `pattern` in `text`, from `regex::Regex::find_iter`.
///
/// Trusted: the matches are the crate's and are only named here. Its
/// documentation gives what is stated of them: the matches come in order and
/// do not overlap, and `split` gives the parts between them, so there is one
/// gap more than there are matches and together they spell out the text.
#[verifier::external_body]
fn regex_find(pattern: &str, text: &str) -> (found: Vec<String>)
    requires
        regex_accepts(pattern@),
    ensures
        strings_view(found@) == regex_found(pattern@, text@),
        regex_gaps(pattern@, text@).len() == found@.len() + 1,
        interleave(regex_gaps(pattern@, text@), strings_view(found@)) == text@,
{
    let re = regex::Regex::new(pattern).unwrap();
    re.find_iter(text).map(|m| m.as_str().to_owned()).collect()
}

/// `text` with its meta characters escaped, from `regex::escape`.
///
/// Trusted: `regex::escape` pushes a backslash before each character for
/// which `regex_syntax::is_meta_character` holds, then the character, which
/// is what [`regex_escaped`] states.
#[verifier::external_body]
fn regex_escape(text: &str) -> (out: String)
    ensures
        out@ == regex_escaped(text@),
{
    regex::escape(text)
}

/// One redaction: a pattern, and what replaces each match of it. Without a
/// replacement a match is masked character for character.
#[derive(Clone, Debug)]
pub struct Rule {
    pattern: String,
    with: Option<String>,
}

pub struct RuleView {
    pub pattern: Seq<char>,
    pub with: Option<Seq<char>>,
}

impl View for Rule {
    type V = RuleView;

    closed spec fn view(&self) -> RuleView {
        RuleView {
            pattern: self.pattern@,
            with: match self.with {
                Some(w) => Some(w@),
                None => None,
            },
        }
    }
}

/// The redactions applied to a recording, in order.
#[derive(Clone, Debug)]
pub struct Rules {
    rules: Vec<Rule>,
}

impl View for Rules {
    type V = Seq<RuleView>;

    closed spec fn view(&self) -> Seq<RuleView> {
        self.rules@.map_values(|r: Rule| r@)
    }
}

/// Whether every rule's pattern compiles.
pub open spec fn rules_wf(rules: Seq<RuleView>) -> bool {
    forall|i: int| 0 <= i < rules.len() ==> regex_accepts(#[trigger] rules[i].pattern)
}

/// What replaces a match: a mask as wide as the match, or the replacement
/// cut to the match's width, so that nothing ever grows.
pub open spec fn replacement(found: Seq<char>, with: Option<Seq<char>>) -> Seq<char> {
    match with {
        None => Seq::new(found.len(), |i: int| MASK),
        Some(w) => if w.len() <= found.len() {
            w
        } else {
            w.take(found.len() as int)
        },
    }
}

pub open spec fn replaced(found: Seq<Seq<char>>, with: Option<Seq<char>>) -> Seq<Seq<char>> {
    found.map_values(|f: Seq<char>| replacement(f, with))
}

/// `text` after one rule.
pub open spec fn apply_rule(r: RuleView, text: Seq<char>) -> Seq<char> {
    interleave(regex_gaps(r.pattern, text), replaced(regex_found(r.pattern, text), r.with))
}

/// `text` after every rule, in order.
pub open spec fn redacted(rules: Seq<RuleView>, text: Seq<char>) -> Seq<char>
    decreases rules.len(),
{
    if rules.len() == 0 {
        text
    } else {
        apply_rule(rules.last(), redacted(rules.drop_last(), text))
    }
}

/// Replacing matches never makes a text longer, and masking keeps its length.
pub proof fn lemma_interleave_len(gaps: Seq<Seq<char>>, found: Seq<Seq<char>>, with: Option<Seq<char>>)
    requires
        gaps.len() == found.len() + 1,
    ensures
        interleave(gaps, replaced(found, with)).len() <= interleave(gaps, found).len(),
        with is None ==> interleave(gaps, replaced(found, with)).len() == interleave(
            gaps,
            found,
        ).len(),
    decreases found.len(),
{
    if found.len() > 0 {
        lemma_interleave_len(gaps.drop_last(), found.drop_last(), with);
        assert(replaced(found, with).drop_last() == replaced(found.drop_last(), with));
    }
}

fn push_replacement(s: &mut String, found: &str, with: &Option<String>)
    ensures
        final(s)@ == old(s)@ + replacement(
            found@,
            match with {
                Some(w) => Some(w@),
                None => None,
            },
        ),
{
    let f = chars_of(found);
    let n = f.len();
    match with {
        None => {
            let mut i: usize = 0;
            while i < n
                invariant
                    i <= n,
                    n == found@.len(),
                    s@ == old(s)@ + Seq::new(i as nat, |k: int| MASK),
                decreases n - i,
            {
                push_char(s, MASK);
                assert(Seq::new((i + 1) as nat, |k: int| MASK) == Seq::new(i as nat, |k: int| MASK).push(
                    MASK,
                ));
                i = i + 1;
            }
        },
        Some(w) => {
            let v = chars_of(w.as_str());
            if v.len() <= n {
                push_str(s, w.as_str());
            } else {
                let mut i: usize = 0;
                while i < n
                    invariant
                        i <= n,
                        n == found@.len(),
                        n < v@.len(),
                        v@ == w@,
                        s@ == old(s)@ + v@.take(i as int),
                    decreases n - i,
                {
                    push_char(s, v[i]);
                    assert(v@.take(i + 1) == v@.take(i as int).push(v@[i as int]));
                    i = i + 1;
                }
            }
        },
    }
}

/// Puts gaps and the replacements of the matches between them back together,
/// as [`interleave`] and [`replacement`] say.
pub fn splice(gaps: &Vec<String>, found: &Vec<String>, with: &Option<String>) -> (out: String)
    requires
        gaps@.len() == found@.len() + 1,
    ensures
        out@ == interleave(
            strings_view(gaps@),
            replaced(
                strings_view(found@),
                match with {
                    Some(w) => Some(w@),
                    None => None,
                },
            ),
        ),
{
    let ghost w = match with {
        Some(w) => Some(w@),
        None => None,
    };
    let ghost g = strings_view(gaps@);
    let ghost f = replaced(strings_view(found@), w);
    let mut out = String::new();
    push_str(&mut out, gaps[0].as_str());
    let mut i: usize = 0;
    while i < found.len()
        invariant
            i <= found.len(),
            gaps@.len() == found@.len() + 1,
            g == strings_view(gaps@),
            f == replaced(strings_view(found@), w),
            w == match with {
                Some(w) => Some(w@),
                None => None::<Seq<char>>,
            },
            out@ == interleave(g.take(i + 1), f.take(i as int)),
        decreases found.len() - i,
    {
        push_replacement(&mut out, found[i].as_str(), with);
        push_str(&mut out, gaps[i + 1].as_str());
        assert(g.take(i + 2).drop_last() == g.take(i + 1));
        assert(f.take(i + 1).drop_last() == f.take(i as int));
        i = i + 1;
    }
    assert(g.take(found.len() + 1) == g);
    assert(f.take(found.len() as int) == f);
    out
}

impl Rule {
    fn apply(&self, text: &str) -> (out: String)
        requires
            regex_accepts(self@.pattern),
        ensures
            out@ == apply_rule(self@, text@),
            out@.len() <= text@.len(),
            self@.with is None ==> out@.len() == text@.len(),
    {
        let gaps = regex_split(self.pattern.as_str(), text);
        let found = regex_find(self.pattern.as_str(), text);
        proof {
            lemma_interleave_len(strings_view(gaps@), strings_view(found@), self@.with);
        }
        splice(&gaps, &found, &self.with)
    }
}

/// Whether every rule masks rather than replaces.
pub open spec fn all_masks(rules: Seq<RuleView>) -> bool {
    forall|i: int| 0 <= i < rules.len() ==> (#[trigger] rules[i]).with is None
}

impl Rules {
    pub open spec fn wf(&self) -> bool {
        rules_wf(self@)
    }

    /// No rules at all.
    pub fn new() -> (r: Rules)
        ensures
            r@ == Seq::<RuleView>::empty(),
            r.wf(),
    {
        Rules { rules: Vec::new() }
    }

    pub fn is_empty(&self) -> (b: bool)
        ensures
            b == (self@.len() == 0),
    {
        self.rules.len() == 0
    }

    /// Adds a rule that masks every match of `pattern`; a pattern the
    /// `regex` crate refuses is reported and adds nothing.
    pub fn pattern(&mut self, pattern: &str) -> (r: Result<(), String>)
        requires
            old(self).wf(),
        ensures
            final(self).wf(),
            regex_accepts(pattern@) ==> r is Ok && final(self)@ == old(self)@.push(
                RuleView { pattern: pattern@, with: None },
            ),
            !regex_accepts(pattern@) ==> r is Err && final(self)@ == old(self)@ && r->Err_0@
                == "bad redact pattern "@ + quoted_text(pattern@) + ": "@ + regex_error(pattern@),
    {
        match regex_check(pattern) {
            None => {
                let rule = Rule { pattern: pattern.to_owned(), with: None };
                self.rules.push(rule);
                assert(self@ == old(self)@.push(rule@));
                Ok(())
            },
            Some(e) => {
                let mut m = String::new();
                push_str(&mut m, "bad redact pattern ");
                let q = crate::tape::write::quoted(pattern);
                push_str(&mut m, q.as_str());
                push_str(&mut m, ": ");
                push_str(&mut m, e.as_str());
                Err(m)
            },
        }
    }

    fn push_literal(&mut self, pattern: String, with: &str)
        requires
            old(self).wf(),
        ensures
            final(self).wf(),
            final(self)@ == if regex_accepts(pattern@) {
                old(self)@.push(RuleView { pattern: pattern@, with: Some(with@) })
            } else {
                old(self)@
            },
    {
        if regex_check(pattern.as_str()).is_none() {
            let rule = Rule { pattern, with: Some(with.to_owned()) };
            self.rules.push(rule);
            assert(self@ == old(self)@.push(rule@));
        }
    }

    /// Replaces `needle`, in any case, with `with` cut to the width of each
    /// match.
    pub fn replace(&mut self, needle: &str, with: &str)
        requires
            old(self).wf(),
        ensures
            final(self).wf(),
            final(self)@ == if regex_accepts(literal_pattern(needle@)) {
                old(self)@.push(RuleView { pattern: literal_pattern(needle@), with: Some(with@) })
            } else {
                old(self)@
            },
    {
        let mut p = String::new();
        push_str(&mut p, "(?i)");
        let e = regex_escape(needle);
        push_str(&mut p, e.as_str());
        self.push_literal(p, with);
    }

    /// Replaces `needle` as a whole word, in any case, with `with` cut to the
    /// width of each match.
    pub fn replace_word(&mut self, needle: &str, with: &str)
        requires
            old(self).wf(),
        ensures
            final(self).wf(),
            final(self)@ == if regex_accepts(word_pattern(needle@)) {
                old(self)@.push(RuleView { pattern: word_pattern(needle@), with: Some(with@) })
            } else {
                old(self)@
            },
    {
        let mut p = String::new();
        push_str(&mut p, "(?i)\\b");
        let e = regex_escape(needle);
        push_str(&mut p, e.as_str());
        push_str(&mut p, "\\b");
        self.push_literal(p, with);
    }

    /// `input` after every rule, in order, as [`redacted`] says. It is never
    /// longer than `input`, and it is as long when every rule masks.
    pub fn text(&self, input: &str) -> (out: String)
        requires
            self.wf(),
        ensures
            out@ == redacted(self@, input@),
            out@.len() <= input@.len(),
            all_masks(self@) ==> out@.len() == input@.len(),
    {
        let ghost rs = self@;
        let mut out = input.to_owned();
        let mut i: usize = 0;
        while i < self.rules.len()
            invariant
                i <= self.rules.len(),
                rs == self@,
                rules_wf(rs),
                out@ == redacted(rs.take(i as int), input@),
                out@.len() <= input@.len(),
                all_masks(rs) ==> out@.len() == input@.len(),
            decreases self.rules.len() - i,
        {
            assert(rs[i as int] == self.rules@[i as int]@);
            assert(regex_accepts(rs[i as int].pattern));
            let next = self.rules[i].apply(out.as_str());
            assert(rs.take(i + 1).drop_last() == rs.take(i as int));
            out = next;
            i = i + 1;
        }
        assert(rs.take(self.rules.len() as int) == rs);
        out
    }

    /// Each of `values` after every rule.
    pub fn strings(&self, values: &[String]) -> (out: Vec<String>)
        requires
            self.wf(),
        ensures
            out@.len() == values@.len(),
            forall|i: int| 0 <= i < values@.len() ==> (#[trigger] out@[i])@ == redacted(self@, values@[i]@),
    {
        let mut out: Vec<String> = Vec::new();
        let mut i: usize = 0;
        while i < values.len()
            invariant
                i <= values.len(),
                self.wf(),
                out@.len() == i,
                forall|j: int| 0 <= j < i ==> (#[trigger] out@[j])@ == redacted(self@, values@[j]@),
            decreases values.len() - i,
        {
            out.push(self.text(values[i].as_str()));
            i = i + 1;
        }
        out
    }
}

/// The pattern of a literal replacement: the escaped text, in any case.
pub open spec fn literal_pattern(needle: Seq<char>) -> Seq<char> {
    "(?i)"@ + regex_escaped(needle)
}

/// The pattern of a whole-word replacement.
pub open spec fn word_pattern(needle: Seq<char>) -> Seq<char> {
    "(?i)\\b"@ + regex_escaped(needle) + "\\b"@
}

impl Default for Rules {
    fn default() -> (r: Rules)
        ensures
            r@ == Seq::<RuleView>::empty(),
            r.wf(),
    {
        Rules::new()
    }
}

/// The values of the environment variables that name the person and the
/// machine a recording was made by, where they are set.
#[derive(Clone, Debug)]
pub struct Environment {
    pub userprofile: Option<String>,
    pub home: Option<String>,
    pub username: Option<String>,
    pub user: Option<String>,
    pub computername: Option<String>,
    pub hostname: Option<String>,
}

pub open spec fn opt_text(o: Option<String>) -> Option<Seq<char>> {
    match o {
        Some(s) => Some(s@),
        None => None,
    }
}

/// `s` with every backslash turned into a slash.
pub open spec fn slashed(s: Seq<char>) -> Seq<char> {
    s.map_values(|c: char|
        if c == '\\' {
            '/'
        } else {
            c
        })
}

/// `rules` followed by a rule, where its pattern compiles.
pub open spec fn with_rule(rules: Seq<RuleView>, pattern: Seq<char>, with: Seq<char>) -> Seq<
    RuleView,
> {
    if regex_accepts(pattern) {
        rules.push(RuleView { pattern, with: Some(with) })
    } else {
        rules
    }
}

/// The rules for a home directory: it becomes `~`, written with backslashes
/// and, where that differs, with slashes.
pub open spec fn home_rules(rules: Seq<RuleView>, home: Option<Seq<char>>) -> Seq<RuleView> {
    match home {
        Some(h) => if h.len() == 0 {
            rules
        } else {
            let first = with_rule(rules, literal_pattern(h), "~"@);
            if slashed(h) != h {
                with_rule(first, literal_pattern(slashed(h)), "~"@)
            } else {
                first
            }
        },
        None => rules,
    }
}

/// The rule for a name that stands alone as a word.
pub open spec fn word_rules(rules: Seq<RuleView>, name: Option<Seq<char>>, with: Seq<char>) -> Seq<
    RuleView,
> {
    match name {
        Some(n) => if n.len() == 0 {
            rules
        } else {
            with_rule(rules, word_pattern(n), with)
        },
        None => rules,
    }
}

/// The rules that hide who made a recording and where: the home directory
/// becomes `~`, the user name `user`, the machine name `host`.
pub open spec fn sanitized(rules: Seq<RuleView>, env: Environment) -> Seq<RuleView> {
    let a = home_rules(rules, opt_text(env.userprofile));
    let b = home_rules(a, opt_text(env.home));
    let c = word_rules(b, opt_text(env.username), "user"@);
    let d = word_rules(c, opt_text(env.user), "user"@);
    let e = word_rules(d, opt_text(env.computername), "host"@);
    word_rules(e, opt_text(env.hostname), "host"@)
}

fn slash(s: &str) -> (out: String)
    ensures
        out@ == slashed(s@),
{
    let v = chars_of(s);
    let mut out = String::new();
    let mut i: usize = 0;
    while i < v.len()
        invariant
            i <= v.len(),
            v@ == s@,
            out@ == slashed(v@.take(i as int)),
        decreases v.len() - i,
    {
        let c = if v[i] == '\\' {
            '/'
        } else {
            v[i]
        };
        push_char(&mut out, c);
        assert(slashed(v@.take(i + 1)) == slashed(v@.take(i as int)).push(c));
        i = i + 1;
    }
    assert(v@.take(v.len() as int) == v@);
    out
}

fn same_text(a: &str, b: &str) -> (r: bool)
    ensures
        r == (a@ == b@),
{
    let v = chars_of(a);
    crate::chars::same_chars(v.as_slice(), b)
}

impl Rules {
    fn home(&mut self, home: &Option<String>)
        requires
            old(self).wf(),
        ensures
            final(self).wf(),
            final(self)@ == home_rules(old(self)@, opt_text(*home)),
    {
        match home {
            Some(h) => {
                if !h.as_str().is_empty() {
                    self.replace(h.as_str(), "~");
                    let s = slash(h.as_str());
                    if !same_text(s.as_str(), h.as_str()) {
                        self.replace(s.as_str(), "~");
                    }
                }
            },
            None => {},
        }
    }

    fn word(&mut self, name: &Option<String>, with: &str)
        requires
            old(self).wf(),
        ensures
            final(self).wf(),
            final(self)@ == word_rules(old(self)@, opt_text(*name), with@),
    {
        match name {
            Some(n) => {
                if !n.as_str().is_empty() {
                    self.replace_word(n.as_str(), with);
                }
            },
            None => {},
        }
    }

    /// Adds the rules that hide who made a recording and where, as
    /// [`sanitized`] says.
    pub fn sanitize(&mut self, env: &Environment)
        requires
            old(self).wf(),
        ensures
            final(self).wf(),
            final(self)@ == sanitized(old(self)@, *env),
    {
        self.home(&env.userprofile);
        self.home(&env.home);
        self.word(&env.username, "user");
        self.word(&env.user, "user");
        self.word(&env.computername, "host");
        self.word(&env.hostname, "host");
    }
}

/// The rules a recording's settings ask for: every `redact` pattern, in
/// order, then the sanitizing rules where it is on.
pub open spec fn config_rules(patterns: Seq<Seq<char>>, sanitize: bool, env: Environment) -> Seq<
    RuleView,
> {
    let masks = patterns.map_values(|p: Seq<char>| RuleView { pattern: p, with: None });
    if sanitize {
        sanitized(masks, env)
    } else {
        masks
    }
}

/// The first of `patterns` that the `regex` crate refuses.
pub open spec fn first_refused(patterns: Seq<Seq<char>>) -> int {
    choose|i: int|
        0 <= i < patterns.len() && !regex_accepts(#[trigger] patterns[i]) && forall|j: int|
            0 <= j < i ==> regex_accepts(#[trigger] patterns[j])
}

/// The first refused pattern is the one a scan in order stops at.
pub proof fn lemma_first_refused(ps: Seq<Seq<char>>, i: int)
    requires
        0 <= i < ps.len(),
        !regex_accepts(ps[i]),
        forall|j: int| 0 <= j < i ==> regex_accepts(#[trigger] ps[j]),
    ensures
        first_refused(ps) == i,
{
    let k = first_refused(ps);
    assert(0 <= k < ps.len() && !regex_accepts(ps[k]) && forall|j: int|
        0 <= j < k ==> regex_accepts(#[trigger] ps[j]));
    if k < i {
        assert(regex_accepts(ps[k]));
    }
    if k > i {
        assert(regex_accepts(ps[i]));
    }
}

/// The masking rules of `patterns`, in order, or the report on the first
/// that does not compile.
fn mask_rules(patterns: &Vec<String>) -> (r: Result<Rules, String>)
    ensures
        (forall|i: int| 0 <= i < patterns@.len() ==> regex_accepts(#[trigger] strings_view(patterns@)[i]))
            ==> r is Ok && r->Ok_0.wf() && r->Ok_0@ == strings_view(patterns@).map_values(
            |p: Seq<char>| RuleView { pattern: p, with: None },
        ),
        !(forall|i: int| 0 <= i < patterns@.len() ==> regex_accepts(#[trigger] strings_view(patterns@)[i]))
            ==> r is Err && r->Err_0@ == "bad redact pattern "@ + quoted_text(
            strings_view(patterns@)[first_refused(strings_view(patterns@))],
        ) + ": "@ + regex_error(strings_view(patterns@)[first_refused(strings_view(patterns@))]),
{
    let ghost ps = strings_view(patterns@);
    let ghost masks = ps.map_values(|p: Seq<char>| RuleView { pattern: p, with: None });
    let mut rules = Rules::new();
    let mut i: usize = 0;
    while i < patterns.len()
        invariant
            i <= patterns.len(),
            ps == strings_view(patterns@),
            masks == ps.map_values(|p: Seq<char>| RuleView { pattern: p, with: None }),
            rules.wf(),
            rules@ == masks.take(i as int),
            forall|j: int| 0 <= j < i ==> regex_accepts(#[trigger] ps[j]),
        decreases patterns.len() - i,
    {
        assert(ps[i as int] == patterns@[i as int]@);
        match rules.pattern(patterns[i].as_str()) {
            Ok(()) => {},
            Err(m) => {
                proof {
                    lemma_first_refused(ps, i as int);
                }
                return Err(m);
            },
        }
        assert(masks.take(i + 1) == masks.take(i as int).push(masks[i as int]));
        i = i + 1;
    }
    assert(masks.take(patterns.len() as int) == masks);
    Ok(rules)
}

impl Rules {
    /// The rules of a recording's settings, as [`config_rules`] says; the
    /// first pattern that does not compile is reported instead.
    pub fn from_config(cfg: &Config, env: &Environment) -> (r: Result<Rules, String>)
        ensures
            (forall|i: int| 0 <= i < cfg@.redact.len() ==> regex_accepts(#[trigger] cfg@.redact[i]))
                ==> r is Ok && r->Ok_0.wf() && r->Ok_0@ == config_rules(
                cfg@.redact,
                cfg@.sanitize,
                *env,
            ),
            !(forall|i: int| 0 <= i < cfg@.redact.len() ==> regex_accepts(#[trigger] cfg@.redact[i]))
                ==> r is Err && r->Err_0@ == "bad redact pattern "@ + quoted_text(
                cfg@.redact[first_refused(cfg@.redact)],
            ) + ": "@ + regex_error(cfg@.redact[first_refused(cfg@.redact)]),
    {
        let mut rules = mask_rules(&cfg.redact)?;
        if cfg.sanitize {
            rules.sanitize(env);
        }
        Ok(rules)
    }
}

/// A run after redaction: its text redacted and, where the text got shorter,
/// its width shrunk by as many characters (each count kept to 16 bits).
pub open spec fn run_redacted(rules: Seq<RuleView>, run: RunView) -> RunView {
    let cleaned = redacted(rules, run.text);
    if cleaned == run.text {
        run
    } else {
        let before = (run.text.len() % 65536) as u16;
        let after = (cleaned.len() % 65536) as u16;
        let shrink = if before >= after {
            (before - after) as u16
        } else {
            0u16
        };
        let width = if run.width >= shrink {
            (run.width - shrink) as u16
        } else {
            0u16
        };
        RunView { width, text: cleaned, ..run }
    }
}

/// A frame after redaction: every run of every row redacted.
pub open spec fn frame_redacted(rules: Seq<RuleView>, f: FrameView) -> FrameView {
    FrameView {
        rows: f.rows.map_values(|row: Seq<RunView>| row.map_values(|r: RunView| run_redacted(rules, r))),
        cursor: f.cursor,
    }
}

fn char_count16(s: &str) -> (n: u16)
    ensures
        n == s@.len() % 65536,
{
    let v = chars_of(s);
    (v.len() % 65536) as u16
}

impl Rules {
    fn run(&self, run: &mut Run)
        requires
            self.wf(),
        ensures
            final(run)@ == run_redacted(self@, old(run)@),
            all_masks(self@) ==> final(run)@.width == old(run)@.width,
    {
        let cleaned = self.text(run.text.as_str());
        if same_text(cleaned.as_str(), run.text.as_str()) {
            return;
        }
        let before = char_count16(run.text.as_str());
        let after = char_count16(cleaned.as_str());
        let shrink = before.saturating_sub(after);
        run.width = run.width.saturating_sub(shrink);
        run.text = cleaned;
    }

    fn row(&self, row: &mut Row)
        requires
            self.wf(),
        ensures
            final(row)@ == old(row)@.map_values(|r: RunView| run_redacted(self@, r)),
            all_masks(self@) ==> forall|k: int|
                0 <= k < final(row)@.len() ==> (#[trigger] final(row)@[k]).width == old(row)@[k].width,
    {
        let ghost before = row@;
        let mut runs: Vec<Run> = Vec::new();
        std::mem::swap(&mut runs, &mut row.runs);
        let n = runs.len();
        let mut i: usize = 0;
        while i < n
            invariant
                i <= n,
                n == runs@.len(),
                self.wf(),
                before.len() == n,
                forall|j: int| 0 <= j < i ==> (#[trigger] runs@[j])@ == run_redacted(self@, before[j]),
                forall|j: int| i <= j < n ==> (#[trigger] runs@[j])@ == before[j],
                all_masks(self@) ==> forall|j: int| 0 <= j < i ==> (#[trigger] runs@[j])@.width == before[j].width,
            decreases n - i,
        {
            let mut r = runs.remove(i);
            self.run(&mut r);
            runs.insert(i, r);
            i = i + 1;
        }
        row.runs = runs;
        assert(row@ =~= before.map_values(|r: RunView| run_redacted(self@, r)));
    }

    /// Redacts every run of a frame, as [`frame_redacted`] says. Where every
    /// rule masks, no run changes width.
    pub fn frame(&self, frame: &mut Frame)
        requires
            self.wf(),
        ensures
            final(frame)@ == frame_redacted(self@, old(frame)@),
            all_masks(self@) ==> forall|r: int, k: int|
                0 <= r < final(frame)@.rows.len() && 0 <= k < final(frame)@.rows[r].len()
                    ==> (#[trigger] final(frame)@.rows[r][k]).width == old(frame)@.rows[r][k].width,
    {
        let ghost before = frame@;
        let mut rows: Vec<Row> = Vec::new();
        std::mem::swap(&mut rows, &mut frame.rows);
        let n = rows.len();
        let mut i: usize = 0;
        while i < n
            invariant
                i <= n,
                n == rows@.len(),
                self.wf(),
                before.rows.len() == n,
                forall|j: int|
                    0 <= j < i ==> (#[trigger] rows@[j])@ == before.rows[j].map_values(
                        |r: RunView| run_redacted(self@, r),
                    ),
                forall|j: int| i <= j < n ==> (#[trigger] rows@[j])@ == before.rows[j],
                all_masks(self@) ==> forall|j: int, k: int|
                    0 <= j < i && 0 <= k < rows@[j]@.len() ==> (#[trigger] rows@[j]@[k]).width
                        == before.rows[j][k].width,
            decreases n - i,
        {
            let mut r = rows.remove(i);
            self.row(&mut r);
            rows.insert(i, r);
            i = i + 1;
        }
        frame.rows = rows;
        assert(frame@.rows =~= frame_redacted(self@, before).rows);
    }
}

/// Without rules, redaction changes nothing.
pub proof fn law_no_rules_no_change(f: FrameView, t: Seq<char>)
    ensures
        redacted(Seq::empty(), t) == t,
        frame_redacted(Seq::empty(), f) == f,
{
    assert forall|r: int| 0 <= r < f.rows.len() implies f.rows[r].map_values(
        |x: RunView| run_redacted(Seq::empty(), x),
    ) == f.rows[r] by {
        assert(f.rows[r].map_values(|x: RunView| run_redacted(Seq::empty(), x)) =~= f.rows[r]);
    }
    assert(frame_redacted(Seq::empty(), f).rows =~= f.rows);
}

} // verus!
