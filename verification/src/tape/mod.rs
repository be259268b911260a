pub mod laws;
pub mod parse;
pub mod write;

pub use parse::parse;



use vstd::prelude::*;

use crate::number::Decimal;
use crate::time::Duration;

verus! {

broadcast use vstd::string::group_string_axioms;

/// A key a tape can press.
#[derive(Clone, Copy, PartialEq, Eq, Structural, Debug)]
pub enum Key {
    Enter,
    Tab,
    Backspace,
    Escape,
    Space,
    Up,
    Down,
    Left,
    Right,
    Ctrl(char),
}

/// One action of a tape, run in order.
#[derive(Clone, PartialEq, Eq, Debug)]
pub enum Op {
    Type(String),
    Key(Key),
    Sleep(Duration),
    Wait { text: String, timeout: Duration },
}

/// What an [`Op`] is, with its text as characters.
pub enum OpView {
    Type(Seq<char>),
    Key(Key),
    Sleep(nat),
    Wait { text: Seq<char>, timeout: nat },
}

impl View for Op {
    type V = OpView;

    open spec fn view(&self) -> OpView {
        match self {
            Op::Type(t) => OpView::Type(t@),
            Op::Key(k) => OpView::Key(*k),
            Op::Sleep(d) => OpView::Sleep(d@),
            Op::Wait { text, timeout } => OpView::Wait { text: text@, timeout: timeout@ },
        }
    }
}

pub open spec fn ops_view(ops: Seq<Op>) -> Seq<OpView> {
    ops.map_values(|o: Op| o@)
}

pub open spec fn strings_view(v: Seq<String>) -> Seq<Seq<char>> {
    v.map_values(|s: String| s@)
}

/// The settings of a recording.
///
/// `shell` is `None` for the platform's own shell, which the program that
/// spawns the session picks.
#[derive(Clone, Debug)]
pub struct Config {
    pub output: String,
    pub theme: String,
    pub cols: u16,
    pub rows: u16,
    pub font_family: String,
    pub font_size: Decimal,
    pub advance: Decimal,
    pub line_height: Decimal,
    pub padding: Decimal,
    pub shell: Option<Vec<String>>,
    pub trim_idle: Option<Duration>,
    pub tail: Duration,
    pub type_delay: Duration,
    pub speed: Decimal,
    pub window: bool,
    pub title: String,
    pub loop_forever: bool,
    pub redact: Vec<String>,
    pub sanitize: bool,
}

/// A [`Config`] with its texts as characters and its numbers as integers.
pub struct ConfigView {
    pub output: Seq<char>,
    pub theme: Seq<char>,
    pub cols: u16,
    pub rows: u16,
    pub font_family: Seq<char>,
    pub font_size: int,
    pub advance: int,
    pub line_height: int,
    pub padding: int,
    pub shell: Option<Seq<Seq<char>>>,
    pub trim_idle: Option<nat>,
    pub tail: nat,
    pub type_delay: nat,
    pub speed: int,
    pub window: bool,
    pub title: Seq<char>,
    pub loop_forever: bool,
    pub redact: Seq<Seq<char>>,
    pub sanitize: bool,
}

impl View for Config {
    type V = ConfigView;

    open spec fn view(&self) -> ConfigView {
        ConfigView {
            output: self.output@,
            theme: self.theme@,
            cols: self.cols,
            rows: self.rows,
            font_family: self.font_family@,
            font_size: self.font_size@,
            advance: self.advance@,
            line_height: self.line_height@,
            padding: self.padding@,
            shell: match self.shell {
                Some(v) => Some(strings_view(v@)),
                None => None,
            },
            trim_idle: match self.trim_idle {
                Some(d) => Some(d@),
                None => None,
            },
            tail: self.tail@,
            type_delay: self.type_delay@,
            speed: self.speed@,
            window: self.window,
            title: self.title@,
            loop_forever: self.loop_forever,
            redact: strings_view(self.redact@),
            sanitize: self.sanitize,
        }
    }
}

/// The CSS font family used where a recording names none.
pub const DEFAULT_FONT: &'static str = "ui-monospace, SFMono-Regular, 'JetBrains Mono', Menlo, Consolas, 'Cascadia Mono', monospace";

/// The settings a tape starts from.
pub open spec fn default_config() -> ConfigView {
    ConfigView {
        output: "demo.svg"@,
        theme: "tokyonight"@,
        cols: 90,
        rows: 22,
        font_family: DEFAULT_FONT@,
        font_size: 14_000_000,
        advance: 0,
        line_height: 0,
        padding: 18_000_000,
        shell: None,
        trim_idle: Some(1_000_000_000),
        tail: 2_000_000_000,
        type_delay: 55_000_000,
        speed: 1_000_000,
        window: false,
        title: Seq::empty(),
        loop_forever: true,
        redact: Seq::empty(),
        sanitize: false,
    }
}

impl Config {
    /// The settings a tape starts from.
    pub fn default() -> (c: Config)
        ensures
            c@ == default_config(),
    {
        let c = Config {
            output: "demo.svg".to_string(),
            theme: "tokyonight".to_string(),
            cols: 90,
            rows: 22,
            font_family: DEFAULT_FONT.to_string(),
            font_size: Decimal::from_int(14),
            advance: Decimal::from_int(0),
            line_height: Decimal::from_int(0),
            padding: Decimal::from_int(18),
            shell: None,
            trim_idle: Some(Duration::from_millis(1000)),
            tail: Duration::from_millis(2000),
            type_delay: Duration::from_millis(55),
            speed: Decimal::from_int(1),
            window: false,
            title: String::new(),
            loop_forever: true,
            redact: Vec::new(),
            sanitize: false,
        };
        assert(strings_view(c.redact@) == Seq::<Seq<char>>::empty());
        c
    }
}

/// A copy of a list of texts.
pub fn copy_strings(v: &Vec<String>) -> (out: Vec<String>)
    ensures
        strings_view(out@) == strings_view(v@),
{
    let mut out: Vec<String> = Vec::new();
    let mut i: usize = 0;
    while i < v.len()
        invariant
            i <= v.len(),
            strings_view(out@) == strings_view(v@.take(i as int)),
        decreases v.len() - i,
    {
        out.push(v[i].clone());
        assert(strings_view(v@.take(i + 1)) == strings_view(v@.take(i as int)).push(v@[i as int]@));
        i = i + 1;
    }
    assert(v@.take(v.len() as int) == v@);
    out
}

impl Config {
    /// A copy of these settings.
    pub fn copy(&self) -> (c: Config)
        ensures
            c@ == self@,
    {
        Config {
            output: self.output.clone(),
            theme: self.theme.clone(),
            cols: self.cols,
            rows: self.rows,
            font_family: self.font_family.clone(),
            font_size: self.font_size,
            advance: self.advance,
            line_height: self.line_height,
            padding: self.padding,
            shell: match &self.shell {
                Some(v) => Some(copy_strings(v)),
                None => None,
            },
            trim_idle: self.trim_idle,
            tail: self.tail,
            type_delay: self.type_delay,
            speed: self.speed,
            window: self.window,
            title: self.title.clone(),
            loop_forever: self.loop_forever,
            redact: copy_strings(&self.redact),
            sanitize: self.sanitize,
        }
    }
}

/// A parsed tape: the settings, then the actions.
#[derive(Clone, Debug)]
pub struct Tape {
    pub config: Config,
    pub ops: Vec<Op>,
}

} // verus!
