use vstd::prelude::*;

use crate::chars::{
    chars_of, has_suffix, lower_all, lower_chars, pop_char, push_char, string_of, trim, trimmed,
    ends_with_chars,
};
use crate::paths::{path_with_extension, with_extension};
use crate::svg::theme::{builtin_names, Theme};
use crate::tape::{default_config, strings_view, Config, ConfigView, Key as TapeKey, Op, OpView};
use crate::term::frame::Frame;
use crate::time::{min_nat, Duration};
use crate::ui::preset::{self, applied, presets};
use crate::ui::{KeyCode, KeyEvent, KeyModifiers};

verus! {

broadcast use vstd::string::group_string_axioms;

/// How much one press of left or right changes the pause after a command, in
/// milliseconds.
pub const PAUSE_STEP: u64 = 250;

/// The longest pause after a command, in milliseconds.
pub const PAUSE_MAX: u64 = 15_000;

/// The number of settings on the details step.
pub const FIELDS: usize = 5;

/// How long a recording waits for the shell before typing, in milliseconds.
pub const WARMUP_MS: u64 = 900;

/// How long a recording waits for the shell before typing.
pub fn warmup() -> (d: Duration)
    ensures
        d@ == WARMUP_MS * 1_000_000,
{
    Duration::from_millis(WARMUP_MS)
}

/// The steps of the wizard.
#[derive(Clone, Copy, PartialEq, Eq, Structural, Debug)]
pub enum Step {
    Preset,
    Command,
    Theme,
    Details,
    Review,
    Done,
}

pub open spec fn label_of(s: Step) -> Seq<char> {
    match s {
        Step::Preset => "preset"@,
        Step::Command => "command"@,
        Step::Theme => "theme"@,
        Step::Details => "details"@,
        Step::Review => "record"@,
        Step::Done => "done"@,
    }
}

impl Step {
    /// The steps walked before a recording, in order.
    pub fn flow() -> (v: Vec<Step>)
        ensures
            v@ == seq![Step::Preset, Step::Command, Step::Theme, Step::Details, Step::Review],
    {
        let mut v: Vec<Step> = Vec::new();
        v.push(Step::Preset);
        v.push(Step::Command);
        v.push(Step::Theme);
        v.push(Step::Details);
        v.push(Step::Review);
        v
    }

    /// The step's name on screen.
    pub fn label(self) -> (l: &'static str)
        ensures
            l@ == label_of(self),
    {
        match self {
            Step::Preset => "preset",
            Step::Command => "command",
            Step::Theme => "theme",
            Step::Details => "details",
            Step::Review => "record",
            Step::Done => "done",
        }
    }
}

/// What the wizard asks the program around it to do after a key.
#[derive(Clone, Copy, PartialEq, Eq, Structural, Debug)]
pub enum Action {
    Idle,
    Record,
    Rerender,
    Open,
    Quit,
}

impl Default for Action {
    fn default() -> (a: Action)
        ensures
            a == Action::Idle,
    {
        Action::Idle
    }
}

/// What a finished recording left behind.
#[derive(Clone, Debug)]
pub struct Done {
    pub raw: Vec<(Duration, Frame)>,
    pub frames: usize,
    pub length: Duration,
    pub bytes: usize,
    pub svg: String,
    pub tape: String,
    pub last: Frame,
}

/// The wizard that sets up a recording.
pub struct App {
    pub step: Step,
    pub preset: usize,
    pub theme: usize,
    pub field: usize,
    pub commands: Vec<String>,
    pub line: usize,
    pub cfg: Config,
    pub themes: Vec<String>,
    pub output: String,
    pub pause: Duration,
    pub done: Option<Done>,
    pub status: Option<String>,
    pub action: Action,
    pub term_cols: u16,
}

pub struct AppView {
    pub step: Step,
    pub preset: usize,
    pub theme: usize,
    pub field: usize,
    pub commands: Seq<Seq<char>>,
    pub line: usize,
    pub cfg: ConfigView,
    pub themes: Seq<Seq<char>>,
    pub output: Seq<char>,
    pub pause: nat,
    pub status: Option<Seq<char>>,
    pub action: Action,
    pub term_cols: u16,
}

impl View for App {
    type V = AppView;

    open spec fn view(&self) -> AppView {
        AppView {
            step: self.step,
            preset: self.preset,
            theme: self.theme,
            field: self.field,
            commands: strings_view(self.commands@),
            line: self.line,
            cfg: self.cfg@,
            themes: strings_view(self.themes@),
            output: self.output@,
            pause: self.pause@,
            status: match self.status {
                Some(s) => Some(s@),
                None => None,
            },
            action: self.action,
            term_cols: self.term_cols,
        }
    }
}

/// What the wizard keeps true: a command line to edit and the cursor on it,
/// a theme to pick and the choice among them, and a preset and a setting
/// chosen among those there are.
pub open spec fn app_wf(a: AppView) -> bool {
    &&& a.commands.len() >= 1
    &&& a.line < a.commands.len()
    &&& a.themes.len() >= 1
    &&& a.theme < a.themes.len()
    &&& a.preset < 4
    &&& a.field < FIELDS
}

/// The step after `s`; the review and the last step stay where they are.
pub open spec fn next_step(s: Step) -> Step {
    match s {
        Step::Preset => Step::Command,
        Step::Command => Step::Theme,
        Step::Theme => Step::Details,
        Step::Details => Step::Review,
        Step::Review => Step::Review,
        Step::Done => Step::Done,
    }
}

/// The step before `s`; the first stays where it is, and the last goes back
/// to the details.
pub open spec fn back_step(s: Step) -> Step {
    match s {
        Step::Preset => Step::Preset,
        Step::Command => Step::Preset,
        Step::Theme => Step::Command,
        Step::Details => Step::Theme,
        Step::Review => Step::Details,
        Step::Done => Step::Details,
    }
}

/// The wizard with preset `index` chosen: its size and look in the settings
/// and its pause after each command. Choosing the current one changes
/// nothing.
pub open spec fn select_preset(a: AppView, index: usize) -> AppView {
    if index == a.preset {
        a
    } else {
        AppView {
            preset: index,
            cfg: applied(presets()[index as int], a.cfg),
            pause: presets()[index as int].pause,
            ..a
        }
    }
}

pub open spec fn preset_key(a: AppView, k: KeyEvent) -> AppView {
    match k.code {
        KeyCode::Up => select_preset(a, if a.preset == 0 {
            3
        } else {
            (a.preset - 1) as usize
        }),
        KeyCode::Char('k') => select_preset(a, if a.preset == 0 {
            3
        } else {
            (a.preset - 1) as usize
        }),
        KeyCode::Down => select_preset(a, ((a.preset + 1) % 4) as usize),
        KeyCode::Char('j') => select_preset(a, ((a.preset + 1) % 4) as usize),
        KeyCode::Enter => AppView { step: next_step(a.step), ..a },
        KeyCode::Char('q') => AppView { action: Action::Quit, ..a },
        _ => a,
    }
}

pub open spec fn command_key(a: AppView, k: KeyEvent) -> AppView {
    let cur = a.commands[a.line as int];
    let n = a.commands.len();
    match k.code {
        KeyCode::Char(c) => AppView { commands: a.commands.update(a.line as int, cur.push(c)), ..a },
        KeyCode::Backspace => if cur.len() > 0 {
            AppView { commands: a.commands.update(a.line as int, cur.drop_last()), ..a }
        } else if n > 1 {
            AppView {
                commands: a.commands.remove(a.line as int),
                line: if a.line > 0 {
                    (a.line - 1) as usize
                } else {
                    0
                },
                ..a
            }
        } else {
            a
        },
        KeyCode::Up => AppView {
            line: if a.line > 0 {
                (a.line - 1) as usize
            } else {
                0
            },
            ..a
        },
        KeyCode::Down => AppView {
            line: if a.line + 1 < n {
                (a.line + 1) as usize
            } else {
                (n - 1) as usize
            },
            ..a
        },
        KeyCode::Enter => if a.line + 1 == n && trim(cur).len() == 0 {
            if n > 1 {
                AppView {
                    commands: a.commands.drop_last(),
                    line: (n - 2) as usize,
                    step: next_step(a.step),
                    ..a
                }
            } else {
                AppView { step: next_step(a.step), ..a }
            }
        } else {
            AppView {
                commands: a.commands.insert(a.line + 1, Seq::empty()),
                line: (a.line + 1) as usize,
                ..a
            }
        },
        _ => a,
    }
}

/// The theme before `a`'s choice, the last before the first.
pub open spec fn theme_before(a: AppView) -> usize {
    if a.theme == 0 {
        (a.themes.len() - 1) as usize
    } else {
        (a.theme - 1) as usize
    }
}

/// The theme after `a`'s choice, the first after the last.
pub open spec fn theme_after(a: AppView) -> usize {
    ((a.theme + 1) % (a.themes.len() as int)) as usize
}

pub open spec fn theme_key(a: AppView, k: KeyEvent) -> AppView {
    match k.code {
        KeyCode::Up => AppView { theme: theme_before(a), ..a },
        KeyCode::Left => AppView { theme: theme_before(a), ..a },
        KeyCode::Char('k') => AppView { theme: theme_before(a), ..a },
        KeyCode::Down => AppView { theme: theme_after(a), ..a },
        KeyCode::Right => AppView { theme: theme_after(a), ..a },
        KeyCode::Char('j') => AppView { theme: theme_after(a), ..a },
        KeyCode::Enter => AppView { step: next_step(a.step), ..a },
        KeyCode::Char('q') => AppView { action: Action::Quit, ..a },
        _ => a,
    }
}

/// Flips the switch the details cursor is on: the window, or sanitizing.
pub open spec fn toggle(a: AppView) -> AppView {
    if a.field == 2 {
        AppView { cfg: ConfigView { window: !a.cfg.window, ..a.cfg }, ..a }
    } else if a.field == 3 {
        AppView { cfg: ConfigView { sanitize: !a.cfg.sanitize, ..a.cfg }, ..a }
    } else {
        a
    }
}

/// Left and right: flip a switch, or move the pause after each command by a
/// step, never above the longest pause nor below nothing. The pause is kept
/// in whole milliseconds.
pub open spec fn nudge(a: AppView, up: bool) -> AppView {
    if a.field == 2 || a.field == 3 {
        toggle(a)
    } else if a.field == 4 {
        let ms = (a.pause / 1_000_000) % 0x1_0000_0000_0000_0000;
        let next = if up {
            min_nat((ms + PAUSE_STEP) as nat, PAUSE_MAX as nat)
        } else if ms >= PAUSE_STEP {
            (ms - PAUSE_STEP) as nat
        } else {
            0
        };
        AppView { pause: next * 1_000_000, ..a }
    } else {
        a
    }
}

pub open spec fn details_key(a: AppView, k: KeyEvent) -> AppView {
    match k.code {
        KeyCode::Up => AppView {
            field: if a.field == 0 {
                (FIELDS - 1) as usize
            } else {
                (a.field - 1) as usize
            },
            ..a
        },
        KeyCode::Down => AppView { field: ((a.field + 1) % FIELDS as int) as usize, ..a },
        KeyCode::Enter => AppView { step: next_step(a.step), ..a },
        KeyCode::Left => nudge(a, false),
        KeyCode::Right => nudge(a, true),
        KeyCode::Char(c) => if c == ' ' && a.field >= 2 {
            toggle(a)
        } else if a.field == 0 {
            AppView { output: a.output.push(c), ..a }
        } else if a.field == 1 {
            AppView { cfg: ConfigView { title: a.cfg.title.push(c), ..a.cfg }, ..a }
        } else {
            a
        },
        KeyCode::Backspace => if a.field == 0 {
            AppView {
                output: if a.output.len() > 0 {
                    a.output.drop_last()
                } else {
                    a.output
                },
                ..a
            }
        } else if a.field == 1 {
            AppView {
                cfg: ConfigView {
                    title: if a.cfg.title.len() > 0 {
                        a.cfg.title.drop_last()
                    } else {
                        a.cfg.title
                    },
                    ..a.cfg
                },
                ..a
            }
        } else {
            a
        },
        _ => a,
    }
}

/// The commands to run: each without the space round it, and none left
/// blank.
pub open spec fn lines_of(commands: Seq<Seq<char>>) -> Seq<Seq<char>>
    decreases commands.len(),
{
    if commands.len() == 0 {
        Seq::empty()
    } else {
        let before = lines_of(commands.drop_last());
        let t = trim(commands.last());
        if t.len() > 0 {
            before.push(t)
        } else {
            before
        }
    }
}

/// Why the wizard cannot record yet, if it cannot.
pub open spec fn problem_of(a: AppView) -> Option<Seq<char>> {
    if lines_of(a.commands).len() == 0 {
        Some("add at least one command to record"@)
    } else if trim(a.output).len() == 0 {
        Some("the output needs a file name"@)
    } else if !has_suffix(lower_all(trim(a.output)), ".svg"@) {
        Some("the output should end in .svg"@)
    } else {
        None
    }
}

pub open spec fn review_key(a: AppView, k: KeyEvent) -> AppView {
    match k.code {
        KeyCode::Enter => match problem_of(a) {
            Some(why) => AppView { status: Some(why), ..a },
            None => AppView { action: Action::Record, ..a },
        },
        KeyCode::Char(' ') => match problem_of(a) {
            Some(why) => AppView { status: Some(why), ..a },
            None => AppView { action: Action::Record, ..a },
        },
        KeyCode::Char('q') => AppView { action: Action::Quit, ..a },
        _ => a,
    }
}

pub open spec fn done_key(a: AppView, k: KeyEvent) -> AppView {
    match k.code {
        KeyCode::Up => AppView { theme: theme_before(a), action: Action::Rerender, ..a },
        KeyCode::Left => AppView { theme: theme_before(a), action: Action::Rerender, ..a },
        KeyCode::Down => AppView { theme: theme_after(a), action: Action::Rerender, ..a },
        KeyCode::Right => AppView { theme: theme_after(a), action: Action::Rerender, ..a },
        KeyCode::Char('w') => AppView {
            cfg: ConfigView { window: !a.cfg.window, ..a.cfg },
            action: Action::Rerender,
            ..a
        },
        KeyCode::Char('r') => AppView { step: Step::Review, action: Action::Record, ..a },
        KeyCode::Char('e') => AppView { step: Step::Preset, ..a },
        KeyCode::Char('o') => AppView { action: Action::Open, ..a },
        KeyCode::Char('q') => AppView { action: Action::Quit, ..a },
        _ => a,
    }
}

/// What a key does to the wizard. Control-C and control-Q quit from any
/// step; escape quits from the first step and goes back from the others; tab
/// and back-tab walk the steps; any other key is the current step's. Every
/// key clears the status line.
pub open spec fn key_result(a0: AppView, k: KeyEvent) -> AppView {
    let a = AppView { status: None, ..a0 };
    if k.modifiers.bits & KeyModifiers::CONTROL == KeyModifiers::CONTROL && (k.code
        == KeyCode::Char('c') || k.code == KeyCode::Char('q')) {
        AppView { action: Action::Quit, ..a }
    } else {
        match k.code {
            KeyCode::Esc => if a.step == Step::Preset {
                AppView { action: Action::Quit, ..a }
            } else {
                AppView { step: back_step(a.step), ..a }
            },
            KeyCode::Tab => AppView { step: next_step(a.step), ..a },
            KeyCode::BackTab => AppView { step: back_step(a.step), ..a },
            _ => match a.step {
                Step::Preset => preset_key(a, k),
                Step::Command => command_key(a, k),
                Step::Theme => theme_key(a, k),
                Step::Details => details_key(a, k),
                Step::Review => review_key(a, k),
                Step::Done => done_key(a, k),
            },
        }
    }
}

/// The wizard as it starts: on the first preset, with sanitizing on, the
/// title `demo` and the output `demo.svg`, and one empty command.
pub open spec fn start_of(themes: Seq<Seq<char>>) -> AppView {
    AppView {
        step: Step::Preset,
        preset: 0,
        theme: 0,
        field: 0,
        commands: seq![Seq::empty()],
        line: 0,
        cfg: ConfigView {
            sanitize: true,
            title: "demo"@,
            ..applied(presets()[0], default_config())
        },
        themes,
        output: "demo.svg"@,
        pause: presets()[0].pause,
        status: None,
        action: Action::Idle,
        term_cols: 0,
    }
}

/// The actions a recording performs: a wait for the shell, then each command
/// typed, entered, and given its pause.
pub open spec fn ops_of(lines: Seq<Seq<char>>, pause: nat) -> Seq<OpView>
    decreases lines.len(),
{
    if lines.len() == 0 {
        seq![OpView::Sleep((WARMUP_MS * 1_000_000) as nat)]
    } else {
        ops_of(lines.drop_last(), pause) + seq![
            OpView::Type(lines.last()),
            OpView::Key(TapeKey::Enter),
            OpView::Sleep(pause),
        ]
    }
}

/// The name of the chosen theme.
pub open spec fn theme_name_of(a: AppView) -> Seq<char> {
    a.themes[if a.theme < a.themes.len() {
        a.theme as int
    } else {
        a.themes.len() - 1
    }]
}

/// The settings a recording runs with: the wizard's, with the chosen theme
/// and the output path without the space round it.
pub open spec fn config_of(a: AppView) -> ConfigView {
    ConfigView { theme: theme_name_of(a), output: trim(a.output), ..a.cfg }
}

impl App {
    pub open spec fn wf(&self) -> bool {
        app_wf(self@)
    }

    /// The wizard as it starts, offering the built-in themes.
    pub fn new() -> (app: App)
        ensures
            app@ == start_of(builtin_names()),
            app.wf(),
            app.done is None,
    {
        App::with_themes(Theme::names())
    }

    /// The wizard as it starts, offering `themes`.
    pub fn with_themes(themes: Vec<String>) -> (app: App)
        requires
            themes@.len() >= 1,
        ensures
            app@ == start_of(strings_view(themes@)),
            app.wf(),
            app.done is None,
    {
        let mut cfg = Config::default();
        let first = preset::get(0);
        first.apply(&mut cfg);
        cfg.sanitize = true;
        cfg.title = "demo".to_owned();
        let mut commands: Vec<String> = Vec::new();
        commands.push(String::new());
        let app = App {
            step: Step::Preset,
            preset: 0,
            theme: 0,
            themes,
            field: 0,
            commands,
            line: 0,
            cfg,
            output: "demo.svg".to_owned(),
            pause: first.pause,
            done: None,
            status: None,
            action: Action::Idle,
            term_cols: 0,
        };
        assert(app@.commands =~= seq![Seq::<char>::empty()]);
        assert(app@.cfg =~= start_of(strings_view(themes@)).cfg);
        app
    }

    pub fn themes(&self) -> (t: &Vec<String>)
        ensures
            t == &self.themes,
    {
        &self.themes
    }

    /// The name of the chosen theme, as [`theme_name_of`] says.
    pub fn theme_name(&self) -> (n: &str)
        requires
            self.themes@.len() >= 1,
        ensures
            n@ == theme_name_of(self@),
    {
        let last = self.themes.len() - 1;
        let i = if self.theme < last {
            self.theme
        } else {
            last
        };
        self.themes[i].as_str()
    }

    /// The chosen preset.
    pub fn preset(&self) -> (p: preset::Preset)
        ensures
            p@ == presets()[if self.preset < 3 {
                self.preset as int
            } else {
                3
            }],
    {
        let i = if self.preset < 3 {
            self.preset
        } else {
            3
        };
        preset::get(i)
    }

    /// The settings a recording runs with, as [`config_of`] says.
    pub fn config(&self) -> (c: Config)
        requires
            self.themes@.len() >= 1,
        ensures
            c@ == config_of(self@),
    {
        let mut c = self.cfg.copy();
        c.theme = self.theme_name().to_owned();
        let out = chars_of(self.output.as_str());
        let t = trimmed(out.as_slice());
        c.output = string_of(t.as_slice());
        c
    }

    /// Where the tape of a recording goes: beside the picture, with the
    /// extension `tape`.
    pub fn tape_path(&self) -> (p: String)
        requires
            self.themes@.len() >= 1,
        ensures
            p@ == path_with_extension(config_of(self@).output, "tape"@),
    {
        let c = self.config();
        proof {
            reveal_strlit("tape");
            assert(!"tape"@.contains('/'));
            assert(!"tape"@.contains('\\'));
        }
        with_extension(c.output.as_str(), "tape")
    }

    /// The commands to run, as [`lines_of`] says.
    pub fn lines(&self) -> (v: Vec<String>)
        ensures
            strings_view(v@) == lines_of(strings_view(self.commands@)),
    {
        let ghost cs = strings_view(self.commands@);
        let mut v: Vec<String> = Vec::new();
        let mut i: usize = 0;
        while i < self.commands.len()
            invariant
                i <= self.commands.len(),
                cs == strings_view(self.commands@),
                strings_view(v@) == lines_of(cs.take(i as int)),
            decreases self.commands.len() - i,
        {
            let c = chars_of(self.commands[i].as_str());
            let t = trimmed(c.as_slice());
            assert(cs.take(i + 1).drop_last() == cs.take(i as int));
            if t.len() > 0 {
                let s = string_of(t.as_slice());
                v.push(s);
                assert(strings_view(v@) == strings_view(v@.drop_last()).push(s@));
            }
            i = i + 1;
        }
        assert(cs.take(self.commands.len() as int) == cs);
        v
    }

    /// The actions a recording performs, as [`ops_of`] says.
    pub fn ops(&self) -> (ops: Vec<Op>)
        ensures
            ops@.map_values(|o: Op| o@) == ops_of(lines_of(strings_view(self.commands@)), self.pause@),
    {
        let lines = self.lines();
        let ghost ls = strings_view(lines@);
        let mut ops: Vec<Op> = Vec::new();
        ops.push(Op::Sleep(warmup()));
        let mut i: usize = 0;
        while i < lines.len()
            invariant
                i <= lines.len(),
                ls == strings_view(lines@),
                ops@.map_values(|o: Op| o@) == ops_of(ls.take(i as int), self.pause@),
            decreases lines.len() - i,
        {
            let t = Op::Type(lines[i].clone());
            let e = Op::Key(TapeKey::Enter);
            let z = Op::Sleep(self.pause);
            ops.push(t);
            ops.push(e);
            ops.push(z);
            assert(ls.take(i + 1).drop_last() == ls.take(i as int));
            assert(ops@.map_values(|o: Op| o@) =~= ops@.drop_last().drop_last().drop_last().map_values(
                |o: Op| o@,
            ) + seq![t@, e@, z@]);
            i = i + 1;
        }
        assert(ls.take(lines.len() as int) == ls);
        ops
    }

    /// Why the wizard cannot record yet, as [`problem_of`] says.
    pub fn problem(&self) -> (p: Option<String>)
        ensures
            match problem_of(self@) {
                Some(m) => p is Some && p->0@ == m,
                None => p is None,
            },
    {
        if self.lines().len() == 0 {
            return Some("add at least one command to record".to_owned());
        }
        let out = chars_of(self.output.as_str());
        let t = trimmed(out.as_slice());
        if t.len() == 0 {
            return Some("the output needs a file name".to_owned());
        }
        let l = lower_chars(t.as_slice());
        if !ends_with_chars(l.as_slice(), ".svg") {
            return Some("the output should end in .svg".to_owned());
        }
        None
    }

    /// Whether the recording is wider than the terminal the wizard runs in.
    pub fn too_wide(&self) -> (b: bool)
        ensures
            b == (self.term_cols > 0 && self.cfg.cols > self.term_cols),
    {
        self.term_cols > 0 && self.cfg.cols > self.term_cols
    }

    /// Moves to the next step.
    pub fn next(&mut self)
        ensures
            final(self)@ == (AppView { step: next_step(old(self)@.step), ..old(self)@ }),
            final(self).done == old(self).done,
    {
        self.step = match self.step {
            Step::Preset => Step::Command,
            Step::Command => Step::Theme,
            Step::Theme => Step::Details,
            Step::Details => Step::Review,
            Step::Review => Step::Review,
            Step::Done => Step::Done,
        };
    }

    /// Moves to the step before.
    pub fn back(&mut self)
        ensures
            final(self)@ == (AppView { step: back_step(old(self)@.step), ..old(self)@ }),
            final(self).done == old(self).done,
    {
        self.step = match self.step {
            Step::Preset => Step::Preset,
            Step::Command => Step::Preset,
            Step::Theme => Step::Command,
            Step::Details => Step::Theme,
            Step::Review => Step::Details,
            Step::Done => Step::Details,
        };
    }
}

impl App {
    fn select_preset(&mut self, index: usize)
        requires
            index < 4,
        ensures
            final(self)@ == select_preset(old(self)@, index),
            final(self).done == old(self).done,
    {
        if index == self.preset {
            return;
        }
        self.preset = index;
        let chosen = preset::get(index);
        chosen.apply(&mut self.cfg);
        self.pause = chosen.pause;
    }

    fn preset_key(&mut self, key: KeyEvent)
        requires
            old(self).wf(),
        ensures
            final(self)@ == preset_key(old(self)@, key),
            final(self).done == old(self).done,
    {
        let up = if self.preset == 0 {
            3
        } else {
            self.preset - 1
        };
        let down = (self.preset + 1) % 4;
        match key.code {
            KeyCode::Up => self.select_preset(up),
            KeyCode::Char('k') => self.select_preset(up),
            KeyCode::Down => self.select_preset(down),
            KeyCode::Char('j') => self.select_preset(down),
            KeyCode::Enter => self.next(),
            KeyCode::Char('q') => self.action = Action::Quit,
            _ => {},
        }
    }

    fn command_key(&mut self, key: KeyEvent)
        requires
            old(self).wf(),
        ensures
            final(self)@ == command_key(old(self)@, key),
            final(self).done == old(self).done,
    {
        let ghost a = self@;
        let n = self.commands.len();
        match key.code {
            KeyCode::Char(c) => {
                let mut cur = self.commands[self.line].clone();
                push_char(&mut cur, c);
                self.commands.set(self.line, cur);
                assert(self@.commands =~= a.commands.update(a.line as int, a.commands[a.line as int].push(c)));
            },
            KeyCode::Backspace => {
                let mut cur = self.commands[self.line].clone();
                match pop_char(&mut cur) {
                    Some(_) => {
                        self.commands.set(self.line, cur);
                        assert(self@.commands =~= a.commands.update(
                            a.line as int,
                            a.commands[a.line as int].drop_last(),
                        ));
                    },
                    None => {
                        if n > 1 {
                            self.commands.remove(self.line);
                            self.line = if self.line > 0 {
                                self.line - 1
                            } else {
                                0
                            };
                            assert(self@.commands =~= a.commands.remove(a.line as int));
                        }
                    },
                }
            },
            KeyCode::Up => {
                self.line = if self.line > 0 {
                    self.line - 1
                } else {
                    0
                };
            },
            KeyCode::Down => {
                self.line = if self.line + 1 < n {
                    self.line + 1
                } else {
                    n - 1
                };
            },
            KeyCode::Enter => {
                let cur = chars_of(self.commands[self.line].as_str());
                let t = trimmed(cur.as_slice());
                if self.line + 1 == n && t.len() == 0 {
                    if n > 1 {
                        self.commands.pop();
                        self.line = self.commands.len() - 1;
                        assert(self@.commands =~= a.commands.drop_last());
                    }
                    self.next();
                } else {
                    self.commands.insert(self.line + 1, String::new());
                    self.line = self.line + 1;
                    assert(self@.commands =~= a.commands.insert(a.line + 1, Seq::empty()));
                }
            },
            _ => {},
        }
    }

    fn theme_key(&mut self, key: KeyEvent)
        requires
            old(self).wf(),
        ensures
            final(self)@ == theme_key(old(self)@, key),
            final(self).done == old(self).done,
    {
        let count = self.themes.len();
        let before = if self.theme == 0 {
            count - 1
        } else {
            self.theme - 1
        };
        let after = (self.theme + 1) % count;
        match key.code {
            KeyCode::Up => self.theme = before,
            KeyCode::Left => self.theme = before,
            KeyCode::Char('k') => self.theme = before,
            KeyCode::Down => self.theme = after,
            KeyCode::Right => self.theme = after,
            KeyCode::Char('j') => self.theme = after,
            KeyCode::Enter => self.next(),
            KeyCode::Char('q') => self.action = Action::Quit,
            _ => {},
        }
    }

    fn toggle(&mut self)
        ensures
            final(self)@ == toggle(old(self)@),
            final(self).done == old(self).done,
    {
        if self.field == 2 {
            self.cfg.window = !self.cfg.window;
        } else if self.field == 3 {
            self.cfg.sanitize = !self.cfg.sanitize;
        }
    }

    fn nudge(&mut self, up: bool)
        ensures
            final(self)@ == nudge(old(self)@, up),
            final(self).done == old(self).done,
    {
        if self.field == 2 || self.field == 3 {
            self.toggle();
        } else if self.field == 4 {
            let ms = (self.pause.as_millis() % 0x1_0000_0000_0000_0000) as u64;
            let next = if up {
                if ms < PAUSE_MAX - PAUSE_STEP {
                    ms + PAUSE_STEP
                } else {
                    PAUSE_MAX
                }
            } else if ms >= PAUSE_STEP {
                ms - PAUSE_STEP
            } else {
                0
            };
            self.pause = Duration::from_millis(next);
        }
    }

    fn details_key(&mut self, key: KeyEvent)
        requires
            old(self).wf(),
        ensures
            final(self)@ == details_key(old(self)@, key),
            final(self).done == old(self).done,
    {
        match key.code {
            KeyCode::Up => {
                self.field = if self.field == 0 {
                    FIELDS - 1
                } else {
                    self.field - 1
                };
            },
            KeyCode::Down => self.field = (self.field + 1) % FIELDS,
            KeyCode::Enter => self.next(),
            KeyCode::Left => self.nudge(false),
            KeyCode::Right => self.nudge(true),
            KeyCode::Char(c) => {
                if c == ' ' && self.field >= 2 {
                    self.toggle();
                } else if self.field == 0 {
                    push_char(&mut self.output, c);
                } else if self.field == 1 {
                    push_char(&mut self.cfg.title, c);
                }
            },
            KeyCode::Backspace => {
                if self.field == 0 {
                    pop_char(&mut self.output);
                } else if self.field == 1 {
                    pop_char(&mut self.cfg.title);
                }
            },
            _ => {},
        }
    }

    fn review_key(&mut self, key: KeyEvent)
        ensures
            final(self)@ == review_key(old(self)@, key),
            final(self).done == old(self).done,
    {
        match key.code {
            KeyCode::Enter | KeyCode::Char(' ') => match self.problem() {
                Some(why) => self.status = Some(why),
                None => self.action = Action::Record,
            },
            KeyCode::Char('q') => self.action = Action::Quit,
            _ => {},
        }
    }

    fn done_key(&mut self, key: KeyEvent)
        requires
            old(self).wf(),
        ensures
            final(self)@ == done_key(old(self)@, key),
            final(self).done == old(self).done,
    {
        let count = self.themes.len();
        let before = if self.theme == 0 {
            count - 1
        } else {
            self.theme - 1
        };
        let after = (self.theme + 1) % count;
        match key.code {
            KeyCode::Up | KeyCode::Left => {
                self.theme = before;
                self.action = Action::Rerender;
            },
            KeyCode::Down | KeyCode::Right => {
                self.theme = after;
                self.action = Action::Rerender;
            },
            KeyCode::Char('w') => {
                self.cfg.window = !self.cfg.window;
                self.action = Action::Rerender;
            },
            KeyCode::Char('r') => {
                self.step = Step::Review;
                self.action = Action::Record;
            },
            KeyCode::Char('e') => self.step = Step::Preset,
            KeyCode::Char('o') => self.action = Action::Open,
            KeyCode::Char('q') => self.action = Action::Quit,
            _ => {},
        }
    }

    /// Handles a key press, as [`key_result`] says. The wizard stays well
    /// formed and what a recording left behind is untouched.
    pub fn key(&mut self, key: KeyEvent)
        requires
            old(self).wf(),
        ensures
            final(self)@ == key_result(old(self)@, key),
            final(self).wf(),
            final(self).done == old(self).done,
    {
        self.status = None;
        if key.modifiers.contains(KeyModifiers::CONTROL) {
            match key.code {
                KeyCode::Char('c') | KeyCode::Char('q') => {
                    self.action = Action::Quit;
                    return;
                },
                _ => {},
            }
        }
        match key.code {
            KeyCode::Esc => {
                if self.step == Step::Preset {
                    self.action = Action::Quit;
                } else {
                    self.back();
                }
                return;
            },
            KeyCode::Tab => {
                self.next();
                return;
            },
            KeyCode::BackTab => {
                self.back();
                return;
            },
            _ => {},
        }
        match self.step {
            Step::Preset => self.preset_key(key),
            Step::Command => self.command_key(key),
            Step::Theme => self.theme_key(key),
            Step::Details => self.details_key(key),
            Step::Review => self.review_key(key),
            Step::Done => self.done_key(key),
        }
    }
}

/// Control-C and control-Q quit from every step.
pub proof fn law_control_quits(a: AppView, k: KeyEvent)
    requires
        k.modifiers.bits & KeyModifiers::CONTROL == KeyModifiers::CONTROL,
        k.code == KeyCode::Char('c') || k.code == KeyCode::Char('q'),
    ensures
        key_result(a, k).action == Action::Quit,
{
}

/// Escape quits only from the first step; from the others it goes back one
/// step and asks for nothing.
pub proof fn law_escape(a: AppView, k: KeyEvent)
    requires
        k.code == KeyCode::Esc,
    ensures
        a.step == Step::Preset ==> key_result(a, k).action == Action::Quit,
        a.step != Step::Preset ==> key_result(a, k).step == back_step(a.step)
            && key_result(a, k).action == a.action,
{
}

/// Walking forward then back, or back then forward, returns to the same step
/// everywhere inside the flow.
pub proof fn law_flow_round_trip(s: Step)
    ensures
        s != Step::Review && s != Step::Done ==> back_step(next_step(s)) == s,
        s != Step::Preset && s != Step::Done ==> next_step(back_step(s)) == s,
{
}

/// Tab walks forward and back-tab walks back from any step, whatever the
/// step would otherwise do with a key.
pub proof fn law_tab_walks(a: AppView, k: KeyEvent)
    requires
        !(k.modifiers.bits & KeyModifiers::CONTROL == KeyModifiers::CONTROL && (k.code
            == KeyCode::Char('c') || k.code == KeyCode::Char('q'))),
    ensures
        k.code == KeyCode::Tab ==> key_result(a, k).step == next_step(a.step),
        k.code == KeyCode::BackTab ==> key_result(a, k).step == back_step(a.step),
{
}

} // verus!
