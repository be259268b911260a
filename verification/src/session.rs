use vstd::prelude::*;

use crate::chars::{push_str, push_uint};
use crate::optimize::{dedup, raw_view, timeline_of, OptionsView, TimelineView};
use crate::redact::{frame_redacted, redacted, RuleView, Rules};
use crate::tape::{strings_view, Config, ConfigView};
use crate::term::frame::{Frame, FrameView};
use crate::number::Decimal;
use crate::time::{min_nat, Duration};

verus! {

broadcast use vstd::string::group_string_axioms;

/// The version of the capture file layout this library reads and writes.
pub const FORMAT: u32 = 1;

/// One picture of a capture and when it was taken, in milliseconds.
#[derive(Clone, Debug)]
pub struct Shot {
    pub at_ms: u64,
    pub frame: Frame,
}

/// A recording kept for later: the command that ran, its settings, and what
/// the screen showed.
#[derive(Clone, Debug)]
pub struct Capture {
    pub format: u32,
    pub command: Vec<String>,
    pub config: Config,
    pub shots: Vec<Shot>,
}

pub struct CaptureView {
    pub format: u32,
    pub command: Seq<Seq<char>>,
    pub config: ConfigView,
    pub shots: Seq<(nat, FrameView)>,
}

impl View for Capture {
    type V = CaptureView;

    open spec fn view(&self) -> CaptureView {
        CaptureView {
            format: self.format,
            command: strings_view(self.command@),
            config: self.config@,
            shots: self.shots@.map_values(|s: Shot| (s.at_ms as nat, s.frame@)),
        }
    }
}

/// The shots kept of a recording: each frame redacted, its time in whole
/// milliseconds, and none that repeats the one kept before it.
pub open spec fn kept_shots(raw: Seq<(nat, FrameView)>, rules: Seq<RuleView>) -> Seq<(nat, FrameView)>
    decreases raw.len(),
{
    if raw.len() == 0 {
        Seq::empty()
    } else {
        let before = kept_shots(raw.drop_last(), rules);
        let f = frame_redacted(rules, raw.last().1);
        if before.len() > 0 && before.last().1 == f {
            before
        } else {
            before.push(((raw.last().0 / 1_000_000) % 0x1_0000_0000_0000_0000, f))
        }
    }
}

/// Settings with every text that could hold a secret redacted: the shell
/// command, the title and the output path.
pub open spec fn redacted_config(c: ConfigView, rules: Seq<RuleView>) -> ConfigView {
    ConfigView {
        shell: match c.shell {
            Some(v) => Some(v.map_values(|s: Seq<char>| redacted(rules, s))),
            None => None,
        },
        title: redacted(rules, c.title),
        output: redacted(rules, c.output),
        ..c
    }
}

/// The frames of a recording, each redacted by `rules`.
pub open spec fn shots_redacted(raw: Seq<(nat, FrameView)>, rules: Seq<RuleView>) -> Seq<(nat, FrameView)> {
    raw.map_values(|p: (nat, FrameView)| (p.0, frame_redacted(rules, p.1)))
}

/// The frames a capture plays back: each shot at its time in nanoseconds.
pub open spec fn replayed(shots: Seq<(nat, FrameView)>) -> Seq<(nat, FrameView)> {
    shots.map_values(|s: (nat, FrameView)| (s.0 * 1_000_000, s.1))
}

/// Whether every frame of a recording was taken at a whole millisecond that
/// a `u64` of milliseconds can hold.
pub open spec fn whole_millis(raw: Seq<(nat, FrameView)>) -> bool {
    forall|i: int|
        0 <= i < raw.len() ==> (#[trigger] raw[i]).0 % 1_000_000 == 0 && raw[i].0 / 1_000_000
            <= u64::MAX
}

/// What a capture of a recording holds, as [`Capture::new`] makes it.
pub open spec fn capture_of(
    command: Seq<Seq<char>>,
    config: ConfigView,
    raw: Seq<(nat, FrameView)>,
    rules: Seq<RuleView>,
) -> CaptureView {
    CaptureView {
        format: FORMAT,
        command: command.map_values(|s: Seq<char>| redacted(rules, s)),
        config: redacted_config(config, rules),
        shots: kept_shots(raw, rules),
    }
}

fn redact_strings(rules: &Rules, v: &Vec<String>) -> (out: Vec<String>)
    requires
        rules.wf(),
    ensures
        strings_view(out@) == strings_view(v@).map_values(|s: Seq<char>| redacted(rules@, s)),
{
    let out = rules.strings(v.as_slice());
    assert(strings_view(out@) =~= strings_view(v@).map_values(|s: Seq<char>| redacted(rules@, s)));
    out
}

impl Capture {
    /// A capture of a recording, as [`capture_of`] says: the command, the
    /// settings and every frame redacted, and a frame that repeats the one
    /// before it dropped.
    pub fn new(command: &[String], config: &Config, raw: &[(Duration, Frame)], rules: &Rules) -> (c: Capture)
        requires
            rules.wf(),
        ensures
            c@ == capture_of(strings_view(command@), config@, raw_view(raw@), rules@),
    {
        let ghost rv = raw_view(raw@);
        let mut shots: Vec<Shot> = Vec::new();
        let mut i: usize = 0;
        while i < raw.len()
            invariant
                i <= raw.len(),
                rules.wf(),
                rv == raw_view(raw@),
                shots@.map_values(|s: Shot| (s.at_ms as nat, s.frame@)) == kept_shots(rv.take(i as int), rules@),
            decreases raw.len() - i,
        {
            let mut frame = raw[i].1.copy();
            rules.frame(&mut frame);
            let fresh = if shots.len() == 0 {
                true
            } else {
                !shots[shots.len() - 1].frame.same(&frame)
            };
            assert(rv.take(i + 1).drop_last() == rv.take(i as int));
            if fresh {
                let shot = Shot { at_ms: (raw[i].0.as_millis() % 0x1_0000_0000_0000_0000) as u64, frame };
                shots.push(shot);
                assert(shots@.map_values(|s: Shot| (s.at_ms as nat, s.frame@)) == shots@.drop_last().map_values(
                    |s: Shot| (s.at_ms as nat, s.frame@),
                ).push((shot.at_ms as nat, shot.frame@)));
            }
            i = i + 1;
        }
        assert(rv.take(raw.len() as int) == rv);
        let mut cfg = config.copy();
        cfg.shell = match &config.shell {
            Some(v) => Some(redact_strings(rules, v)),
            None => None,
        };
        cfg.title = rules.text(config.title.as_str());
        cfg.output = rules.text(config.output.as_str());
        let cmd = rules.strings(command);
        let c = Capture { format: FORMAT, command: cmd, config: cfg, shots };
        assert(c@.command =~= strings_view(command@).map_values(|s: Seq<char>| redacted(rules@, s)));
        assert(c@.config =~= redacted_config(config@, rules@));
        c
    }

    /// The frames of a capture with their times.
    pub fn frames(&self) -> (out: Vec<(Duration, Frame)>)
        ensures
            raw_view(out@) == replayed(self@.shots),
    {
        let ghost want = replayed(self@.shots);
        let mut out: Vec<(Duration, Frame)> = Vec::new();
        let mut i: usize = 0;
        while i < self.shots.len()
            invariant
                i <= self.shots.len(),
                want == replayed(self@.shots),
                raw_view(out@) == want.take(i as int),
            decreases self.shots.len() - i,
        {
            let ms = self.shots[i].at_ms;
            let at = Duration::from_millis(ms);
            let pair = (at, self.shots[i].frame.copy());
            out.push(pair);
            assert(raw_view(out@) == raw_view(out@.drop_last()).push((pair.0@, pair.1@)));
            assert(want.take(i + 1) == want.take(i as int).push(want[i as int]));
            i = i + 1;
        }
        assert(want.take(self.shots.len() as int) == want);
        out
    }

    /// Accepts a capture read back from a file: it must be of this layout's
    /// version and hold at least one frame.
    pub fn checked(self) -> (r: Result<Capture, String>)
        ensures
            self@.format != FORMAT ==> r is Err && r->Err_0@ == "capture is format "@
                + crate::chars::uint_text(self@.format as nat) + ", this build reads format 1"@,
            self@.format == FORMAT && self@.shots.len() == 0 ==> r is Err && r->Err_0@
                == "capture contains no frames"@,
            self@.format == FORMAT && self@.shots.len() > 0 ==> r is Ok && r->Ok_0@ == self@,
    {
        if self.format != FORMAT {
            let mut m = String::new();
            push_str(&mut m, "capture is format ");
            push_uint(&mut m, self.format as u64);
            push_str(&mut m, ", this build reads format 1");
            return Err(m);
        }
        if self.shots.len() == 0 {
            return Err("capture contains no frames".to_owned());
        }
        Ok(self)
    }
}

/// Changes a viewer of a saved capture asks for before it is drawn again:
/// each one given replaces the recorded setting.
pub struct Patch {
    pub theme: Option<String>,
    pub title: Option<String>,
    pub window: Option<bool>,
    pub padding: Option<Decimal>,
    pub font_size: Option<Decimal>,
    pub advance: Option<Decimal>,
    pub line_height: Option<Decimal>,
    pub speed: Option<Decimal>,
    pub trim_idle_ms: Option<u64>,
    pub tail_ms: Option<u64>,
    pub loop_forever: Option<bool>,
}

/// The slowest playback a patch can ask for: five hundredths of normal speed.
pub const SLOWEST: i64 = 50_000;

/// `ms` milliseconds in nanoseconds.
pub open spec fn millis_nanos(ms: u64) -> nat {
    (ms as nat) * 1_000_000
}

pub open spec fn text_given(v: Option<String>, keep: Seq<char>) -> Seq<char> {
    match v {
        Some(t) => t@,
        None => keep,
    }
}

pub open spec fn number_given(v: Option<Decimal>, keep: int) -> int {
    match v {
        Some(d) => d@,
        None => keep,
    }
}

/// Settings with a patch applied: every value given replaces the recorded
/// one; a speed is never below [`SLOWEST`]; an idle limit of zero turns
/// trimming off.
pub open spec fn patched(c: ConfigView, p: Patch) -> ConfigView {
    ConfigView {
        theme: text_given(p.theme, c.theme),
        title: text_given(p.title, c.title),
        window: match p.window {
            Some(b) => b,
            None => c.window,
        },
        padding: number_given(p.padding, c.padding),
        font_size: number_given(p.font_size, c.font_size),
        advance: number_given(p.advance, c.advance),
        line_height: number_given(p.line_height, c.line_height),
        speed: match p.speed {
            Some(d) => if d@ < SLOWEST {
                SLOWEST as int
            } else {
                d@
            },
            None => c.speed,
        },
        trim_idle: match p.trim_idle_ms {
            Some(ms) => if ms == 0 {
                None
            } else {
                Some(millis_nanos(ms))
            },
            None => c.trim_idle,
        },
        tail: match p.tail_ms {
            Some(ms) => millis_nanos(ms),
            None => c.tail,
        },
        loop_forever: match p.loop_forever {
            Some(b) => b,
            None => c.loop_forever,
        },
        ..c
    }
}

fn millis_span(ms: u64) -> (d: Duration)
    ensures
        d@ == millis_nanos(ms),
{
    Duration::from_millis(ms)
}

fn set_text(v: Option<String>, keep: &mut String)
    ensures
        final(keep)@ == text_given(v, old(keep)@),
{
    if let Some(t) = v {
        *keep = t;
    }
}

fn set_number(v: Option<Decimal>, keep: &mut Decimal)
    ensures
        final(keep)@ == number_given(v, old(keep)@),
{
    if let Some(d) = v {
        *keep = d;
    }
}

impl Patch {
    /// Applies the patch to settings, as [`patched`] says.
    pub fn apply(self, cfg: &mut Config)
        ensures
            final(cfg)@ == patched(old(cfg)@, self),
    {
        set_text(self.theme, &mut cfg.theme);
        set_text(self.title, &mut cfg.title);
        if let Some(b) = self.window {
            cfg.window = b;
        }
        set_number(self.padding, &mut cfg.padding);
        set_number(self.font_size, &mut cfg.font_size);
        set_number(self.advance, &mut cfg.advance);
        set_number(self.line_height, &mut cfg.line_height);
        if let Some(d) = self.speed {
            cfg.speed = if d.micros < SLOWEST {
                Decimal::from_micros(SLOWEST)
            } else {
                d
            };
        }
        if let Some(ms) = self.trim_idle_ms {
            cfg.trim_idle = if ms == 0 {
                None
            } else {
                Some(millis_span(ms))
            };
        }
        if let Some(ms) = self.tail_ms {
            cfg.tail = millis_span(ms);
        }
        if let Some(b) = self.loop_forever {
            cfg.loop_forever = b;
        }
    }
}

/// What a saved capture holds, in brief: its size, how many shots and how
/// long, the command, and the settings it is drawn with.
pub struct Info {
    pub cols: u16,
    pub rows: u16,
    pub shots: usize,
    pub duration_ms: u64,
    pub command: Vec<String>,
    pub theme: String,
    pub title: String,
    pub window: bool,
    pub padding: Decimal,
    pub font_size: Decimal,
    pub advance: Decimal,
    pub line_height: Decimal,
    pub speed: Decimal,
    pub trim_idle_ms: u64,
    pub tail_ms: u64,
    pub loop_forever: bool,
}

/// The brief of a capture: the time of its last shot (zero for none), its
/// idle limit in milliseconds (zero for none) and its tail in milliseconds,
/// and the rest as recorded.
pub fn inspect(capture: &Capture) -> (i: Info)
    ensures
        i.cols == capture@.config.cols,
        i.rows == capture@.config.rows,
        i.shots == capture@.shots.len(),
        i.duration_ms == if capture@.shots.len() > 0 {
            capture@.shots.last().0
        } else {
            0
        },
        strings_view(i.command@) == capture@.command,
        i.theme@ == capture@.config.theme,
        i.title@ == capture@.config.title,
        i.window == capture@.config.window,
        i.padding@ == capture@.config.padding,
        i.font_size@ == capture@.config.font_size,
        i.advance@ == capture@.config.advance,
        i.line_height@ == capture@.config.line_height,
        i.speed@ == capture@.config.speed,
        i.trim_idle_ms == match capture@.config.trim_idle {
            Some(d) => (d / 1_000_000) % 0x1_0000_0000_0000_0000,
            None => 0,
        },
        i.tail_ms == (capture@.config.tail / 1_000_000) % 0x1_0000_0000_0000_0000,
        i.loop_forever == capture@.config.loop_forever,
{
    let cfg = &capture.config;
    let n = capture.shots.len();
    let duration_ms = if n > 0 {
        capture.shots[n - 1].at_ms
    } else {
        0
    };
    let command = crate::tape::copy_strings(&capture.command);
    Info {
        cols: cfg.cols,
        rows: cfg.rows,
        shots: n,
        duration_ms,
        command,
        theme: cfg.theme.clone(),
        title: cfg.title.clone(),
        window: cfg.window,
        padding: cfg.padding,
        font_size: cfg.font_size,
        advance: cfg.advance,
        line_height: cfg.line_height,
        speed: cfg.speed,
        trim_idle_ms: match cfg.trim_idle {
            Some(d) => (d.as_millis() % 0x1_0000_0000_0000_0000) as u64,
            None => 0,
        },
        tail_ms: (cfg.tail.as_millis() % 0x1_0000_0000_0000_0000) as u64,
        loop_forever: cfg.loop_forever,
    }
}

/// No shot of a capture repeats the one before it.
pub proof fn law_no_repeated_shots(raw: Seq<(nat, FrameView)>, rules: Seq<RuleView>)
    ensures
        forall|i: int|
            0 <= i < kept_shots(raw, rules).len() - 1 ==> (#[trigger] kept_shots(raw, rules)[i]).1
                != kept_shots(raw, rules)[i + 1].1,
    decreases raw.len(),
{
    if raw.len() > 0 {
        law_no_repeated_shots(raw.drop_last(), rules);
        let before = kept_shots(raw.drop_last(), rules);
        let k = kept_shots(raw, rules);
        assert forall|i: int| 0 <= i < k.len() - 1 implies (#[trigger] k[i]).1 != k[i + 1].1 by {
            if k.len() == before.len() {
                assert(k == before);
            } else {
                assert(i + 1 < before.len() || i + 1 == before.len());
                if i + 1 < before.len() {
                    assert(k[i] == before[i] && k[i + 1] == before[i + 1]);
                }
            }
        }
    }
}

/// The shots of a capture are the recording, redacted and with repeats
/// dropped, at its times in whole milliseconds.
proof fn lemma_kept_is_dedup(raw: Seq<(nat, FrameView)>, rules: Seq<RuleView>)
    ensures
        kept_shots(raw, rules) == dedup(shots_redacted(raw, rules)).map_values(
            |p: (nat, FrameView)| ((p.0 / 1_000_000) % 0x1_0000_0000_0000_0000, p.1),
        ),
    decreases raw.len(),
{
    let r = shots_redacted(raw, rules);
    let d = dedup(r);
    let m = d.map_values(|p: (nat, FrameView)| ((p.0 / 1_000_000) % 0x1_0000_0000_0000_0000, p.1));
    if raw.len() == 0 {
        assert(m =~= Seq::<(nat, FrameView)>::empty());
    } else {
        lemma_kept_is_dedup(raw.drop_last(), rules);
        assert(shots_redacted(raw.drop_last(), rules) =~= r.drop_last());
        let d0 = dedup(r.drop_last());
        let m0 = d0.map_values(|p: (nat, FrameView)| ((p.0 / 1_000_000) % 0x1_0000_0000_0000_0000, p.1));
        assert(m0.len() == d0.len());
        if d0.len() > 0 {
            assert(m0.last().1 == d0.last().1);
        }
        if d0.len() > 0 && d0.last().1 == r.last().1 {
            assert(d == d0);
        } else {
            assert(d == d0.push(r.last()));
            assert(m =~= m0.push(((raw.last().0 / 1_000_000) % 0x1_0000_0000_0000_0000, frame_redacted(rules, raw.last().1))));
        }
    }
}

/// Every frame that [`dedup`] keeps is one of the frames it was given.
proof fn lemma_dedup_from(s: Seq<(nat, FrameView)>)
    ensures
        forall|i: int| 0 <= i < dedup(s).len() ==> s.contains(#[trigger] dedup(s)[i]),
    decreases s.len(),
{
    if s.len() > 0 {
        lemma_dedup_from(s.drop_last());
        let d0 = dedup(s.drop_last());
        assert forall|i: int| 0 <= i < dedup(s).len() implies s.contains(#[trigger] dedup(s)[i]) by {
            if i < d0.len() {
                assert(dedup(s)[i] == d0[i]);
                assert(s.drop_last().contains(d0[i]));
                let j = choose|j: int| 0 <= j < s.drop_last().len() && s.drop_last()[j] == d0[i];
                assert(s[j] == d0[i]);
            } else {
                assert(dedup(s)[i] == s.last());
                assert(s[s.len() - 1] == s.last());
            }
        }
    }
}

/// Dropping repeats a second time drops nothing.
proof fn lemma_dedup_twice(s: Seq<(nat, FrameView)>)
    ensures
        dedup(dedup(s)) == dedup(s),
    decreases s.len(),
{
    if s.len() > 0 {
        lemma_dedup_twice(s.drop_last());
        let d0 = dedup(s.drop_last());
        if !(d0.len() > 0 && d0.last().1 == s.last().1) {
            assert(d0.push(s.last()).drop_last() == d0);
        }
    }
}

/// Re-rendering a capture matches rendering the recording live: played back,
/// the capture of a recording taken at whole milliseconds gives the same
/// timeline as the recording itself with its frames redacted by the same
/// rules, whatever the timing options, and so the same picture.
pub proof fn law_replay_matches_live(
    command: Seq<Seq<char>>,
    config: ConfigView,
    raw: Seq<(nat, FrameView)>,
    rules: Seq<RuleView>,
    o: OptionsView,
)
    requires
        whole_millis(raw),
    ensures
        timeline_of(replayed(capture_of(command, config, raw, rules).shots), o) == timeline_of(
            shots_redacted(raw, rules),
            o,
        ),
{
    let r = shots_redacted(raw, rules);
    let d = dedup(r);
    lemma_kept_is_dedup(raw, rules);
    lemma_dedup_from(r);
    lemma_dedup_twice(r);
    let back = replayed(capture_of(command, config, raw, rules).shots);
    assert forall|i: int| 0 <= i < d.len() implies #[trigger] back[i] == d[i] by {
        assert(r.contains(d[i]));
        let j = choose|j: int| 0 <= j < r.len() && r[j] == d[i];
        assert(r[j].0 == raw[j].0);
        assert(raw[j].0 % 1_000_000 == 0 && raw[j].0 / 1_000_000 <= u64::MAX);
        let t = d[i].0;
        assert((t / 1_000_000) * 1_000_000 == t);
        assert((t / 1_000_000) % 0x1_0000_0000_0000_0000 == t / 1_000_000);
    }
    assert(back =~= d);
}

} // verus!
