use vstd::prelude::*;

use crate::number::Decimal;
use crate::tape::{Config, ConfigView};
use crate::time::Duration;

verus! {

broadcast use vstd::string::group_string_axioms;

/// A starting point for a recording: a size and a look that suit one use.
#[derive(Clone, Debug)]
pub struct Preset {
    pub name: String,
    pub about: String,
    pub cols: u16,
    pub rows: u16,
    pub padding: Decimal,
    pub font_size: Decimal,
    pub window: bool,
    pub trim_idle: Option<Duration>,
    pub tail: Duration,
    pub pause: Duration,
}

/// A preset, with its numbers as integers.
pub struct PresetView {
    pub name: Seq<char>,
    pub about: Seq<char>,
    pub cols: u16,
    pub rows: u16,
    pub padding: int,
    pub font_size: int,
    pub window: bool,
    pub trim_idle: Option<nat>,
    pub tail: nat,
    pub pause: nat,
}

impl View for Preset {
    type V = PresetView;

    open spec fn view(&self) -> PresetView {
        PresetView {
            name: self.name@,
            about: self.about@,
            cols: self.cols,
            rows: self.rows,
            padding: self.padding@,
            font_size: self.font_size@,
            window: self.window,
            trim_idle: match self.trim_idle {
                Some(d) => Some(d@),
                None => None,
            },
            tail: self.tail@,
            pause: self.pause@,
        }
    }
}

/// The presets, in the order they are offered.
pub open spec fn presets() -> Seq<PresetView> {
    seq![
        PresetView {
            name: "readme banner"@,
            about: "Wide and short, so it sits at the top of a README without pushing the text off screen. No window chrome, because a README already has a frame around it."@,
            cols: 90,
            rows: 20,
            padding: 18_000_000,
            font_size: 14_000_000,
            window: false,
            trim_idle: Some(1_000_000_000),
            tail: 2_000_000_000,
            pause: 1_200_000_000,
        },
        PresetView {
            name: "full screen app"@,
            about: "Tall and roomy for a TUI that paints the whole screen. Idle trimming is gentle, because a full screen app looks still while it is really waiting for you."@,
            cols: 100,
            rows: 30,
            padding: 16_000_000,
            font_size: 13_000_000,
            window: true,
            trim_idle: Some(1_500_000_000),
            tail: 2_500_000_000,
            pause: 2_500_000_000,
        },
        PresetView {
            name: "quick one liner"@,
            about: "One command, one answer, nothing else. Aggressive idle trimming keeps it under a few seconds so it reads as a screenshot that happens to move."@,
            cols: 76,
            rows: 12,
            padding: 16_000_000,
            font_size: 14_000_000,
            window: false,
            trim_idle: Some(600_000_000),
            tail: 1_500_000_000,
            pause: 1_000_000_000,
        },
        PresetView {
            name: "social preview"@,
            about: "Fewer columns and larger text, because timelines scale images down hard. Window chrome on, so it reads as a terminal at thumbnail size."@,
            cols: 72,
            rows: 18,
            padding: 26_000_000,
            font_size: 15_000_000,
            window: true,
            trim_idle: Some(800_000_000),
            tail: 2_500_000_000,
            pause: 1_500_000_000,
        },
    ]
}

/// Settings with a preset's size and look.
pub open spec fn applied(p: PresetView, c: ConfigView) -> ConfigView {
    ConfigView {
        cols: p.cols,
        rows: p.rows,
        padding: p.padding,
        font_size: p.font_size,
        window: p.window,
        trim_idle: p.trim_idle,
        tail: p.tail,
        ..c
    }
}

impl Preset {
    /// Gives `cfg` this preset's size and look, as [`applied`] says.
    pub fn apply(&self, cfg: &mut Config)
        ensures
            final(cfg)@ == applied(self@, old(cfg)@),
    {
        cfg.cols = self.cols;
        cfg.rows = self.rows;
        cfg.padding = self.padding;
        cfg.font_size = self.font_size;
        cfg.window = self.window;
        cfg.trim_idle = self.trim_idle;
        cfg.tail = self.tail;
    }
}

/// The presets, as [`presets`] lists them, with their names and descriptions.
pub fn all() -> (v: Vec<Preset>)
    ensures
        v@.map_values(|p: Preset| p@) == presets(),
{
    let mut v: Vec<Preset> = Vec::new();
    v.push(Preset {
        name: "readme banner".to_owned(),
        about: "Wide and short, so it sits at the top of a README without pushing the text off screen. No window chrome, because a README already has a frame around it.".to_owned(),
        cols: 90,
        rows: 20,
        padding: Decimal::from_int(18),
        font_size: Decimal::from_int(14),
        window: false,
        trim_idle: Some(Duration::from_millis(1000)),
        tail: Duration::from_millis(2000),
        pause: Duration::from_millis(1200),
    });
    v.push(Preset {
        name: "full screen app".to_owned(),
        about: "Tall and roomy for a TUI that paints the whole screen. Idle trimming is gentle, because a full screen app looks still while it is really waiting for you.".to_owned(),
        cols: 100,
        rows: 30,
        padding: Decimal::from_int(16),
        font_size: Decimal::from_int(13),
        window: true,
        trim_idle: Some(Duration::from_millis(1500)),
        tail: Duration::from_millis(2500),
        pause: Duration::from_millis(2500),
    });
    v.push(Preset {
        name: "quick one liner".to_owned(),
        about: "One command, one answer, nothing else. Aggressive idle trimming keeps it under a few seconds so it reads as a screenshot that happens to move.".to_owned(),
        cols: 76,
        rows: 12,
        padding: Decimal::from_int(16),
        font_size: Decimal::from_int(14),
        window: false,
        trim_idle: Some(Duration::from_millis(600)),
        tail: Duration::from_millis(1500),
        pause: Duration::from_millis(1000),
    });
    v.push(Preset {
        name: "social preview".to_owned(),
        about: "Fewer columns and larger text, because timelines scale images down hard. Window chrome on, so it reads as a terminal at thumbnail size.".to_owned(),
        cols: 72,
        rows: 18,
        padding: Decimal::from_int(26),
        font_size: Decimal::from_int(15),
        window: true,
        trim_idle: Some(Duration::from_millis(800)),
        tail: Duration::from_millis(2500),
        pause: Duration::from_millis(1500),
    });
    assert(v@.map_values(|p: Preset| p@) == presets());
    v
}

/// One preset, as [`presets`] lists it.
pub fn get(index: usize) -> (p: Preset)
    requires
        index < 4,
    ensures
        p@ == presets()[index as int],
{
    let mut v = all();
    assert(v@.map_values(|p: Preset| p@).len() == v@.len());
    assert(v@.map_values(|p: Preset| p@)[index as int] == v@[index as int]@);
    v.swap_remove(index)
}

} // verus!
