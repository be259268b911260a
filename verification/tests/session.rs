use ttysvg::emit::{opts, timeline};
use ttysvg::redact::Rules;
use ttysvg::svg::render;
use ttysvg::svg::theme::{Palette, Theme};
use ttysvg::number::Decimal;
use ttysvg::session::{inspect, Capture, Patch, FORMAT};
use ttysvg::tape::Config;
use ttysvg::term::{Color, Frame, Row, Run, Style};
use ttysvg::time::Duration;

fn run(text: &str, style: Style) -> Run {
    Run {
        col: 0,
        width: text.chars().count() as u16,
        text: text.to_string(),
        style,
    }
}

fn frame(text: &str, style: Style) -> Frame {
    Frame {
        rows: vec![Row {
            runs: vec![run(text, style)],
        }],
        cursor: Some((0, 4)),
    }
}

fn styled() -> Style {
    Style {
        fg: Color::Idx(4),
        bg: Color::Rgb(10, 20, 30),
        bold: true,
        italic: false,
        underline: true,
    }
}

fn raw() -> Vec<(Duration, Frame)> {
    vec![
        (Duration::from_millis(0), frame("boot", Style::plain())),
        (Duration::from_millis(120), frame("boot", Style::plain())),
        (Duration::from_millis(400), frame("done", styled())),
    ]
}

fn config() -> Config {
    let mut c = Config::default();
    c.cols = 12;
    c.rows = 1;
    c.theme = "nord".into();
    c.title = "capture".into();
    c.window = true;
    c
}

#[test]
fn identical_neighbours_are_dropped_on_save() {
    let capture = Capture::new(&[], &config(), &raw(), &Rules::default());
    assert_eq!(capture.shots.len(), 2);
    assert_eq!(capture.shots[0].at_ms, 0);
    assert_eq!(capture.shots[1].at_ms, 400);
}

#[test]
fn styles_survive_the_trip() {
    let capture = Capture::new(&[], &config(), &raw(), &Rules::default());
    let back = capture.checked().unwrap();
    let last = &back.shots[1].frame.rows[0].runs[0];

    assert_eq!(last.text, "done");
    assert_eq!(last.style, styled());
    assert_eq!(back.shots[1].frame.cursor, Some((0, 4)));
}

#[test]
fn a_capture_keeps_its_command_and_settings() {
    let cfg = config();
    let capture = Capture::new(&["glowfetch".to_string()], &cfg, &raw(), &Rules::default());
    assert_eq!(capture.format, FORMAT);
    assert_eq!(capture.command, vec!["glowfetch"]);
    assert_eq!(capture.config.cols, 12);
    assert_eq!(capture.config.theme, "nord");
    assert!(capture.config.window);
    let frames = capture.frames();
    assert_eq!(frames.len(), 2);
    assert_eq!(frames[1].0, Duration::from_millis(400));
    assert_eq!(frames[1].1, frame("done", styled()));
}

#[test]
fn a_wrong_format_is_rejected() {
    let mut capture = Capture::new(&[], &config(), &raw(), &Rules::default());
    capture.format = 99;
    let err = capture.checked().unwrap_err();
    assert!(err.contains("format 99"), "{err}");
}

#[test]
fn an_empty_capture_is_rejected() {
    let capture = Capture::new(&[], &config(), &[], &Rules::default());
    let err = capture.checked().unwrap_err();
    assert!(err.contains("no frames"), "{err}");
}

#[test]
fn times_are_kept_in_whole_milliseconds() {
    let raw = vec![(Duration::from_nanos(1_999_999), frame("x", Style::plain()))];
    let capture = Capture::new(&[], &config(), &raw, &Rules::default());
    assert_eq!(capture.shots[0].at_ms, 1);
}

fn theme(name: &str, fg: &str, bg: &str) -> Theme {
    Theme {
        name: name.into(),
        dark: Palette {
            fg: fg.into(),
            bg: bg.into(),
            cursor: None,
            chrome: None,
            border: None,
            buttons: None,
            ansi: vec!["#445566".to_string(); 16],
        },
        light: None,
    }
}

fn svg_of(cfg: &Config, frames: &[(Duration, Frame)], theme: Theme) -> String {
    render(&timeline(frames, cfg), &opts(cfg, theme))
}

#[test]
fn re_rendering_a_capture_matches_rendering_it_live() {
    let cfg = config();
    let nord = theme("nord", "#d8dee9", "#2e3440");
    let live = svg_of(&cfg, &raw(), nord.clone());

    let capture = Capture::new(&[], &cfg, &raw(), &Rules::default());
    let back = capture.checked().unwrap();
    let rerendered = svg_of(&back.config, &back.frames(), nord);

    assert_eq!(live, rerendered);
}

#[test]
fn overriding_the_theme_changes_only_the_palette() {
    let capture = Capture::new(&[], &config(), &raw(), &Rules::default());
    let before = svg_of(&capture.config, &capture.frames(), theme("nord", "#d8dee9", "#2e3440"));
    let after = svg_of(&capture.config, &capture.frames(), theme("gruvbox", "#ebdbb2", "#282828"));

    assert_ne!(before, after);
    assert_eq!(before.matches("<text").count(), after.matches("<text").count());
}

fn no_patch() -> Patch {
    Patch {
        theme: None,
        title: None,
        window: None,
        padding: None,
        font_size: None,
        advance: None,
        line_height: None,
        speed: None,
        trim_idle_ms: None,
        tail_ms: None,
        loop_forever: None,
    }
}

#[test]
fn a_patch_replaces_what_it_gives_and_keeps_speed_above_a_floor() {
    let mut cfg = config();
    let mut patch = no_patch();
    patch.theme = Some("gruvbox".into());
    patch.speed = Some(Decimal::new(1, 2));
    patch.trim_idle_ms = Some(0);
    patch.tail_ms = Some(750);
    patch.window = Some(false);
    patch.apply(&mut cfg);

    assert_eq!(cfg.theme, "gruvbox");
    assert_eq!(cfg.speed, Decimal::new(5, 2));
    assert_eq!(cfg.trim_idle, None);
    assert_eq!(cfg.tail, Duration::from_millis(750));
    assert!(!cfg.window);
    assert_eq!(cfg.title, "capture");
    assert_eq!(cfg.cols, 12);
}

#[test]
fn an_idle_limit_in_a_patch_is_in_milliseconds() {
    let mut cfg = config();
    let mut patch = no_patch();
    patch.trim_idle_ms = Some(400);
    patch.speed = Some(Decimal::new(2, 0));
    patch.apply(&mut cfg);
    assert_eq!(cfg.trim_idle, Some(Duration::from_millis(400)));
    assert_eq!(cfg.speed, Decimal::new(2, 0));
}

#[test]
fn the_brief_of_a_capture_names_its_size_and_length() {
    let capture = Capture::new(&["demo".to_string()], &config(), &raw(), &Rules::default());
    let info = inspect(&capture);
    assert_eq!(info.cols, 12);
    assert_eq!(info.rows, 1);
    assert_eq!(info.shots, 2);
    assert_eq!(info.duration_ms, 400);
    assert_eq!(info.command, vec!["demo"]);
    assert_eq!(info.theme, "nord");
    assert_eq!(info.trim_idle_ms, 1000);
    assert_eq!(info.tail_ms, 2000);
}
