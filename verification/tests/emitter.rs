use ttysvg::number::Decimal;
use ttysvg::optimize::{optimize, Options};
use ttysvg::svg::theme::{Palette, Theme};
use ttysvg::svg::{render, RenderOpts};
use ttysvg::term::{self, Frame};
use ttysvg::time::Duration;

const COLS: u16 = 24;
const ROWS: u16 = 4;

fn capture(chunks: &[(u64, &str)]) -> Vec<(Duration, Frame)> {
    let mut parser = vt100::Parser::new(ROWS, COLS, 0);
    let mut out = vec![(Duration::zero(), Frame::blank(ROWS))];
    for (ms, text) in chunks {
        parser.process(text.as_bytes());
        out.push((Duration::from_millis(*ms), term::snapshot(parser.screen())));
    }
    out
}

fn theme() -> Theme {
    Theme {
        name: "test".into(),
        dark: Palette {
            fg: "#c0caf5".into(),
            bg: "#1a1b26".into(),
            cursor: None,
            chrome: None,
            border: None,
            buttons: None,
            ansi: vec!["#414868".to_string(); 16],
        },
        light: None,
    }
}

fn opts() -> RenderOpts {
    RenderOpts {
        theme: theme(),
        font_family: "monospace".into(),
        font_size: Decimal::new(14, 0),
        advance: Decimal::new(0, 0),
        line_height: Decimal::new(0, 0),
        padding: Decimal::new(10, 0),
        window: false,
        title: String::new(),
        cols: COLS,
        rows: ROWS,
        loop_forever: true,
        literal: None,
    }
    .with_metrics()
}

#[test]
fn renders_colors_attributes_and_escapes() {
    let raw = capture(&[
        (100, "\x1b[32mgreen\x1b[0m plain\r\n"),
        (200, "\x1b[1;31mbold red\x1b[0m\r\n"),
        (300, "a & b < c > d\r\n"),
        (400, "\x1b[44mon blue\x1b[0m"),
    ]);
    let tl = optimize(&raw, &Options::default());
    let svg = render(&tl, &opts());
    assert!(svg.starts_with("<svg xmlns=\"http://www.w3.org/2000/svg\" width=\"221.6\" height=\"93.92\""));
    assert!(svg.contains("fill=\"var(--c2)\">green</tspan>"));
    assert!(svg.contains("class=\"b\">bold red</tspan>"));
    assert!(svg.contains(">a &amp; b &lt; c &gt; d</tspan>"));
    assert!(svg.contains("fill=\"var(--c4)\" shape-rendering=\"crispEdges\"/>"));
    assert!(svg.contains("@keyframes tsroll{"));
    assert!(svg.ends_with("</g></g></g></svg>"));
}

#[test]
fn single_frame_emits_no_animation() {
    let raw = capture(&[(100, "static")]);
    let mut o = Options::default();
    o.min_frame = Duration::from_secs(10);
    let tl = optimize(&raw, &o);
    let svg = render(&tl, &opts());
    assert_eq!(tl.len(), 1);
    assert!(!svg.contains("@keyframes"));
}

#[test]
fn identical_frames_collapse() {
    let raw = capture(&[(100, "same"), (2000, ""), (4000, "")]);
    let tl = optimize(&raw, &Options::default());
    assert_eq!(tl.len(), 2);
}

#[test]
fn idle_gaps_are_clamped() {
    let raw = capture(&[(100, "a"), (30_000, "b")]);
    let mut o = Options::default();
    o.trim_idle = Some(Duration::from_millis(500));
    o.tail = Duration::zero();
    let tl = optimize(&raw, &o);
    assert!(tl.total.shorter_than(&Duration::from_millis(1200)), "{:?}", tl.total);
}

#[test]
fn speed_scales_the_timeline() {
    let raw = capture(&[(100, "a"), (1000, "b")]);
    let mut base_opts = Options::default();
    base_opts.trim_idle = None;
    base_opts.tail = Duration::zero();
    let base = optimize(&raw, &base_opts);
    let mut fast_opts = base_opts;
    fast_opts.speed = Decimal::new(2, 0);
    let fast = optimize(&raw, &fast_opts);
    assert!(fast.total.shorter_than(&base.total));
}

#[test]
fn trailing_padding_is_not_emitted() {
    let raw = capture(&[(100, "hi")]);
    let svg = render(&optimize(&raw, &Options::default()), &opts());
    assert!(!svg.contains("hi   "), "trailing spaces leaked into output");
}

#[test]
fn a_snapshot_gathers_styled_cells_into_runs() {
    let mut parser = vt100::Parser::new(2, 10, 0);
    parser.process(b"\x1b[31mab\x1b[0mcd\x1b[32;7mX\x1b[0m");
    let f = term::snapshot(parser.screen());
    assert_eq!(f.rows.len(), 2);
    let runs = &f.rows[0].runs;
    assert_eq!(runs.len(), 3);
    assert_eq!(runs[0].text, "ab");
    assert_eq!(runs[0].style.fg, term::Color::Idx(1));
    assert_eq!(runs[1].text, "cd");
    assert_eq!(runs[1].col, 2);
    assert_eq!(runs[2].text, "X");
    assert_eq!(runs[2].style.bg, term::Color::Idx(2));
    assert_eq!(runs[2].style.fg, term::Color::Default);
    assert!(f.rows[1].runs.is_empty());
    assert_eq!(f.cursor, Some((0, 5)));
}

#[test]
fn huge_sizes_are_drawn_exactly() {
    let mut o = opts();
    o.font_size = Decimal::from_micros(1_000_000_000_000_000_000);
    o.advance = Decimal::new(0, 0);
    o.line_height = Decimal::new(0, 0);
    let o = o.with_metrics();
    assert_eq!(o.advance.micros, 600_000_000_000_000_000);
    assert_eq!(o.line_height.micros, 1_320_000_000_000_000_000);
    let raw = capture(&[(100, "one"), (900, " two")]);
    let tl = optimize(&raw, &Options::default());
    let svg = render(&tl, &o);
    assert!(svg.starts_with(
        "<svg xmlns=\"http://www.w3.org/2000/svg\" width=\"14400000000020\" height=\"5280000000020\""
    ));
    assert!(svg.contains("<g transform=\"translate(0,5280000000000)\">"));
    assert!(svg.ends_with("</svg>"));
}

#[test]
fn a_line_height_beyond_a_decimal_is_held_at_the_largest() {
    let mut o = opts();
    o.font_size = Decimal::from_micros(i64::MAX);
    o.advance = Decimal::new(0, 0);
    o.line_height = Decimal::new(0, 0);
    let o = o.with_metrics();
    assert_eq!(o.line_height.micros, i64::MAX);
    assert_eq!(o.advance.micros, (i64::MAX as i128 * 6 / 10) as i64);
    let tl = optimize(&capture(&[(100, "x")]), &Options::default());
    assert!(render(&tl, &o).ends_with("</svg>"));
}

#[test]
fn a_snapshot_is_kept_only_when_it_changes() {
    let mut frames = vec![(Duration::zero(), Frame::blank(ROWS))];
    ttysvg::capture::driver::keep_if_changed(&mut frames, Duration::from_millis(5), Frame::blank(ROWS));
    assert_eq!(frames.len(), 1);
    let other = capture(&[(10, "changed")]).pop().unwrap().1;
    ttysvg::capture::driver::keep_if_changed(&mut frames, Duration::from_millis(10), other);
    assert_eq!(frames.len(), 2);
    assert_eq!(frames[1].0, Duration::from_millis(10));
}
