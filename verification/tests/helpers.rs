use ttysvg::capture::driver::{steps, Move};
use ttysvg::emit::{beside, human_size, merge_privacy, plain, raster_jobs, timeline, Kind};
use ttysvg::number::Decimal;
use ttysvg::svg::text::{escape, num, pct};
use ttysvg::tape::parse::trim_setting;
use ttysvg::tape::{Config, Key, Op};
use ttysvg::term::{Color, Frame, Row, Run, Style};
use ttysvg::time::Duration;
use ttysvg::ui::preview::sample;

fn run(col: u16, text: &str) -> Run {
    Run {
        col,
        width: text.chars().count() as u16,
        text: text.to_string(),
        style: Style::plain(),
    }
}

#[test]
fn escaping_turns_markup_into_entities() {
    assert_eq!(escape("a & b < c > \"d\""), "a &amp; b &lt; c &gt; &quot;d&quot;");
    assert_eq!(escape("tab\there\u{1b}x"), "tab\there x");
}

#[test]
fn numbers_are_written_to_the_hundredth() {
    assert_eq!(num(Decimal::new(84, 1)), "8.4");
    assert_eq!(num(Decimal::new(12345, 3)), "12.35");
    assert_eq!(num(Decimal::new(-12345, 3)), "-12.35");
    assert_eq!(num(Decimal::new(20, 0)), "20");
    assert_eq!(num(Decimal::new(-1, 3)), "0");
    assert_eq!(pct(Decimal::new(333333, 4)), "33.333");
    assert_eq!(pct(Decimal::new(100, 0)), "100");
}

#[test]
fn sizes_are_written_for_people() {
    assert_eq!(human_size(0), "0 B");
    assert_eq!(human_size(1023), "1023 B");
    assert_eq!(human_size(1024), "1.0 KB");
    assert_eq!(human_size(1280), "1.2 KB");
    assert_eq!(human_size(1536), "1.5 KB");
    assert_eq!(human_size(75_878), "74.1 KB");
    assert_eq!(human_size(3 * 1024 * 1024), "3.0 MB");
}

#[test]
fn a_frame_becomes_plain_text() {
    let f = Frame {
        rows: vec![
            Row { runs: vec![run(0, "$"), run(2, "ls  ")] },
            Row { runs: vec![run(3, "a very long line of output")] },
            Row { runs: vec![] },
            Row { runs: vec![] },
        ],
        cursor: None,
    };
    assert_eq!(plain(&f, 10), "$ ls\n   a very\n");
}

#[test]
fn a_second_palette_goes_beside_the_first() {
    assert_eq!(beside("out/demo.png", "light"), "out/demo-light.png");
    assert_eq!(beside("demo", "light"), "demo-light");
}

#[test]
fn bitmaps_are_asked_for_in_order_with_their_light_twins() {
    let jobs = raster_jobs(&Some("a.png".into()), &None, &Some("c.webp".into()), &None, false, true);
    assert_eq!(jobs.len(), 4);
    assert_eq!(jobs[0].path, "a.png");
    assert_eq!(jobs[0].kind, Kind::Png);
    assert!(!jobs[0].light);
    assert_eq!(jobs[1].path, "a-light.png");
    assert!(jobs[1].light);
    assert_eq!(jobs[2].kind, Kind::Webp);
    assert!(jobs[3].kind.animated());
    assert!(!Kind::Png.animated());
}

#[test]
fn privacy_flags_add_to_the_settings() {
    let mut cfg = Config::default();
    cfg.redact = vec!["a".into()];
    merge_privacy(&mut cfg, &["b".to_string()], true);
    assert_eq!(cfg.redact, vec!["a", "b"]);
    assert!(cfg.sanitize);
    merge_privacy(&mut cfg, &[], false);
    assert!(cfg.sanitize);
}

#[test]
fn idle_limits_read_off_and_spans() {
    assert_eq!(trim_setting("OFF"), Ok(None));
    assert_eq!(trim_setting("none"), Ok(None));
    assert_eq!(trim_setting("700ms"), Ok(Some(Duration::from_millis(700))));
    assert!(trim_setting("soon").is_err());
}

#[test]
fn keys_become_the_bytes_a_terminal_sends() {
    assert_eq!(Key::Enter.bytes(), b"\r".to_vec());
    assert_eq!(Key::Up.bytes(), b"\x1b[A".to_vec());
    assert_eq!(Key::Ctrl('c').bytes(), vec![3u8]);
    assert_eq!(Key::Ctrl('Z').bytes(), vec![26u8]);
    assert!(Key::Ctrl('1').bytes().is_empty());
}

#[test]
fn a_tape_becomes_keystrokes_and_waits() {
    let ops = vec![
        Op::Type("hi".into()),
        Op::Key(Key::Enter),
        Op::Wait { text: "$".into(), timeout: Duration::from_secs(5) },
    ];
    let delay = Duration::from_millis(50);
    let s = steps(&ops, delay);
    assert_eq!(s.len(), 6);
    assert!(matches!(s[0], Move::Char('h')));
    assert!(matches!(s[1], Move::Sleep(d) if d == delay));
    assert!(matches!(s[2], Move::Char('i')));
    assert!(matches!(&s[4], Move::Send(b) if b == &vec![13u8]));
    assert!(matches!(&s[5], Move::Wait(t, d) if t == "$" && *d == Duration::from_secs(5)));
    assert_eq!(steps(&ops, Duration::zero()).len(), 4);
}

#[test]
fn settings_give_a_timeline() {
    let mut cfg = Config::default();
    cfg.tail = Duration::from_millis(500);
    let f = Frame::blank(1);
    let raw = vec![(Duration::zero(), f)];
    let tl = timeline(&raw, &cfg);
    assert_eq!(tl.len(), 1);
    assert_eq!(tl.total, Duration::from_millis(500));
}

#[test]
fn the_sample_frame_shows_a_prompt_and_the_tool_at_work() {
    let f = sample();
    assert_eq!(f.rows.len(), 5);
    assert_eq!(f.rows[0].runs[1].text, "ttysvg build examples/banner.tape");
    assert_eq!(f.rows[2].runs[5].text, "74.1 KB");
    assert_eq!(f.rows[2].runs[5].style.fg, Color::Idx(3));
    assert!(f.rows[3].runs.is_empty());
    assert_eq!(f.rows[4].runs[1].width, 1);
    assert_eq!(f.cursor, None);
}

#[test]
fn a_restyle_replaces_only_what_it_names() {
    let mut cfg = Config::default();
    cfg.title = "recorded".into();
    cfg.window = true;
    let changes = ttysvg::emit::Restyle {
        theme: Some("nord".into()),
        font: None,
        font_size: Some(Decimal::new(16, 0)),
        advance: None,
        line_height: None,
        padding: None,
        trim_idle: Some(None),
        speed: None,
        tail: Some(Duration::from_millis(500)),
        title: None,
        window: false,
        no_window: true,
        no_loop: true,
    };
    ttysvg::emit::restyle(&mut cfg, &changes);
    assert_eq!(cfg.theme, "nord");
    assert_eq!(cfg.font_size, Decimal::new(16, 0));
    assert_eq!(cfg.trim_idle, None);
    assert_eq!(cfg.tail, Duration::from_millis(500));
    assert_eq!(cfg.title, "recorded");
    assert!(!cfg.window);
    assert!(!cfg.loop_forever);
    assert_eq!(cfg.padding, Config::default().padding);
    assert_eq!(cfg.speed, Config::default().speed);
}

#[test]
fn an_empty_restyle_keeps_the_recorded_settings() {
    let mut cfg = Config::default();
    cfg.window = true;
    cfg.title = "kept".into();
    let changes = ttysvg::emit::Restyle {
        theme: None,
        font: None,
        font_size: None,
        advance: None,
        line_height: None,
        padding: None,
        trim_idle: None,
        speed: None,
        tail: None,
        title: None,
        window: false,
        no_window: false,
        no_loop: false,
    };
    ttysvg::emit::restyle(&mut cfg, &changes);
    assert!(cfg.window);
    assert!(cfg.loop_forever);
    assert_eq!(cfg.title, "kept");
    assert_eq!(cfg.theme, Config::default().theme);
}

#[test]
fn a_capture_is_drawn_beside_itself() {
    assert_eq!(ttysvg::emit::svg_path("rec/demo.json"), "rec/demo.svg");
    assert_eq!(ttysvg::emit::svg_path("demo"), "demo.svg");
}
