use ttysvg::number::Decimal;
use ttysvg::optimize::Timeline;
use ttysvg::svg::theme::{builtin_buttons, paint, rgb, split_pair, xterm256, Palette, Theme};
use ttysvg::svg::{render, RenderOpts};
use ttysvg::term::{Color, Frame, Row, Run, Style};
use ttysvg::time::Duration;

fn ansi(c: &str) -> Vec<String> {
    vec![c.to_string(); 16]
}

fn palette(fg: &str, bg: &str) -> Palette {
    Palette {
        fg: fg.into(),
        bg: bg.into(),
        cursor: None,
        chrome: None,
        border: None,
        buttons: None,
        ansi: ansi("#123456"),
    }
}

fn dark_only() -> Theme {
    Theme {
        name: "dark-only".into(),
        dark: palette("#eeeeee", "#111111"),
        light: None,
    }
}

fn with_slots() -> Theme {
    let mut dark = palette("#eeeeee", "#111111");
    dark.cursor = Some("#ff0000".into());
    dark.chrome = Some("#222222".into());
    dark.border = Some("#333333".into());
    dark.buttons = Some(vec!["#aa0000".into(), "#00aa00".into(), "#0000aa".into()]);
    Theme {
        name: "slots".into(),
        dark,
        light: Some(palette("#111111", "#fafafa")),
    }
}

fn opts(theme: Theme) -> RenderOpts {
    RenderOpts {
        theme,
        font_family: "monospace".into(),
        font_size: Decimal::new(14, 0),
        advance: Decimal::new(0, 0),
        line_height: Decimal::new(0, 0),
        padding: Decimal::new(10, 0),
        window: true,
        title: "demo".into(),
        cols: 10,
        rows: 2,
        loop_forever: true,
        literal: None,
    }
    .with_metrics()
}

fn one_frame() -> Timeline {
    Timeline {
        frames: vec![Frame::blank(2)],
        starts: vec![Duration::zero()],
        total: Duration::from_millis(10),
    }
}

#[test]
fn a_theme_without_a_light_variant_falls_back_to_dark() {
    let theme = dark_only();
    assert!(!theme.has_light());
    assert_eq!(theme.light().bg, theme.dark.bg);
}

#[test]
fn a_dark_only_theme_emits_no_light_switch() {
    let svg = render(&one_frame(), &opts(dark_only()));
    assert!(!svg.contains("prefers-color-scheme"));
    assert!(svg.contains("--bg:#111111"));
}

#[test]
fn a_theme_with_a_light_palette_switches_with_the_scheme() {
    let svg = render(&one_frame(), &opts(with_slots()));
    assert!(svg.contains("@media(prefers-color-scheme:light){:root{--bg:#fafafa"));
    assert!(svg.contains(":root[data-theme=\"dark\"]{--bg:#111111"));
}

#[test]
fn two_themes_can_be_paired() {
    let theme = Theme::paired(dark_only(), with_slots());
    assert_eq!(theme.name, "dark-only,slots");
    assert_eq!(theme.dark.bg, "#111111");
    assert_eq!(theme.light().bg, "#fafafa");
}

#[test]
fn a_pair_can_name_its_slots_in_either_order() {
    assert_eq!(
        split_pair("light=github,dark=dracula"),
        Some(("dracula".to_string(), "github".to_string()))
    );
    assert_eq!(
        split_pair("dracula,github"),
        Some(("dracula".to_string(), "github".to_string()))
    );
    assert_eq!(
        split_pair(" DARK = nord , light=github"),
        Some(("nord".to_string(), "github".to_string()))
    );
    assert_eq!(split_pair("nord"), None);
    assert_eq!(split_pair("a,b,c"), None);
    assert_eq!(split_pair("dusk=a,light=b"), None);
    assert_eq!(split_pair("dark=a,dark=b"), None);
}

#[test]
fn pairing_with_a_dark_only_theme_borrows_its_dark_palette() {
    let theme = Theme::paired(with_slots(), dark_only());
    assert_eq!(theme.light().bg, dark_only().dark.bg);
}

#[test]
fn the_extra_palette_slots_reach_the_svg() {
    let svg = render(&one_frame(), &opts(with_slots()));
    assert!(svg.contains("--cur:#ff0000;"));
    assert!(svg.contains("--chrome:#222222;"));
    assert!(svg.contains("--border:#333333;"));
    assert!(svg.contains("--btn0:#aa0000;"));
    assert!(svg.contains("fill=\"var(--btn1)\""));
    assert!(svg.contains("stroke=\"var(--border)\""));
}

#[test]
fn a_theme_without_the_extra_slots_renders_as_it_always_did() {
    let svg = render(&one_frame(), &opts(dark_only()));
    assert!(!svg.contains("--cur:"));
    assert!(!svg.contains("--chrome:"));
    assert!(!svg.contains("--border"));
    assert!(svg.contains("fill=\"#ff5f57\""));
    assert!(svg.contains(".cur{fill:var(--fg);opacity:.7}"));
}

#[test]
fn a_literal_render_inlines_the_extra_slots_too() {
    let mut o = opts(with_slots());
    o.literal = Some(o.theme.dark.clone());
    let svg = render(&one_frame(), &o);
    assert!(!svg.contains("var(--"));
    assert!(svg.contains(".cur{fill:#ff0000;opacity:.7}"));
    assert!(svg.contains("fill=\"#222222\""));
    assert!(svg.contains("fill=\"#aa0000\""));
}

#[test]
fn a_palette_falls_back_before_it_fails() {
    let p = palette("#eeeeee", "#111111");
    assert_eq!(p.cursor(), p.fg);
    assert_eq!(p.chrome(), p.bg);
    assert_eq!(p.border(), p.bg);
    assert_eq!(p.buttons(), builtin_buttons());
    let mut two = p.clone();
    two.buttons = Some(vec!["#000000".into(), "#111111".into()]);
    assert_eq!(two.buttons(), builtin_buttons());
}

#[test]
fn colors_must_look_like_colors() {
    assert_eq!(rgb("#1a2b3c"), Some((0x1a, 0x2b, 0x3c)));
    assert_eq!(rgb("#1A2B3C"), Some((0x1a, 0x2b, 0x3c)));
    assert_eq!(rgb("1a2b3c"), None);
    assert_eq!(rgb("#abc"), None);
    assert_eq!(rgb("#gggggg"), None);
}

#[test]
fn a_broken_theme_is_rejected_with_a_reason() {
    let mut theme = dark_only();
    theme.dark.ansi = vec!["#ffffff".into()];
    let err = theme.validate().unwrap_err();
    assert!(err.contains("16 ansi colors"), "{err}");
    assert_eq!(err, "theme \"dark-only\": dark palette needs 16 ansi colors, found 1");

    theme.dark.ansi = ansi("nope");
    let err = theme.validate().unwrap_err();
    assert!(err.contains("#rrggbb"), "{err}");
    assert_eq!(err, "theme \"dark-only\": dark palette has \"nope\", expected #rrggbb");

    let mut theme = with_slots();
    theme.light.as_mut().unwrap().buttons = Some(vec!["#000000".into()]);
    let err = theme.validate().unwrap_err();
    assert_eq!(err, "theme \"slots\": light palette needs 3 buttons, found 1");
    assert!(with_slots().validate().is_ok());
}

#[test]
fn the_built_in_names_are_offered_in_order() {
    let names = Theme::names();
    assert_eq!(names.len(), 16);
    assert_eq!(names[0], "tokyonight");
    assert_eq!(names[15], "github");
}

#[test]
fn the_256_color_palette_is_written_out() {
    assert_eq!(xterm256(3), "var(--c3)");
    assert_eq!(xterm256(16), "#000000");
    assert_eq!(xterm256(196), "#ff0000");
    assert_eq!(xterm256(231), "#ffffff");
    assert_eq!(xterm256(232), "#080808");
    assert_eq!(xterm256(255), "#eeeeee");
}

#[test]
fn colors_are_painted_as_variables_or_literally() {
    let p = palette("#eeeeee", "#111111");
    assert_eq!(paint(Color::Default, "bg", None), "var(--bg)");
    assert_eq!(paint(Color::Idx(9), "fg", None), "var(--c9)");
    assert_eq!(paint(Color::Idx(200), "fg", None), "#ff00d7");
    assert_eq!(paint(Color::Rgb(1, 2, 255), "fg", None), "#0102ff");
    assert_eq!(paint(Color::Default, "bg", Some(&p)), "#111111");
    assert_eq!(paint(Color::Default, "fg", Some(&p)), "#eeeeee");
    assert_eq!(paint(Color::Idx(9), "fg", Some(&p)), "#123456");
    assert_eq!(paint(Color::Idx(16), "fg", Some(&p)), "#000000");
}

fn text_timeline() -> Timeline {
    let style = Style {
        fg: Color::Idx(2),
        bg: Color::Idx(4),
        bold: false,
        italic: false,
        underline: false,
    };
    let frame = Frame {
        rows: vec![
            Row {
                runs: vec![Run { col: 0, width: 5, text: "hello".into(), style }],
            },
            Row { runs: vec![] },
        ],
        cursor: Some((1, 0)),
    };
    Timeline {
        frames: vec![frame],
        starts: vec![Duration::zero()],
        total: Duration::from_millis(10),
    }
}

#[test]
fn a_literal_palette_leaves_no_css_variables() {
    let plain = render(&text_timeline(), &opts(with_slots()));
    assert!(plain.contains("var(--"), "the normal path uses css variables");

    let mut flat = opts(with_slots());
    flat.literal = Some(flat.theme.dark.clone());
    let literal = render(&text_timeline(), &flat);

    assert!(
        !literal.contains("var(--"),
        "a literal render must not leave css variables, resvg cannot resolve them"
    );
    assert!(!literal.contains("prefers-color-scheme"));
    assert!(literal.contains(&opts(with_slots()).theme.dark.bg));
}

#[test]
fn spaces_round_paired_names_do_not_count() {
    assert_eq!(
        split_pair("  dracula ,github  "),
        Some(("dracula".to_string(), "github".to_string()))
    );
    assert_eq!(
        split_pair("light= github ,dark= dracula "),
        Some(("dracula".to_string(), "github".to_string()))
    );
}
