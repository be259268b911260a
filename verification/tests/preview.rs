use ttysvg::term::{Frame, Row, Run, Style};
use ttysvg::ui::preview::{self, Piece};

fn text_of(line: &[Piece]) -> String {
    let mut out = String::new();
    for piece in line {
        match piece {
            Piece::Gap(t) => out.push_str(t),
            Piece::Text(t, _) => out.push_str(t),
        }
    }
    out
}

fn width(line: &[Piece]) -> usize {
    text_of(line).chars().count()
}

#[test]
fn every_preview_line_fills_the_box() {
    let frame = preview::sample();
    let lines = preview::layout(&frame, 40, 8);

    assert_eq!(lines.len(), 8);
    for line in &lines {
        assert_eq!(width(line), 40);
    }
}

#[test]
fn a_short_frame_is_padded_out_to_the_full_height() {
    let frame = Frame::blank(2);
    let lines = preview::layout(&frame, 12, 6);

    assert_eq!(lines.len(), 6);
    for line in &lines {
        assert_eq!(width(line), 12);
    }
}

#[test]
fn text_wider_than_the_box_is_cut_not_wrapped() {
    let frame = Frame {
        rows: vec![Row {
            runs: vec![Run {
                col: 0,
                width: 20,
                text: "abcdefghijklmnopqrst".into(),
                style: Style::plain(),
            }],
        }],
        cursor: None,
    };

    let lines = preview::layout(&frame, 6, 1);
    assert_eq!(lines.len(), 1);
    assert_eq!(width(&lines[0]), 6);
    assert_eq!(text_of(&lines[0]), "abcdef");
}

#[test]
fn a_run_that_starts_past_the_edge_is_dropped() {
    let frame = Frame {
        rows: vec![Row {
            runs: vec![
                Run {
                    col: 0,
                    width: 2,
                    text: "hi".into(),
                    style: Style::plain(),
                },
                Run {
                    col: 40,
                    width: 4,
                    text: "gone".into(),
                    style: Style::plain(),
                },
            ],
        }],
        cursor: None,
    };

    let lines = preview::layout(&frame, 10, 1);
    assert_eq!(text_of(&lines[0]), "hi        ");
}

#[test]
fn a_gap_between_runs_is_filled_with_spaces() {
    let frame = Frame {
        rows: vec![Row {
            runs: vec![
                Run {
                    col: 0,
                    width: 1,
                    text: "$".into(),
                    style: Style::plain(),
                },
                Run {
                    col: 4,
                    width: 2,
                    text: "ls".into(),
                    style: Style::plain(),
                },
            ],
        }],
        cursor: None,
    };

    let lines = preview::layout(&frame, 8, 1);
    assert_eq!(text_of(&lines[0]), "$   ls  ");
    assert_eq!(
        lines[0],
        vec![
            Piece::Text("$".into(), Style::plain()),
            Piece::Gap("   ".into()),
            Piece::Text("ls".into(), Style::plain()),
            Piece::Gap("  ".into()),
        ]
    );
}

#[test]
fn a_run_under_the_one_before_it_is_not_pushed_right() {
    let frame = Frame {
        rows: vec![Row {
            runs: vec![
                Run {
                    col: 0,
                    width: 4,
                    text: "abcd".into(),
                    style: Style::plain(),
                },
                Run {
                    col: 2,
                    width: 2,
                    text: "xy".into(),
                    style: Style::plain(),
                },
            ],
        }],
        cursor: None,
    };

    let lines = preview::layout(&frame, 8, 1);
    assert_eq!(text_of(&lines[0]), "abcdxy  ");
}

#[test]
fn preview_colors_read_pairs_as_the_original_did() {
    assert_eq!(ttysvg::ui::preview::hex_color("#ff8000"), Some((255, 128, 0)));
    assert_eq!(ttysvg::ui::preview::hex_color("#+1+2+3"), Some((1, 2, 3)));
    assert_eq!(ttysvg::ui::preview::hex_color("#ABCDEF"), Some((171, 205, 239)));
    assert_eq!(ttysvg::ui::preview::hex_color("#12345"), None);
    assert_eq!(ttysvg::ui::preview::hex_color("#-12345"), None);
    assert_eq!(ttysvg::ui::preview::hex_color("123456"), None);
}
