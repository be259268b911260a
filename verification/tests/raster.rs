use ttysvg::optimize::Timeline;
use ttysvg::raster::{self, crop, dirty, frame_at, Rect, MIN_DELAY_CS};
use ttysvg::term::{Color, Frame, Row, Run, Style};
use ttysvg::time::Duration;

fn frame(text: &str, fg: Color) -> Frame {
    let mut style = Style::plain();
    style.fg = fg;
    Frame {
        rows: vec![
            Row {
                runs: vec![Run {
                    col: 0,
                    width: text.chars().count() as u16,
                    text: text.to_string(),
                    style,
                }],
            },
            Row { runs: vec![] },
        ],
        cursor: Some((1, 0)),
    }
}

fn timeline() -> Timeline {
    Timeline {
        frames: vec![
            frame("building", Color::Idx(4)),
            frame("finished", Color::Idx(2)),
            frame("done", Color::Default),
        ],
        starts: vec![
            Duration::zero(),
            Duration::from_millis(300),
            Duration::from_millis(900),
        ],
        total: Duration::from_millis(1500),
    }
}

#[test]
fn delays_follow_the_gaps_between_frames() {
    let tl = timeline();
    assert_eq!(raster::delay_cs(&tl, 0), 30);
    assert_eq!(raster::delay_cs(&tl, 1), 60);
    assert_eq!(raster::delay_cs(&tl, 2), 60);
}

#[test]
fn a_zero_length_gap_still_gets_a_visible_delay() {
    let tl = Timeline {
        frames: vec![frame("a", Color::Default), frame("b", Color::Default)],
        starts: vec![Duration::zero(), Duration::zero()],
        total: Duration::from_millis(20),
    };
    assert_eq!(raster::delay_cs(&tl, 0), MIN_DELAY_CS);
}

#[test]
fn gif_delays_add_up_to_the_timeline() {
    let tl = timeline();
    let total: u32 = (0..3).map(|i| raster::delay_cs(&tl, i) as u32).sum();
    assert_eq!(total, 150);
}

#[test]
fn millisecond_delays_round_up_and_never_fall_below_twenty() {
    let tl = Timeline {
        frames: vec![frame("a", Color::Default), frame("b", Color::Default)],
        starts: vec![Duration::zero(), Duration::from_millis(5)],
        total: Duration::from_millis(1005),
    };
    assert_eq!(raster::delay_ms(&tl, 0), 20);
    assert_eq!(raster::delay_ms(&tl, 1), 1000);
    let odd = Timeline {
        frames: vec![frame("a", Color::Default)],
        starts: vec![Duration::zero()],
        total: Duration::from_millis(31),
    };
    assert_eq!(raster::delay_cs(&odd, 0), 4);
}

#[test]
fn the_frame_at_a_moment_is_the_last_that_has_started() {
    let tl = timeline();
    assert_eq!(frame_at(&tl, Duration::zero()), 0);
    assert_eq!(frame_at(&tl, Duration::from_millis(299)), 0);
    assert_eq!(frame_at(&tl, Duration::from_millis(300)), 1);
    assert_eq!(frame_at(&tl, Duration::from_millis(5000)), 2);
}

fn bitmap(w: u32, h: u32) -> Vec<u8> {
    vec![0u8; (w * h * 4) as usize]
}

#[test]
fn an_unchanged_bitmap_has_a_one_pixel_patch() {
    let a = bitmap(4, 3);
    assert_eq!(dirty(&a, &a, 4, 3), Rect { x: 0, y: 0, w: 1, h: 1 });
}

#[test]
fn the_patch_bounds_every_changed_pixel() {
    let a = bitmap(5, 4);
    let mut b = a.clone();
    b[(1 * 5 + 3) * 4 + 2] = 9;
    b[(2 * 5 + 1) * 4] = 7;
    assert_eq!(dirty(&a, &b, 5, 4), Rect { x: 1, y: 1, w: 3, h: 2 });
}

#[test]
fn a_patch_is_cut_out_row_by_row() {
    let w = 3u32;
    let h = 2u32;
    let rgba: Vec<u8> = (0..(w * h * 4) as u8).collect();
    let patch = Rect { x: 1, y: 0, w: 2, h: 2 };
    let out = crop(&rgba, w, patch);
    assert_eq!(out, vec![4, 5, 6, 7, 8, 9, 10, 11, 16, 17, 18, 19, 20, 21, 22, 23]);
    let whole = crop(&rgba, w, Rect { x: 0, y: 0, w, h });
    assert_eq!(whole, rgba);
}
