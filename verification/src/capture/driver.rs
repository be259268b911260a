use vstd::prelude::*;

use crate::chars::lower;
use crate::tape::{Key, Op, OpView};
use crate::time::Duration;
use crate::optimize::raw_view;
use crate::term::frame::{Frame, FrameView};

verus! {

broadcast use vstd::string::group_string_axioms;

/// The bytes a terminal sends for a key: control characters for enter, tab,
/// backspace and escape, escape sequences for the arrows, and the control
/// code of a letter held with control; nothing for control with anything
/// but a letter.
pub open spec fn key_bytes(k: Key) -> Seq<u8> {
    match k {
        Key::Enter => seq![13u8],
        Key::Tab => seq![9u8],
        Key::Backspace => seq![127u8],
        Key::Escape => seq![27u8],
        Key::Space => seq![32u8],
        Key::Up => seq![27u8, 91u8, 65u8],
        Key::Down => seq![27u8, 91u8, 66u8],
        Key::Right => seq![27u8, 91u8, 67u8],
        Key::Left => seq![27u8, 91u8, 68u8],
        Key::Ctrl(c) => {
            let l = lower(c);
            if 'a' <= l && l <= 'z' {
                seq![(l as u32 - 96) as u8]
            } else {
                Seq::empty()
            }
        },
    }
}

impl Key {
    /// The bytes a terminal sends for this key, as [`key_bytes`] says.
    pub fn bytes(&self) -> (b: Vec<u8>)
        ensures
            b@ == key_bytes(*self),
    {
        let mut b: Vec<u8> = Vec::new();
        match self {
            Key::Enter => b.push(13),
            Key::Tab => b.push(9),
            Key::Backspace => b.push(127),
            Key::Escape => b.push(27),
            Key::Space => b.push(32),
            Key::Up => {
                b.push(27);
                b.push(91);
                b.push(65);
            },
            Key::Down => {
                b.push(27);
                b.push(91);
                b.push(66);
            },
            Key::Right => {
                b.push(27);
                b.push(91);
                b.push(67);
            },
            Key::Left => {
                b.push(27);
                b.push(91);
                b.push(68);
            },
            Key::Ctrl(c) => {
                let l = crate::chars::lower_char(*c);
                if 'a' <= l && l <= 'z' {
                    b.push((l as u32 - 96) as u8);
                }
            },
        }
        assert(b@ =~= key_bytes(*self));
        b
    }
}

/// One thing the driver of a recording does.
#[derive(Clone, Debug)]
pub enum Move {
    /// Type a character.
    Char(char),
    /// Send bytes, as for a key.
    Send(Vec<u8>),
    /// Wait this long.
    Sleep(Duration),
    /// Wait until the screen shows this text, for at most this long.
    Wait(String, Duration),
}

pub enum MoveView {
    Char(char),
    Send(Seq<u8>),
    Sleep(nat),
    Wait(Seq<char>, nat),
}

impl View for Move {
    type V = MoveView;

    open spec fn view(&self) -> MoveView {
        match self {
            Move::Char(c) => MoveView::Char(*c),
            Move::Send(b) => MoveView::Send(b@),
            Move::Sleep(d) => MoveView::Sleep(d@),
            Move::Wait(t, d) => MoveView::Wait(t@, d@),
        }
    }
}

/// The steps of typing `text`: each character, then the pause between
/// keystrokes where there is one.
pub open spec fn typing(text: Seq<char>, delay: nat) -> Seq<MoveView>
    decreases text.len(),
{
    if text.len() == 0 {
        Seq::empty()
    } else {
        typing(text.drop_last(), delay) + if delay > 0 {
            seq![MoveView::Char(text.last()), MoveView::Sleep(delay)]
        } else {
            seq![MoveView::Char(text.last())]
        }
    }
}

/// The steps of one action of a tape.
pub open spec fn op_steps(op: OpView, delay: nat) -> Seq<MoveView> {
    match op {
        OpView::Type(t) => typing(t, delay),
        OpView::Key(k) => seq![MoveView::Send(key_bytes(k))],
        OpView::Sleep(d) => seq![MoveView::Sleep(d)],
        OpView::Wait { text, timeout } => seq![MoveView::Wait(text, timeout)],
    }
}

pub open spec fn ops_steps(ops: Seq<OpView>, delay: nat) -> Seq<MoveView>
    decreases ops.len(),
{
    if ops.len() == 0 {
        Seq::empty()
    } else {
        ops_steps(ops.drop_last(), delay) + op_steps(ops.last(), delay)
    }
}

pub open spec fn moves_view(v: Seq<Move>) -> Seq<MoveView> {
    v.map_values(|s: Move| s@)
}

fn typed(out: Vec<Move>, c: char, delay: Duration) -> (r: Vec<Move>)
    ensures
        moves_view(r@) == moves_view(out@) + if delay@ > 0 {
            seq![MoveView::Char(c), MoveView::Sleep(delay@)]
        } else {
            seq![MoveView::Char(c)]
        },
{
    let mut out = out;
    let ghost before = moves_view(out@);
    let ghost raw = out@;
    let st = Move::Char(c);
    out.push(st);
    assert(out@ == raw.push(st));
    assert(moves_view(out@) =~= before.push(MoveView::Char(c)));
    if !delay.is_zero() {
        let ghost mid = moves_view(out@);
        let ghost raw2 = out@;
        let z = Move::Sleep(delay);
        out.push(z);
        assert(out@ == raw2.push(z));
        assert(moves_view(out@) =~= mid.push(MoveView::Sleep(delay@)));
    }
    assert(moves_view(out@) =~= before + if delay@ > 0 {
        seq![MoveView::Char(c), MoveView::Sleep(delay@)]
    } else {
        seq![MoveView::Char(c)]
    });
    out
}

fn typing_steps(text: &str, delay: Duration) -> (out: Vec<Move>)
    ensures
        moves_view(out@) == typing(text@, delay@),
{
    let v = crate::chars::chars_of(text);
    let mut out: Vec<Move> = Vec::new();
    let mut i: usize = 0;
    while i < v.len()
        invariant
            i <= v.len(),
            v@ == text@,
            moves_view(out@) == typing(v@.take(i as int), delay@),
        decreases v.len() - i,
    {
        out = typed(out, v[i], delay);
        assert(v@.take(i + 1).drop_last() == v@.take(i as int));
        i = i + 1;
    }
    assert(v@.take(v.len() as int) == v@);
    out
}

/// What the driver of a recording does for a tape's actions, in order, as
/// [`ops_steps`] says: text typed a character at a time with the pause
/// between keystrokes, keys sent as their bytes, and pauses and waits as
/// they are.
pub fn steps(ops: &[Op], type_delay: Duration) -> (out: Vec<Move>)
    ensures
        moves_view(out@) == ops_steps(ops@.map_values(|o: Op| o@), type_delay@),
{
    let ghost v = ops@.map_values(|o: Op| o@);
    let mut out: Vec<Move> = Vec::new();
    let mut i: usize = 0;
    while i < ops.len()
        invariant
            i <= ops.len(),
            v == ops@.map_values(|o: Op| o@),
            moves_view(out@) == ops_steps(v.take(i as int), type_delay@),
        decreases ops.len() - i,
    {
        let ghost before = moves_view(out@);
        let ghost before_raw = out@;
        match &ops[i] {
            Op::Type(t) => {
                let mut more = typing_steps(t.as_str(), type_delay);
                let ghost m = more@;
                out.append(&mut more);
                assert(out@ =~= before_raw + m);
                assert(moves_view(out@) =~= before + op_steps(v[i as int], type_delay@));
            },
            Op::Key(k) => {
                out.push(Move::Send(k.bytes()));
                assert(moves_view(out@) =~= before + op_steps(v[i as int], type_delay@));
            },
            Op::Sleep(d) => {
                out.push(Move::Sleep(*d));
                assert(moves_view(out@) =~= before + op_steps(v[i as int], type_delay@));
            },
            Op::Wait { text, timeout } => {
                out.push(Move::Wait(text.clone(), *timeout));
                assert(moves_view(out@) =~= before + op_steps(v[i as int], type_delay@));
            },
        }
        assert(v.take(i + 1).drop_last() == v.take(i as int));
        i = i + 1;
    }
    assert(v.take(ops.len() as int) == v);
    out
}

/// The frames captured so far after a snapshot taken at `at`: the snapshot
/// is added unless it shows just what the last frame kept shows.
pub open spec fn kept_after(
    frames: Seq<(nat, FrameView)>,
    at: nat,
    frame: FrameView,
) -> Seq<(nat, FrameView)> {
    if frames.len() > 0 && frames.last().1 == frame {
        frames
    } else {
        frames.push((at, frame))
    }
}

/// Adds a snapshot to the frames captured so far, as [`kept_after`] says.
pub fn keep_if_changed(frames: &mut Vec<(Duration, Frame)>, at: Duration, frame: Frame)
    ensures
        raw_view(final(frames)@) == kept_after(raw_view(old(frames)@), at@, frame@),
{
    let n = frames.len();
    let changed = n == 0 || !frames[n - 1].1.same(&frame);
    if changed {
        let ghost before = raw_view(frames@);
        frames.push((at, frame));
        assert(raw_view(frames@) =~= before.push((at@, frame@)));
    }
}

} // verus!
