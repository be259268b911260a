use vstd::prelude::*;

use crate::optimize::Timeline;
use crate::time::{max_nat, min_nat, Duration};

verus! {

/// The shortest GIF frame delay most viewers honour, in centiseconds.
pub const MIN_DELAY_CS: u16 = 2;

/// The GIF encoder's color quantizing effort.
pub const QUANTIZE_SPEED: i32 = 10;

/// How long frame `index` of a timeline stays up, in nanoseconds: until the
/// next frame starts, or until the loop ends for the last one.
pub open spec fn hold_nanos(starts: Seq<nat>, total: nat, index: int) -> nat {
    let start = starts[index];
    let end = if index + 1 < starts.len() {
        starts[index + 1]
    } else {
        total
    };
    if end >= start {
        (end - start) as nat
    } else {
        0
    }
}

/// A GIF delay for a hold of `nanos`: whole milliseconds, rounded up to
/// centiseconds, kept to 16 bits as a `u16` cast keeps it, and never below
/// [`MIN_DELAY_CS`].
pub open spec fn delay_cs_of(nanos: nat) -> nat {
    let ms = (nanos / 1_000_000) % 0x1_0000_0000_0000_0000;
    let cs = ((ms + 9) / 10) % 65536;
    max_nat(cs, MIN_DELAY_CS as nat)
}

/// How long frame `index` stays up as a GIF delay, in centiseconds.
pub fn delay_cs(timeline: &Timeline, index: usize) -> (cs: u16)
    requires
        index < timeline@.starts.len(),
    ensures
        cs == delay_cs_of(hold_nanos(timeline@.starts, timeline@.total, index as int)),
{
    let ms = (hold(timeline, index).as_millis() % 0x1_0000_0000_0000_0000) as u64;
    let cs = ((ms / 10 + if ms % 10 == 0 { 0 } else { 1 }) % 65536) as u16;
    assert((ms / 10 + if ms % 10 == 0 { 0int } else { 1int }) == (ms + 9) / 10);
    if cs < MIN_DELAY_CS {
        MIN_DELAY_CS
    } else {
        cs
    }
}

/// How long frame `index` stays up, in whole milliseconds, never below
/// twenty.
pub fn delay_ms(timeline: &Timeline, index: usize) -> (ms: u64)
    requires
        index < timeline@.starts.len(),
    ensures
        ms == max_nat(
            (hold_nanos(timeline@.starts, timeline@.total, index as int) / 1_000_000)
                % 0x1_0000_0000_0000_0000,
            MIN_DELAY_CS as nat * 10,
        ),
{
    let ms = (hold(timeline, index).as_millis() % 0x1_0000_0000_0000_0000) as u64;
    if ms < 20 {
        20
    } else {
        ms
    }
}

fn hold(timeline: &Timeline, index: usize) -> (d: Duration)
    requires
        index < timeline@.starts.len(),
    ensures
        d@ == hold_nanos(timeline@.starts, timeline@.total, index as int),
{
    let start = timeline.starts[index];
    let end = if index < timeline.starts.len() - 1 {
        timeline.starts[index + 1]
    } else {
        timeline.total
    };
    end.saturating_sub(start)
}

/// The frame on screen at time `at`: the last one that has started by then
/// (the first where none has), never past the last frame.
pub open spec fn frame_at_spec(starts: Seq<nat>, frames: nat, at: nat) -> nat {
    let found: nat = if exists|i: int| 0 <= i < starts.len() && starts[i] <= at {
        (choose|i: int|
            0 <= i < starts.len() && starts[i] <= at && forall|j: int|
                i < j < starts.len() ==> !(starts[j] <= at)) as nat
    } else {
        0
    };
    min_nat(found, if frames > 0 { (frames - 1) as nat } else { 0 })
}

/// The index of the frame on screen at time `at`, as [`frame_at_spec`] says.
pub fn frame_at(timeline: &Timeline, at: Duration) -> (i: usize)
    ensures
        i == frame_at_spec(timeline@.starts, timeline@.frames.len(), at@),
{
    let ghost s = timeline@.starts;
    let mut k = timeline.starts.len();
    let mut hit = false;
    let mut found: usize = 0;
    while k > 0 && !hit
        invariant
            k <= timeline.starts.len(),
            s == timeline@.starts,
            hit ==> found < s.len() && s[found as int] <= at@ && forall|j: int|
                found < j < s.len() ==> !(s[j] <= at@),
            !hit ==> found == 0 && forall|j: int| k <= j < s.len() ==> !(s[j] <= at@),
        decreases k + if hit { 0int } else { 1int },
    {
        if timeline.starts[k - 1].no_longer_than(&at) {
            found = k - 1;
            hit = true;
        } else {
            k = k - 1;
        }
    }
    proof {
        if hit {
            let c = choose|i: int|
                0 <= i < s.len() && s[i] <= at@ && forall|j: int| i < j < s.len() ==> !(s[j] <= at@);
            assert(0 <= c < s.len() && s[c] <= at@ && forall|j: int| c < j < s.len() ==> !(s[j] <= at@));
            if c < found {
                assert(!(s[found as int] <= at@));
            }
            if c > found {
                assert(!(s[c] <= at@));
            }
        } else {
            assert(!exists|i: int| 0 <= i < s.len() && s[i] <= at@);
        }
    }
    let n = timeline.frames.len();
    let last = if n > 0 {
        n - 1
    } else {
        0
    };
    if found < last {
        found
    } else {
        last
    }
}

/// A rectangle of pixels: its top-left corner and its size.
#[derive(Clone, Copy, Debug, PartialEq, Eq, Structural)]
pub struct Rect {
    pub x: u32,
    pub y: u32,
    pub w: u32,
    pub h: u32,
}

/// Where the four bytes of pixel (`x`, `y`) start in an RGBA bitmap `width`
/// pixels wide.
pub open spec fn pixel_at(width: nat, x: int, y: int) -> int {
    y * (width * 4) + x * 4
}

/// Whether pixel (`x`, `y`) has any byte that differs between `old` and `new`.
pub open spec fn pixel_differs(old: Seq<u8>, new: Seq<u8>, width: nat, x: int, y: int) -> bool {
    let o = pixel_at(width, x, y);
    ||| old[o] != new[o]
    ||| old[o + 1] != new[o + 1]
    ||| old[o + 2] != new[o + 2]
    ||| old[o + 3] != new[o + 3]
}

/// Whether pixel (`x`, `y`) lies in a `width` by `height` bitmap and changed.
pub open spec fn changed(
    old: Seq<u8>,
    new: Seq<u8>,
    width: nat,
    height: nat,
    x: int,
    y: int,
) -> bool {
    0 <= x < width && 0 <= y < height && pixel_differs(old, new, width, x, y)
}

/// `r` is the smallest rectangle that holds every changed pixel.
pub open spec fn bounds_changes(
    old: Seq<u8>,
    new: Seq<u8>,
    width: nat,
    height: nat,
    r: Rect,
) -> bool {
    &&& forall|x: int, y: int|
        #[trigger] changed(old, new, width, height, x, y) ==> r.x <= x < r.x + r.w && r.y <= y
            < r.y + r.h
    &&& exists|y: int| #[trigger] changed(old, new, width, height, r.x as int, y)
    &&& exists|y: int| #[trigger] changed(old, new, width, height, r.x + r.w - 1, y)
    &&& exists|x: int| #[trigger] changed(old, new, width, height, x, r.y as int)
    &&& exists|x: int| #[trigger] changed(old, new, width, height, x, r.y + r.h - 1)
}

proof fn lemma_row_fits(y: nat, height: nat, stride: nat)
    requires
        y < height,
    ensures
        y * stride + stride <= height * stride,
        (y + 1) * stride == y * stride + stride,
{
    assert(y * stride + stride == (y + 1) * stride) by (nonlinear_arith);
    assert((y + 1) * stride <= height * stride) by (nonlinear_arith)
        requires
            y + 1 <= height,
    ;
}

/// Scans row `y` for changed pixels: the first and the last, if any.
fn row_changes(
    old: &[u8],
    new: &[u8],
    width: u32,
    height: u32,
    y: u32,
    row: usize,
) -> (found: Option<(u32, u32)>)
    requires
        y < height,
        row == y * (width * 4),
        row + width * 4 <= old@.len(),
        row + width * 4 <= new@.len(),
    ensures
        match found {
            None => forall|x: int| !changed(old@, new@, width as nat, height as nat, x, y as int),
            Some((first, last)) => {
                &&& first <= last < width
                &&& changed(old@, new@, width as nat, height as nat, first as int, y as int)
                &&& changed(old@, new@, width as nat, height as nat, last as int, y as int)
                &&& forall|x: int|
                    changed(old@, new@, width as nat, height as nat, x, y as int) ==> first <= x
                        <= last
            },
        },
{
    let mut x: u32 = 0;
    let mut at: usize = row;
    let mut found: Option<(u32, u32)> = None;
    while x < width
        invariant
            x <= width,
            y < height,
            row == y * (width * 4),
            row + width * 4 <= old@.len(),
            row + width * 4 <= new@.len(),
            at == row + x * 4,
            match found {
                None => forall|c: int|
                    c < x ==> !changed(old@, new@, width as nat, height as nat, c, y as int),
                Some((first, last)) => {
                    &&& first <= last < x
                    &&& changed(old@, new@, width as nat, height as nat, first as int, y as int)
                    &&& changed(old@, new@, width as nat, height as nat, last as int, y as int)
                    &&& forall|c: int|
                        c < x && changed(old@, new@, width as nat, height as nat, c, y as int)
                            ==> first <= c <= last
                },
            },
        decreases width - x,
    {
        assert(pixel_at(width as nat, x as int, y as int) == at);
        let differs = old[at] != new[at] || old[at + 1] != new[at + 1] || old[at + 2] != new[at
            + 2] || old[at + 3] != new[at + 3];
        assert(differs == changed(old@, new@, width as nat, height as nat, x as int, y as int));
        if differs {
            found = match found {
                None => Some((x, x)),
                Some((first, _)) => Some((first, x)),
            };
        }
        x = x + 1;
        at = at + 4;
    }
    proof {
        assert forall|c: int| c >= width implies !changed(
            old@,
            new@,
            width as nat,
            height as nat,
            c,
            y as int,
        ) by {}
    }
    found
}

/// The smallest rectangle that covers every pixel that differs between two
/// RGBA bitmaps of `width` by `height` pixels; a single pixel at the origin
/// when none does.
pub fn dirty(old: &[u8], new: &[u8], width: u32, height: u32) -> (r: Rect)
    requires
        height * (width * 4) <= old@.len(),
        height * (width * 4) <= new@.len(),
        width * 4 <= usize::MAX,
    ensures
        (exists|x: int, y: int| changed(old@, new@, width as nat, height as nat, x, y))
            ==> bounds_changes(old@, new@, width as nat, height as nat, r),
        !(exists|x: int, y: int| changed(old@, new@, width as nat, height as nat, x, y)) ==> r
            == (Rect { x: 0, y: 0, w: 1, h: 1 }),
{
    let ghost w = width as nat;
    let ghost h = height as nat;
    let stride: usize = width as usize * 4;
    let mut top: Option<u32> = None;
    let mut bottom: u32 = 0;
    let mut left: u32 = width;
    let mut right: u32 = 0;
    let ghost mut top_x: int = 0;
    let ghost mut bottom_x: int = 0;
    let ghost mut left_y: int = 0;
    let ghost mut right_y: int = 0;
    let mut y: u32 = 0;
    let mut row: usize = 0;
    let ghost bytes = old.len();
    while y < height
        invariant
            y <= height,
            old@.len() <= usize::MAX,
            w == width,
            h == height,
            stride == width * 4,
            row == y * stride,
            height * stride <= old@.len(),
            height * stride <= new@.len(),
            match top {
                None => forall|a: int, b: int| b < y ==> !changed(old@, new@, w, h, a, b),
                Some(t) => {
                    &&& t <= bottom < y
                    &&& left <= right < width
                    &&& changed(old@, new@, w, h, top_x, t as int)
                    &&& changed(old@, new@, w, h, bottom_x, bottom as int)
                    &&& changed(old@, new@, w, h, left as int, left_y)
                    &&& changed(old@, new@, w, h, right as int, right_y)
                    &&& forall|a: int, b: int|
                        b < y && #[trigger] changed(old@, new@, w, h, a, b) ==> t <= b <= bottom
                            && left <= a <= right
                },
            },
        decreases height - y,
    {
        proof {
            lemma_row_fits(y as nat, height as nat, stride as nat);
        }
        let found = row_changes(old, new, width, height, y, row);
        match found {
            None => {},
            Some((first, last)) => {
                proof {
                    if top is None {
                        left_y = y as int;
                        right_y = y as int;
                        top_x = first as int;
                    } else {
                        if first < left {
                            left_y = y as int;
                        }
                        if last > right {
                            right_y = y as int;
                        }
                    }
                    bottom_x = first as int;
                }
                if top.is_none() {
                    top = Some(y);
                    left = first;
                    right = last;
                } else {
                    if first < left {
                        left = first;
                    }
                    if last > right {
                        right = last;
                    }
                }
                bottom = y;
            },
        }
        y = y + 1;
        row = row + stride;
    }
    proof {
        assert forall|a: int, b: int| b >= y implies !changed(old@, new@, w, h, a, b) by {}
    }
    match top {
        None => Rect { x: 0, y: 0, w: 1, h: 1 },
        Some(t) => {
            let r = Rect { x: left, y: t, w: right - left + 1, h: bottom - t + 1 };
            assert(changed(old@, new@, w, h, top_x, r.y as int));
            assert(changed(old@, new@, w, h, bottom_x, r.y + r.h - 1));
            assert(changed(old@, new@, w, h, r.x as int, left_y));
            assert(changed(old@, new@, w, h, r.x + r.w - 1, right_y));
            r
        },
    }
}

/// The bytes of rows `y0 .. y0 + n` of an RGBA bitmap `stride` bytes wide,
/// each cut to `len` bytes starting at byte `from`.
pub open spec fn cropped(rgba: Seq<u8>, stride: int, from: int, len: int, y0: int, n: nat) -> Seq<
    u8,
>
    decreases n,
{
    if n == 0 {
        Seq::empty()
    } else {
        let y = y0 + n - 1;
        cropped(rgba, stride, from, len, y0, (n - 1) as nat) + rgba.subrange(
            y * stride + from,
            y * stride + from + len,
        )
    }
}

/// The pixels of `patch`, row after row, out of an RGBA bitmap `width`
/// pixels wide.
pub fn crop(rgba: &[u8], width: u32, patch: Rect) -> (out: Vec<u8>)
    requires
        patch.x + patch.w <= width,
        patch.y + patch.h <= u32::MAX,
        (patch.y + patch.h) * (width * 4) <= rgba@.len(),
        width * 4 <= usize::MAX,
    ensures
        out@ == cropped(rgba@, width * 4, patch.x * 4, patch.w * 4, patch.y as int, patch.h as nat),
{
    let stride: usize = width as usize * 4;
    let from: usize = patch.x as usize * 4;
    let len: usize = patch.w as usize * 4;
    let ghost s = rgba@;
    let ghost bytes = rgba.len();
    let mut out: Vec<u8> = Vec::new();
    let mut k: u32 = 0;
    while k < patch.h
        invariant
            k <= patch.h,
            s == rgba@,
            stride == width * 4,
            from == patch.x * 4,
            len == patch.w * 4,
            from + len <= stride,
            patch.y + patch.h <= u32::MAX,
            (patch.y + patch.h) * stride <= s.len(),
            s.len() <= usize::MAX,
            out@ == cropped(s, stride as int, from as int, len as int, patch.y as int, k as nat),
        decreases patch.h - k,
    {
        let y: u32 = patch.y + k;
        proof {
            lemma_row_fits(y as nat, (patch.y + patch.h) as nat, stride as nat);
        }
        let start: usize = y as usize * stride + from;
        let ghost before = out@;
        let mut i: usize = 0;
        while i < len
            invariant
                i <= len,
                s == rgba@,
                start + len <= s.len(),
                s.len() <= usize::MAX,
                out@ == before + s.subrange(start as int, start + i),
            decreases len - i,
        {
            out.push(rgba[start + i]);
            assert(s.subrange(start as int, start + i + 1) == s.subrange(start as int, start + i)
                .push(s[start + i]));
            i = i + 1;
        }
        assert(out@ == cropped(s, stride as int, from as int, len as int, patch.y as int, (k + 1) as nat));
        k = k + 1;
    }
    out
}

/// Every frame of a GIF stays up at least as long as viewers honour.
pub proof fn law_delay_visible(nanos: nat)
    ensures
        delay_cs_of(nanos) >= MIN_DELAY_CS,
{
}

} // verus!
