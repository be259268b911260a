use vstd::prelude::*;

use crate::number::Decimal;
use crate::term::frame::{Frame, FrameView};
use crate::time::{max_nat, min_nat, Duration, MAX_NANOS};

verus! {

/// How a capture is turned into a timeline.
#[derive(Clone, Copy, Debug)]
pub struct Options {
    /// The longest pause kept; longer ones are cut to this. `None` keeps pauses.
    pub trim_idle: Option<Duration>,
    /// The step frame starts are rounded to.
    pub quantize: Duration,
    /// The shortest time a frame stays on screen.
    pub min_frame: Duration,
    /// How long the last frame holds before the loop restarts.
    pub tail: Duration,
    /// Playback speed; anything not above zero plays at normal speed.
    pub speed: Decimal,
}

pub struct OptionsView {
    pub trim_idle: Option<nat>,
    pub quantize: nat,
    pub min_frame: nat,
    pub tail: nat,
    pub speed: int,
}

impl View for Options {
    type V = OptionsView;

    open spec fn view(&self) -> OptionsView {
        OptionsView {
            trim_idle: match self.trim_idle {
                Some(d) => Some(d@),
                None => None,
            },
            quantize: self.quantize@,
            min_frame: self.min_frame@,
            tail: self.tail@,
            speed: self.speed@,
        }
    }
}

impl Options {
    /// Pauses over a second cut to one, 30ms steps, a 2s tail, normal speed.
    pub fn default() -> (o: Options)
        ensures
            o@ == (OptionsView {
                trim_idle: Some(1_000_000_000),
                quantize: 30_000_000,
                min_frame: 30_000_000,
                tail: 2_000_000_000,
                speed: 1_000_000,
            }),
    {
        Options {
            trim_idle: Some(Duration::from_millis(1000)),
            quantize: Duration::from_millis(30),
            min_frame: Duration::from_millis(30),
            tail: Duration::from_millis(2000),
            speed: Decimal::from_int(1),
        }
    }
}

/// Frames in playing order, each with the time it starts, and the length of
/// the whole loop.
#[derive(Clone, Debug)]
pub struct Timeline {
    pub frames: Vec<Frame>,
    pub starts: Vec<Duration>,
    pub total: Duration,
}

pub struct TimelineView {
    pub frames: Seq<FrameView>,
    pub starts: Seq<nat>,
    pub total: nat,
}

impl View for Timeline {
    type V = TimelineView;

    open spec fn view(&self) -> TimelineView {
        TimelineView {
            frames: self.frames@.map_values(|f: Frame| f@),
            starts: self.starts@.map_values(|d: Duration| d@),
            total: self.total@,
        }
    }
}

impl Timeline {
    pub fn len(&self) -> (n: usize)
        ensures
            n == self@.frames.len(),
    {
        self.frames.len()
    }

    pub fn is_empty(&self) -> (b: bool)
        ensures
            b == (self@.frames.len() == 0),
    {
        self.frames.len() == 0
    }
}

/// `raw` without any frame that repeats the one kept just before it.
pub open spec fn dedup(raw: Seq<(nat, FrameView)>) -> Seq<(nat, FrameView)>
    decreases raw.len(),
{
    if raw.len() == 0 {
        Seq::empty()
    } else {
        let d = dedup(raw.drop_last());
        if d.len() > 0 && d.last().1 == raw.last().1 {
            d
        } else {
            d.push(raw.last())
        }
    }
}

pub open spec fn effective_speed(speed: int) -> int {
    if speed > 0 {
        speed
    } else {
        1_000_000
    }
}

/// The playback time between two captured moments: the real gap, cut to the
/// idle limit, divided by the speed and rounded down to the nanosecond.
pub open spec fn scaled_gap(prev: nat, at: nat, trim: Option<nat>, speed: int) -> nat {
    let gap: nat = if at >= prev {
        (at - prev) as nat
    } else {
        0
    };
    let g: nat = match trim {
        Some(m) => min_nat(gap, m),
        None => gap,
    };
    (((g * 1_000_000) as int) / effective_speed(speed)) as nat
}

/// When each frame starts playing: the first at zero, each next one a
/// [`scaled_gap`] later, held at the longest span there is.
pub open spec fn clocks(times: Seq<nat>, trim: Option<nat>, speed: int) -> Seq<nat>
    decreases times.len(),
{
    if times.len() == 0 {
        Seq::empty()
    } else if times.len() == 1 {
        seq![0nat]
    } else {
        let c = clocks(times.drop_last(), trim, speed);
        c.push(
            min_nat(
                c.last() + scaled_gap(times[times.len() - 2], times.last(), trim, speed),
                MAX_NANOS as nat,
            ),
        )
    }
}

/// `d` rounded to the nearest multiple of `q`, halves up; `d` itself where `q`
/// is zero. Kept to 64 bits as a `u64` cast keeps it.
pub open spec fn quantized(d: nat, q: nat) -> nat {
    if q == 0 {
        d
    } else {
        ((((d + q / 2) / q) * q) % 0x1_0000_0000_0000_0000) as nat
    }
}

/// Frames and starts after merging: a frame that would start less than
/// `min` after the last kept start replaces the last kept frame instead.
pub open spec fn merged(ts: Seq<nat>, fs: Seq<FrameView>, min: nat) -> (Seq<FrameView>, Seq<nat>)
    decreases ts.len(),
{
    if ts.len() == 0 || fs.len() == 0 {
        (Seq::empty(), Seq::empty())
    } else {
        let (frames, starts) = merged(ts.drop_last(), fs.drop_last(), min);
        let t = ts.last();
        if starts.len() > 0 && frames.len() > 0 && (if t >= starts.last() {
            t - starts.last()
        } else {
            0
        }) < min {
            (frames.update(frames.len() - 1, fs.last()), starts)
        } else {
            (frames.push(fs.last()), starts.push(t))
        }
    }
}

pub open spec fn raw_view(raw: Seq<(Duration, Frame)>) -> Seq<(nat, FrameView)> {
    raw.map_values(|p: (Duration, Frame)| (p.0@, p.1@))
}

/// The timeline that [`optimize`] makes of a capture.
pub open spec fn timeline_of(raw: Seq<(nat, FrameView)>, o: OptionsView) -> TimelineView {
    let d = dedup(raw);
    let times = d.map_values(|p: (nat, FrameView)| p.0);
    let frames = d.map_values(|p: (nat, FrameView)| p.1);
    let c = clocks(times, o.trim_idle, o.speed);
    let q = c.map_values(|x: nat| quantized(x, o.quantize));
    let (fs, ss) = merged(q, frames, o.min_frame);
    let last: nat = if ss.len() > 0 {
        ss.last()
    } else {
        0
    };
    TimelineView {
        frames: fs,
        starts: ss,
        total: if ss.len() > 0 {
            min_nat(last + max_nat(o.tail, o.min_frame), MAX_NANOS as nat)
        } else {
            0
        },
    }
}

fn quantize_to(d: Duration, q: Duration) -> (r: Duration)
    ensures
        r@ == quantized(d@, q@),
{
    if q.is_zero() {
        return d;
    }
    let n = d.as_nanos();
    let step = q.as_nanos();
    proof {
        let a: int = (n + step / 2) as int;
        let b: int = step as int;
        assert((a / b) * b <= a) by (nonlinear_arith)
            requires
                b > 0,
                a >= 0,
        ;
    }
    let rounded = ((n + step / 2) / step) * step;
    Duration::from_nanos(rounded % 0x1_0000_0000_0000_0000)
}

fn gap_after(prev: Duration, at: Duration, trim: Option<Duration>, speed: i64) -> (g: u128)
    ensures
        g == scaled_gap(prev@, at@, match trim {
            Some(d) => Some(d@),
            None => None,
        }, speed as int),
        g <= MAX_NANOS * 1_000_000,
{
    let mut gap = at.saturating_sub(prev);
    match trim {
        Some(m) => {
            gap = gap.min(m);
        },
        None => {},
    }
    let sp: i64 = if speed > 0 {
        speed
    } else {
        1_000_000
    };
    let gn = gap.as_nanos();
    assert(gn * 1_000_000 <= MAX_NANOS * 1_000_000) by (nonlinear_arith)
        requires
            gn <= MAX_NANOS,
    ;
    let scaled = gn * 1_000_000;
    assert(scaled / (sp as u128) <= scaled) by (nonlinear_arith)
        requires
            sp >= 1,
    ;
    scaled / (sp as u128)
}

/// Turns captured frames into a timeline, as [`timeline_of`] says: repeated
/// frames dropped, pauses cut to the idle limit, time scaled by the speed,
/// starts rounded to the quantum, frames too close together merged, and the
/// tail added at the end.
pub fn optimize(raw: &[(Duration, Frame)], opts: &Options) -> (tl: Timeline)
    ensures
        tl@ == timeline_of(raw_view(raw@), opts@),
{
    let ghost rv = raw_view(raw@);
    // drop repeats
    let mut kept: Vec<usize> = Vec::new();
    let mut i: usize = 0;
    while i < raw.len()
        invariant
            i <= raw.len(),
            rv == raw_view(raw@),
            forall|j: int| 0 <= j < kept.len() ==> kept@[j] < i,
            dedup(rv.take(i as int)) == kept@.map_values(|k: usize| rv[k as int]),
        decreases raw.len() - i,
    {
        let ghost before = kept@.map_values(|k: usize| rv[k as int]);
        assert(rv.take(i + 1).drop_last() == rv.take(i as int));
        assert(rv.take(i + 1).last() == rv[i as int]);
        let fresh = if kept.len() == 0 {
            true
        } else {
            let last = kept[kept.len() - 1];
            !raw[last].1.same(&raw[i].1)
        };
        if fresh {
            kept.push(i);
            assert(kept@.map_values(|k: usize| rv[k as int]) =~= before.push(rv[i as int]));
        }
        i = i + 1;
    }
    assert(rv.take(raw.len() as int) == rv);
    let ghost d = dedup(rv);
    let ghost times = d.map_values(|p: (nat, FrameView)| p.0);
    let ghost fvs = d.map_values(|p: (nat, FrameView)| p.1);
    let ghost trim = opts@.trim_idle;
    let ghost c = clocks(times, trim, opts@.speed);
    let ghost q = c.map_values(|x: nat| quantized(x, opts@.quantize));
    proof {
        lemma_clocks_len(times, trim, opts@.speed);
    }
    // play times, rounded
    let mut starts: Vec<Duration> = Vec::new();
    let mut clock: u128 = 0;
    let mut j: usize = 0;
    while j < kept.len()
        invariant
            j <= kept.len(),
            forall|x: int| 0 <= x < kept.len() ==> kept@[x] < raw.len(),
            d == kept@.map_values(|k: usize| rv[k as int]),
            rv == raw_view(raw@),
            times == d.map_values(|p: (nat, FrameView)| p.0),
            c == clocks(times, trim, opts@.speed),
            trim == opts@.trim_idle,
            q == c.map_values(|x: nat| quantized(x, opts@.quantize)),
            times.len() == kept.len(),
            c.len() == kept.len(),
            q.len() == kept.len(),
            starts@.map_values(|x: Duration| x@) == q.take(j as int),
            j > 0 ==> clock == clocks(times.take(j as int), trim, opts@.speed).last(),
            j == 0 ==> clock == 0,
            clock <= MAX_NANOS,
        decreases kept.len() - j,
    {
        proof {
            lemma_clocks_prefix(times, trim, opts@.speed, (j + 1) as int);
        }
        if j > 0 {
            let g = gap_after(raw[kept[j - 1]].0, raw[kept[j]].0, opts.trim_idle, opts.speed.micros);
            let sum = clock + g;
            clock = if sum > MAX_NANOS {
                MAX_NANOS
            } else {
                sum
            };
            proof {
                let tj = times.take(j + 1);
                assert(tj.drop_last() == times.take(j as int));
                assert(tj[tj.len() - 2] == times[j - 1]);
                assert(tj.last() == times[j as int]);
                assert(times[j - 1] == raw@[kept@[j - 1] as int].0@);
                assert(times[j as int] == raw@[kept@[j as int] as int].0@);
                assert(clock == clocks(tj, trim, opts@.speed).last());
            }
        } else {
            assert(times.take(1).len() == 1);
            assert(clocks(times.take(1), trim, opts@.speed) == seq![0nat]);
        }
        proof {
            lemma_clocks_len(times.take(j + 1), trim, opts@.speed);
            assert(c[j as int] == clocks(times.take(j + 1), trim, opts@.speed).last());
        }
        let ghost sv0 = starts@.map_values(|x: Duration| x@);
        let st = quantize_to(Duration::from_nanos(clock), opts.quantize);
        starts.push(st);
        assert(starts@.map_values(|x: Duration| x@) == sv0.push(st@));
        assert(q.take(j + 1) == q.take(j as int).push(q[j as int]));
        assert(starts@.map_values(|x: Duration| x@) =~= q.take(j + 1));
        j = j + 1;
    }
    assert(q.take(kept.len() as int) =~= q);
    // merge frames that come too close together
    let mut frames: Vec<Frame> = Vec::new();
    let mut out_starts: Vec<Duration> = Vec::new();
    let mut k: usize = 0;
    while k < kept.len()
        invariant
            k <= kept.len(),
            forall|x: int| 0 <= x < kept.len() ==> kept@[x] < raw.len(),
            d == kept@.map_values(|k: usize| rv[k as int]),
            rv == raw_view(raw@),
            fvs == d.map_values(|p: (nat, FrameView)| p.1),
            starts@.map_values(|x: Duration| x@) == q,
            q.len() == kept.len(),
            (frames@.map_values(|f: Frame| f@), out_starts@.map_values(|x: Duration| x@)) == merged(
                q.take(k as int),
                fvs.take(k as int),
                opts@.min_frame,
            ),
        decreases kept.len() - k,
    {
        let ghost fr0 = frames@.map_values(|f: Frame| f@);
        let ghost st0 = out_starts@.map_values(|x: Duration| x@);
        assert(q.take(k + 1).drop_last() == q.take(k as int));
        assert(fvs.take(k + 1).drop_last() == fvs.take(k as int));
        assert(q.take(k + 1).last() == starts@[k as int]@);
        assert(fvs.take(k + 1).last() == raw@[kept@[k as int] as int].1@);
        let t = starts[k];
        let f = raw[kept[k]].1.copy();
        let close = out_starts.len() > 0 && frames.len() > 0 && t.saturating_sub(
            out_starts[out_starts.len() - 1],
        ).shorter_than(&opts.min_frame);
        if close {
            let last = frames.len() - 1;
            frames.set(last, f);
            assert(frames@.map_values(|f: Frame| f@) =~= fr0.update(last as int, fvs[k as int]));
        } else {
            frames.push(f);
            out_starts.push(t);
            assert(frames@.map_values(|f: Frame| f@) =~= fr0.push(fvs[k as int]));
            assert(out_starts@.map_values(|x: Duration| x@) =~= st0.push(t@));
        }
        k = k + 1;
    }
    assert(q.take(kept.len() as int) == q);
    assert(fvs.take(kept.len() as int) == fvs);
    let total = if out_starts.len() > 0 {
        out_starts[out_starts.len() - 1].saturating_add(opts.tail.max(opts.min_frame))
    } else {
        Duration::zero()
    };
    Timeline { frames, starts: out_starts, total }
}

proof fn lemma_clocks_prefix(times: Seq<nat>, trim: Option<nat>, speed: int, n: int)
    requires
        0 <= n <= times.len(),
    ensures
        clocks(times.take(n), trim, speed) == clocks(times, trim, speed).take(n),
        clocks(times, trim, speed).len() == times.len(),
    decreases times.len(),
{
    lemma_clocks_len(times, trim, speed);
    if n == times.len() {
        assert(times.take(n) == times);
        assert(clocks(times, trim, speed).take(n) == clocks(times, trim, speed));
    } else {
        lemma_clocks_prefix(times.drop_last(), trim, speed, n);
        assert(times.drop_last().take(n) == times.take(n));
        lemma_clocks_len(times.drop_last(), trim, speed);
        if times.len() >= 2 {
            assert(clocks(times, trim, speed).take(n) =~= clocks(times.drop_last(), trim, speed).take(n));
        }
    }
}

proof fn lemma_clocks_len(times: Seq<nat>, trim: Option<nat>, speed: int)
    ensures
        clocks(times, trim, speed).len() == times.len(),
    decreases times.len(),
{
    if times.len() > 1 {
        lemma_clocks_len(times.drop_last(), trim, speed);
    }
}

/// Merging keeps one start for each frame kept.
pub proof fn law_merged_pairs(ts: Seq<nat>, fs: Seq<FrameView>, min: nat)
    ensures
        merged(ts, fs, min).0.len() == merged(ts, fs, min).1.len(),
        ts.len() > 0 && fs.len() > 0 ==> merged(ts, fs, min).0.len() > 0,
    decreases ts.len(),
{
    if ts.len() > 0 && fs.len() > 0 {
        law_merged_pairs(ts.drop_last(), fs.drop_last(), min);
    }
}

/// With a shortest frame above zero, every kept frame starts at least that
/// long after the one before it.
pub proof fn law_merged_gaps(ts: Seq<nat>, fs: Seq<FrameView>, min: nat)
    requires
        min > 0,
    ensures
        forall|i: int|
            0 <= i < merged(ts, fs, min).1.len() - 1 ==> #[trigger] merged(ts, fs, min).1[i] + min
                <= merged(ts, fs, min).1[i + 1],
    decreases ts.len(),
{
    if ts.len() > 0 && fs.len() > 0 {
        law_merged_gaps(ts.drop_last(), fs.drop_last(), min);
        let (frames, starts) = merged(ts.drop_last(), fs.drop_last(), min);
        let (f2, s2) = merged(ts, fs, min);
        assert forall|i: int| 0 <= i < s2.len() - 1 implies #[trigger] s2[i] + min <= s2[i + 1] by {
            if s2.len() == starts.len() {
                assert(s2 == starts);
            } else {
                assert(s2 == starts.push(ts.last()));
                if i + 1 < starts.len() {
                    assert(starts[i] + min <= starts[i + 1]);
                }
            }
        }
    }
}

/// Dropping repeats never empties a capture that has frames.
pub proof fn lemma_dedup_nonempty(raw: Seq<(nat, FrameView)>)
    ensures
        raw.len() > 0 ==> dedup(raw).len() > 0,
    decreases raw.len(),
{
    if raw.len() > 0 {
        lemma_dedup_nonempty(raw.drop_last());
    }
}

/// A timeline has one start for each frame, a capture with frames gives a
/// timeline with frames, and with a shortest frame above zero no frame is
/// shorter than it.
pub proof fn law_timeline_shape(raw: Seq<(nat, FrameView)>, o: OptionsView)
    ensures
        timeline_of(raw, o).frames.len() == timeline_of(raw, o).starts.len(),
        raw.len() > 0 ==> timeline_of(raw, o).frames.len() > 0,
        o.min_frame > 0 ==> forall|i: int|
            0 <= i < timeline_of(raw, o).starts.len() - 1 ==> #[trigger] timeline_of(raw, o).starts[i]
                + o.min_frame <= timeline_of(raw, o).starts[i + 1],
{
    let d = dedup(raw);
    let times = d.map_values(|p: (nat, FrameView)| p.0);
    let frames = d.map_values(|p: (nat, FrameView)| p.1);
    let c = clocks(times, o.trim_idle, o.speed);
    let q = c.map_values(|x: nat| quantized(x, o.quantize));
    lemma_clocks_len(times, o.trim_idle, o.speed);
    lemma_dedup_nonempty(raw);
    law_merged_pairs(q, frames, o.min_frame);
    if o.min_frame > 0 {
        law_merged_gaps(q, frames, o.min_frame);
    }
}

/// Idle time is cut: where an idle limit is set, no two frames are played
/// further apart than the limit at the playback speed, before the start
/// times are rounded to steps.
pub proof fn law_idle_clamped(times: Seq<nat>, limit: nat, speed: int, i: int)
    requires
        0 < i < times.len(),
    ensures
        clocks(times, Some(limit), speed)[i] <= clocks(times, Some(limit), speed)[i - 1] + ((limit
            * 1_000_000) as int) / effective_speed(speed),
    decreases times.len(),
{
    lemma_clocks_len(times, Some(limit), speed);
    if i < times.len() - 1 {
        law_idle_clamped(times.drop_last(), limit, speed, i);
        lemma_clocks_prefix(times, Some(limit), speed, times.len() - 1);
        assert(clocks(times, Some(limit), speed)[i] == clocks(times.drop_last(), Some(limit), speed)[i]);
        assert(clocks(times, Some(limit), speed)[i - 1] == clocks(times.drop_last(), Some(limit), speed)[i
            - 1]);
    } else {
        let c = clocks(times.drop_last(), Some(limit), speed);
        lemma_clocks_len(times.drop_last(), Some(limit), speed);
        let prev = times[times.len() - 2];
        let at = times.last();
        let gap: nat = if at >= prev {
            (at - prev) as nat
        } else {
            0
        };
        let g = min_nat(gap, limit);
        let sp = effective_speed(speed);
        assert(g * 1_000_000 <= limit * 1_000_000) by (nonlinear_arith)
            requires
                g <= limit,
        ;
        assert(((g * 1_000_000) as int) / sp <= ((limit * 1_000_000) as int) / sp) by (nonlinear_arith)
            requires
                g * 1_000_000 <= limit * 1_000_000,
                sp > 0,
        ;
        assert(scaled_gap(prev, at, Some(limit), speed) <= ((limit * 1_000_000) as int) / sp);
        assert(clocks(times, Some(limit), speed)[i - 1] == c.last());
    }
}

/// Faster playback never starts a frame later: at a higher speed every
/// frame starts no later than at a lower one.
pub proof fn law_faster_is_sooner(times: Seq<nat>, trim: Option<nat>, slow: int, fast: int, i: int)
    requires
        0 < slow <= fast,
        0 <= i < times.len(),
    ensures
        clocks(times, trim, fast)[i] <= clocks(times, trim, slow)[i],
    decreases times.len(),
{
    lemma_clocks_len(times, trim, fast);
    lemma_clocks_len(times, trim, slow);
    if times.len() == 1 {
    } else if i < times.len() - 1 {
        law_faster_is_sooner(times.drop_last(), trim, slow, fast, i);
        lemma_clocks_prefix(times, trim, fast, times.len() - 1);
        lemma_clocks_prefix(times, trim, slow, times.len() - 1);
        assert(clocks(times, trim, fast)[i] == clocks(times.drop_last(), trim, fast)[i]);
        assert(clocks(times, trim, slow)[i] == clocks(times.drop_last(), trim, slow)[i]);
    } else {
        law_faster_is_sooner(times.drop_last(), trim, slow, fast, i - 1);
        lemma_clocks_len(times.drop_last(), trim, fast);
        lemma_clocks_len(times.drop_last(), trim, slow);
        let prev = times[times.len() - 2];
        let at = times.last();
        let gap: nat = if at >= prev {
            (at - prev) as nat
        } else {
            0
        };
        let g: nat = match trim {
            Some(m) => min_nat(gap, m),
            None => gap,
        };
        let n = (g * 1_000_000) as int;
        assert(n / fast <= n / slow) by (nonlinear_arith)
            requires
                0 < slow <= fast,
                n >= 0,
        ;
        assert(effective_speed(fast) == fast && effective_speed(slow) == slow);
        assert(scaled_gap(prev, at, trim, fast) <= scaled_gap(prev, at, trim, slow));
    }
}

/// Dropping repeats keeps the last frame, and every frame it keeps is one
/// of the capture's.
proof fn lemma_dedup_frames(raw: Seq<(nat, FrameView)>)
    ensures
        raw.len() > 0 ==> dedup(raw).last().1 == raw.last().1,
        forall|i: int|
            0 <= i < dedup(raw).len() ==> exists|j: int|
                0 <= j < raw.len() && #[trigger] dedup(raw)[i] == raw[j],
    decreases raw.len(),
{
    if raw.len() > 0 {
        let r0 = raw.drop_last();
        lemma_dedup_frames(r0);
        let d = dedup(r0);
        assert forall|i: int| 0 <= i < dedup(raw).len() implies exists|j: int|
            0 <= j < raw.len() && #[trigger] dedup(raw)[i] == raw[j] by {
            if i < d.len() {
                let j = choose|j: int| 0 <= j < r0.len() && d[i] == r0[j];
                assert(dedup(raw)[i] == raw[j]);
            } else {
                assert(dedup(raw)[i] == raw[raw.len() - 1]);
            }
        }
    }
}

/// Merging keeps the first start and the last frame, and every frame it
/// keeps is one it was given.
proof fn lemma_merged_ends(ts: Seq<nat>, fs: Seq<FrameView>, min: nat)
    requires
        ts.len() == fs.len(),
    ensures
        ts.len() > 0 ==> merged(ts, fs, min).1[0] == ts[0],
        ts.len() > 0 ==> merged(ts, fs, min).0.last() == fs.last(),
        forall|i: int|
            0 <= i < merged(ts, fs, min).0.len() ==> exists|j: int|
                0 <= j < fs.len() && #[trigger] merged(ts, fs, min).0[i] == fs[j],
    decreases ts.len(),
{
    if ts.len() > 0 {
        let (frames, starts) = merged(ts.drop_last(), fs.drop_last(), min);
        lemma_merged_ends(ts.drop_last(), fs.drop_last(), min);
        law_merged_pairs(ts.drop_last(), fs.drop_last(), min);
        law_merged_pairs(ts, fs, min);
        let (f2, s2) = merged(ts, fs, min);
        if ts.len() > 1 {
            assert(ts.drop_last()[0] == ts[0]);
        }
        assert forall|i: int| 0 <= i < f2.len() implies exists|j: int|
            0 <= j < fs.len() && #[trigger] f2[i] == fs[j] by {
            if i < frames.len() && f2[i] == frames[i] {
                let j = choose|j: int|
                    0 <= j < fs.drop_last().len() && frames[i] == fs.drop_last()[j];
                assert(f2[i] == fs[j]);
            } else {
                assert(f2[i] == fs[fs.len() - 1]);
            }
        }
    }
}

/// What a timeline of a capture with frames starts and ends with: the first
/// frame at zero, the capture's last frame last, no frame that is not the
/// capture's, and a loop that lasts until the last frame has been shown for
/// the tail, and at least the shortest frame time, or as long as a
/// [`Duration`] holds.
pub proof fn law_timeline_ends(raw: Seq<(nat, FrameView)>, o: OptionsView)
    requires
        raw.len() > 0,
    ensures
        timeline_of(raw, o).starts[0] == 0,
        timeline_of(raw, o).frames.last() == raw.last().1,
        forall|i: int|
            0 <= i < timeline_of(raw, o).frames.len() ==> exists|j: int|
                0 <= j < raw.len() && #[trigger] timeline_of(raw, o).frames[i] == raw[j].1,
        timeline_of(raw, o).total == min_nat(
            timeline_of(raw, o).starts.last() + max_nat(o.tail, o.min_frame),
            MAX_NANOS as nat,
        ),
{
    let d = dedup(raw);
    let times = d.map_values(|p: (nat, FrameView)| p.0);
    let frames = d.map_values(|p: (nat, FrameView)| p.1);
    let c = clocks(times, o.trim_idle, o.speed);
    let q = c.map_values(|x: nat| quantized(x, o.quantize));
    lemma_clocks_len(times, o.trim_idle, o.speed);
    lemma_dedup_nonempty(raw);
    lemma_dedup_frames(raw);
    lemma_merged_ends(q, frames, o.min_frame);
    law_merged_pairs(q, frames, o.min_frame);
    let t = timeline_of(raw, o);
    assert(c[0] == 0) by {
        lemma_clocks_prefix(times, o.trim_idle, o.speed, 1);
        assert(times.take(1).len() == 1);
        assert(clocks(times.take(1), o.trim_idle, o.speed) == seq![0nat]);
        assert(c.take(1)[0] == c[0]);
    }
    if o.quantize > 0 {
        assert((o.quantize / 2) / o.quantize == 0) by (nonlinear_arith)
            requires
                o.quantize > 0,
        ;
    }
    assert(q[0] == 0);
    assert forall|i: int| 0 <= i < t.frames.len() implies exists|j: int|
        0 <= j < raw.len() && #[trigger] t.frames[i] == raw[j].1 by {
        let k = choose|k: int| 0 <= k < frames.len() && t.frames[i] == frames[k];
        let j = choose|j: int| 0 <= j < raw.len() && d[k] == raw[j];
        assert(t.frames[i] == raw[j].1);
    }
}

/// Playing at speed `s` (in millionths) divides every start by the speed:
/// where neither playing saturates, the start at speed `s`, times `s`, is the
/// start at normal speed in millionths, less under one nanosecond's worth
/// for each gap before it, each gap being rounded down on its own.
pub proof fn law_speed_scales(times: Seq<nat>, trim: Option<nat>, s: int, i: int)
    requires
        s > 0,
        0 <= i < times.len(),
        clocks(times, trim, 1_000_000)[i] < MAX_NANOS,
        clocks(times, trim, s)[i] < MAX_NANOS,
    ensures
        clocks(times, trim, s)[i] * s <= clocks(times, trim, 1_000_000)[i] * 1_000_000,
        clocks(times, trim, 1_000_000)[i] * 1_000_000 <= clocks(times, trim, s)[i] * s + i * (s
            - 1),
    decreases times.len(),
{
    lemma_clocks_len(times, trim, s);
    lemma_clocks_len(times, trim, 1_000_000);
    if times.len() == 1 {
        assert(clocks(times, trim, s)[i] == 0);
        assert(clocks(times, trim, 1_000_000)[i] == 0);
        assert(0 * s == 0);
    } else if i < times.len() - 1 {
        lemma_clocks_prefix(times, trim, s, times.len() - 1);
        lemma_clocks_prefix(times, trim, 1_000_000, times.len() - 1);
        assert(times.take(times.len() - 1) == times.drop_last());
        assert(clocks(times, trim, s)[i] == clocks(times.drop_last(), trim, s)[i]);
        assert(clocks(times, trim, 1_000_000)[i] == clocks(times.drop_last(), trim, 1_000_000)[i]);
        law_speed_scales(times.drop_last(), trim, s, i);
    } else {
        let tb = clocks(times.drop_last(), trim, 1_000_000);
        let tf = clocks(times.drop_last(), trim, s);
        lemma_clocks_len(times.drop_last(), trim, s);
        lemma_clocks_len(times.drop_last(), trim, 1_000_000);
        let prev = times[times.len() - 2];
        let at = times.last();
        let gap: nat = if at >= prev {
            (at - prev) as nat
        } else {
            0
        };
        let g: nat = match trim {
            Some(m) => min_nat(gap, m),
            None => gap,
        };
        let n = (g * 1_000_000) as int;
        assert(n / 1_000_000 == g) by (nonlinear_arith)
            requires
                n == g * 1_000_000,
        ;
        let f = (n / s) as nat;
        assert(f * s <= n && n <= f * s + (s - 1)) by (nonlinear_arith)
            requires
                s > 0,
                n >= 0,
                f == n / s,
        ;
        assert(f >= 0) by (nonlinear_arith)
            requires
                s > 0,
                n >= 0,
                f == n / s,
        ;
        assert(scaled_gap(prev, at, trim, s) == f);
        assert(scaled_gap(prev, at, trim, 1_000_000) == g);
        assert(clocks(times, trim, s)[i] == min_nat(tf.last() + f, MAX_NANOS as nat));
        assert(clocks(times, trim, 1_000_000)[i] == min_nat(tb.last() + g, MAX_NANOS as nat));
        law_speed_scales(times.drop_last(), trim, s, i - 1);
        let a = tf.last();
        let b = tb.last();
        assert(a * s <= b * 1_000_000);
        assert(b * 1_000_000 <= a * s + (i - 1) * (s - 1));
        assert((a + f) * s <= (b + g) * 1_000_000) by (nonlinear_arith)
            requires
                a * s <= b * 1_000_000,
                f * s <= n,
                n == g * 1_000_000,
        ;
        assert((b + g) * 1_000_000 <= (a + f) * s + i * (s - 1)) by (nonlinear_arith)
            requires
                b * 1_000_000 <= a * s + (i - 1) * (s - 1),
                n <= f * s + (s - 1),
                n == g * 1_000_000,
        ;
        assert(clocks(times, trim, s)[i] == a + f);
        assert(clocks(times, trim, 1_000_000)[i] == b + g);
    }
}

/// When each frame of a capture starts playing, before rounding to steps.
pub open spec fn play_clocks(raw: Seq<(nat, FrameView)>, o: OptionsView) -> Seq<nat> {
    clocks(dedup(raw).map_values(|p: (nat, FrameView)| p.0), o.trim_idle, o.speed)
}

/// No clock is past the longest span.
proof fn lemma_clocks_held(times: Seq<nat>, trim: Option<nat>, speed: int)
    ensures
        forall|i: int| 0 <= i < times.len() ==> #[trigger] clocks(times, trim, speed)[i] <= MAX_NANOS,
        forall|i: int|
            0 <= i < times.len() - 1 ==> #[trigger] clocks(times, trim, speed)[i] <= clocks(
                times,
                trim,
                speed,
            )[i + 1],
    decreases times.len(),
{
    lemma_clocks_len(times, trim, speed);
    if times.len() > 1 {
        lemma_clocks_held(times.drop_last(), trim, speed);
        lemma_clocks_len(times.drop_last(), trim, speed);
        let c0 = clocks(times.drop_last(), trim, speed);
        let c = clocks(times, trim, speed);
        assert(c == c0.push(c.last()));
        assert(c0.last() <= MAX_NANOS);
    }
}

/// Merging with no shortest frame keeps every frame and start.
proof fn lemma_merged_zero(ts: Seq<nat>, fs: Seq<FrameView>)
    requires
        ts.len() == fs.len(),
    ensures
        merged(ts, fs, 0) == (fs, ts),
    decreases ts.len(),
{
    if ts.len() > 0 {
        lemma_merged_zero(ts.drop_last(), fs.drop_last());
        assert(fs.drop_last().push(fs.last()) == fs);
        assert(ts.drop_last().push(ts.last()) == ts);
    }
}

/// Rounding to steps keeps the order of two times whose rounding stays
/// below 2^64 nanoseconds.
proof fn lemma_quantized_order(x: nat, y: nat, q: nat)
    requires
        x <= y,
        y + q < 0x1_0000_0000_0000_0000,
    ensures
        quantized(x, q) <= quantized(y, q),
{
    if q > 0 {
        let a = (x + q / 2) / q;
        let b = (y + q / 2) / q;
        assert(a <= b) by (nonlinear_arith)
            requires
                x <= y,
                q > 0,
                a == (x + q / 2) / q,
                b == (y + q / 2) / q,
        ;
        assert(a * q <= b * q && b * q <= y + q / 2) by (nonlinear_arith)
            requires
                a <= b,
                q > 0,
                b == (y + q / 2) / q,
        ;
        vstd::arithmetic::div_mod::lemma_small_mod((a * q) as nat, 0x1_0000_0000_0000_0000);
        vstd::arithmetic::div_mod::lemma_small_mod((b * q) as nat, 0x1_0000_0000_0000_0000);
    }
}

/// With no shortest frame, frames start in the order they were captured, as
/// long as no start reaches 2^64 nanoseconds, where the steps the starts
/// are rounded to are kept.
pub proof fn law_timeline_in_order(raw: Seq<(nat, FrameView)>, o: OptionsView)
    requires
        o.min_frame == 0,
        forall|i: int|
            0 <= i < play_clocks(raw, o).len() ==> #[trigger] play_clocks(raw, o)[i] + o.quantize
                < 0x1_0000_0000_0000_0000,
    ensures
        forall|i: int|
            0 <= i < timeline_of(raw, o).starts.len() - 1 ==> #[trigger] timeline_of(raw, o).starts[i]
                <= timeline_of(raw, o).starts[i + 1],
{
    let d = dedup(raw);
    let times = d.map_values(|p: (nat, FrameView)| p.0);
    let frames = d.map_values(|p: (nat, FrameView)| p.1);
    let c = clocks(times, o.trim_idle, o.speed);
    let q = c.map_values(|x: nat| quantized(x, o.quantize));
    lemma_clocks_len(times, o.trim_idle, o.speed);
    lemma_clocks_held(times, o.trim_idle, o.speed);
    lemma_merged_zero(q, frames);
    let t = timeline_of(raw, o);
    assert(t.starts == q);
    assert forall|i: int| 0 <= i < t.starts.len() - 1 implies #[trigger] t.starts[i] <= t.starts[i
        + 1] by {
        assert(c[i] <= c[i + 1]);
        assert(c[i + 1] + o.quantize < 0x1_0000_0000_0000_0000) by {
            assert(play_clocks(raw, o)[i + 1] == c[i + 1]);
        }
        lemma_quantized_order(c[i], c[i + 1], o.quantize);
    }
}

/// With starts not rounded to steps and no shortest frame, a timeline's
/// starts are its play clocks, frame for frame.
proof fn lemma_plain_timeline(raw: Seq<(nat, FrameView)>, o: OptionsView)
    requires
        o.quantize == 0,
        o.min_frame == 0,
    ensures
        timeline_of(raw, o).starts == play_clocks(raw, o),
        timeline_of(raw, o).frames == dedup(raw).map_values(|p: (nat, FrameView)| p.1),
{
    let d = dedup(raw);
    let times = d.map_values(|p: (nat, FrameView)| p.0);
    let frames = d.map_values(|p: (nat, FrameView)| p.1);
    let c = clocks(times, o.trim_idle, o.speed);
    let q = c.map_values(|x: nat| quantized(x, o.quantize));
    lemma_clocks_len(times, o.trim_idle, o.speed);
    assert(q =~= c);
    lemma_merged_zero(q, frames);
}

/// Playing a capture at speed `s` (in millionths) shows the same frames as
/// at normal speed, each starting at its normal start divided by the speed,
/// rounded down once for each gap before it, where the starts are not
/// rounded to steps, there is no shortest frame and neither playing reaches
/// the longest span.
pub proof fn law_timeline_speed(raw: Seq<(nat, FrameView)>, o: OptionsView, i: int)
    requires
        o.quantize == 0,
        o.min_frame == 0,
        o.speed > 0,
        0 <= i < timeline_of(raw, o).starts.len(),
        timeline_of(raw, o).starts[i] < MAX_NANOS,
        timeline_of(raw, OptionsView { speed: 1_000_000, ..o }).starts[i] < MAX_NANOS,
    ensures
        timeline_of(raw, o).frames == timeline_of(raw, OptionsView { speed: 1_000_000, ..o }).frames,
        timeline_of(raw, o).starts.len() == timeline_of(raw, OptionsView { speed: 1_000_000, ..o }).starts.len(),
        timeline_of(raw, o).starts[i] * o.speed <= timeline_of(
            raw,
            OptionsView { speed: 1_000_000, ..o },
        ).starts[i] * 1_000_000,
        timeline_of(raw, OptionsView { speed: 1_000_000, ..o }).starts[i] * 1_000_000
            <= timeline_of(raw, o).starts[i] * o.speed + i * (o.speed - 1),
{
    let o1 = OptionsView { speed: 1_000_000, ..o };
    lemma_plain_timeline(raw, o);
    lemma_plain_timeline(raw, o1);
    let times = dedup(raw).map_values(|p: (nat, FrameView)| p.0);
    lemma_clocks_len(times, o.trim_idle, o.speed);
    lemma_clocks_len(times, o.trim_idle, 1_000_000);
    law_speed_scales(times, o.trim_idle, o.speed, i);
}

/// Pauses are cut to the idle limit, never below it: a pause longer than
/// the limit plays for exactly the limit, a pause within it plays whole, and
/// a capture that steps back in time adds no time; each at the playback
/// speed, and held at the longest span there is.
pub proof fn law_pause_cut_to_limit(times: Seq<nat>, m: nat, speed: int, i: int)
    requires
        0 < i < times.len(),
    ensures
        ({
            let c = clocks(times, Some(m), speed);
            let sp = effective_speed(speed);
            &&& times[i] >= times[i - 1] + m ==> c[i] == min_nat(
                c[i - 1] + ((m * 1_000_000) as int / sp) as nat,
                MAX_NANOS as nat,
            )
            &&& times[i - 1] <= times[i] <= times[i - 1] + m ==> c[i] == min_nat(
                c[i - 1] + ((((times[i] - times[i - 1]) as nat) * 1_000_000) as int / sp) as nat,
                MAX_NANOS as nat,
            )
            &&& times[i] < times[i - 1] ==> c[i] == c[i - 1]
        }),
    decreases times.len(),
{
    lemma_clocks_len(times, Some(m), speed);
    lemma_clocks_held(times, Some(m), speed);
    if i < times.len() - 1 {
        law_pause_cut_to_limit(times.drop_last(), m, speed, i);
        lemma_clocks_prefix(times, Some(m), speed, times.len() - 1);
        assert(times.take(times.len() - 1) == times.drop_last());
        assert(clocks(times, Some(m), speed)[i] == clocks(times.drop_last(), Some(m), speed)[i]);
        assert(clocks(times, Some(m), speed)[i - 1] == clocks(times.drop_last(), Some(m), speed)[i
            - 1]);
        assert(times.drop_last()[i] == times[i] && times.drop_last()[i - 1] == times[i - 1]);
    } else {
        let c0 = clocks(times.drop_last(), Some(m), speed);
        lemma_clocks_len(times.drop_last(), Some(m), speed);
        let prev = times[times.len() - 2];
        let at = times.last();
        let c = clocks(times, Some(m), speed);
        assert(c[i - 1] == c0.last());
        assert(c[i] == min_nat(c0.last() + scaled_gap(prev, at, Some(m), speed), MAX_NANOS as nat));
        if at < prev {
            assert(scaled_gap(prev, at, Some(m), speed) == 0);
            assert(c[i - 1] <= MAX_NANOS);
        }
    }
}

} // verus!
