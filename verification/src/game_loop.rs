//! Fixed-timestep pacing for the main loop.
//!
//! The simulation advances in ticks of exactly 1/60 s. Each frame hands the
//! clock the real time it took; the clock answers how many ticks to run, and
//! keeps the remainder for the next frame and for interpolating the render.
//! A frame that would need three or more ticks is clamped to two, so a slow
//! frame cannot make the next one slower still.
//!
//! Time is kept exactly: one tick is `TICK_UNITS` units, and one nanosecond
//! of real time is `UNITS_PER_NANO` units.

use vstd::prelude::*;

verus! {

/// Simulation ticks per second.
pub const TICKS_PER_SECOND: u64 = 60;

/// Length of one tick in clock units.
pub const TICK_UNITS: u64 = 1_000_000_000;

/// Clock units in one nanosecond of real time.
pub const UNITS_PER_NANO: u64 = 60;

/// Number of recent frames over which the frame rate is averaged.
pub const FRAME_WINDOW: usize = 60;

/// What the clock decided for one frame.
#[derive(Clone, Copy, Debug)]
pub struct FrameStep {
    /// Fixed ticks to run this frame.
    pub ticks: u32,
    /// The frame fell behind by three ticks or more and was clamped.
    pub clamped: bool,
}

/// The accumulated time, in clock units, after a frame of `frame_nanos`
/// nanoseconds is added to `acc`, the clamp applied, and whole ticks taken out;
/// together with the number of ticks taken out and whether the clamp applied.
pub open spec fn advance_spec(acc: int, frame_nanos: int) -> (int, int, bool) {
    let total = acc + frame_nanos * UNITS_PER_NANO;
    if total >= 3 * TICK_UNITS {
        (2, 0, true)
    } else {
        (total / TICK_UNITS as int, total % TICK_UNITS as int, false)
    }
}

/// Sum of a sequence of frame times.
pub open spec fn seq_sum(s: Seq<u64>) -> int
    decreases s.len(),
{
    if s.len() == 0 {
        0
    } else {
        seq_sum(s.drop_last()) + s.last()
    }
}

/// The last `min(len, FRAME_WINDOW)` entries of `h`, oldest first.
pub open spec fn recent_window(h: Seq<u64>) -> Seq<u64> {
    if h.len() <= FRAME_WINDOW {
        h
    } else {
        h.subrange(h.len() - FRAME_WINDOW, h.len() as int)
    }
}

/// Frame pacing state of the main loop.
pub struct FrameClock {
    accumulator: u64,
    frame_times: Vec<u64>,
    frame_count: usize,
    history: Ghost<Seq<u64>>,
}

impl FrameClock {
    /// Time accumulated towards the next tick, in clock units.
    pub closed spec fn accumulated_spec(&self) -> int {
        self.accumulator as int
    }

    /// Every frame time handed to the clock so far, oldest first.
    pub closed spec fn frames(&self) -> Seq<u64> {
        self.history@
    }

    /// The clock's internal consistency: less than one tick is pending, and
    /// the ring of recent frame times matches the recorded frames.
    pub closed spec fn wf(&self) -> bool {
        &&& self.accumulator < TICK_UNITS
        &&& self.frame_times@.len() == FRAME_WINDOW
        &&& self.frame_count == self.history@.len()
        &&& forall|j: int|
            #![trigger self.history@[j]]
            0 <= j < self.history@.len() && j >= self.history@.len() - FRAME_WINDOW
                ==> self.frame_times@[j % FRAME_WINDOW as int] == self.history@[j]
    }

    /// A clock with no time accumulated and no frame recorded.
    pub fn new() -> (c: Self)
        ensures
            c.wf(),
            c.accumulated_spec() == 0,
            c.frames() == Seq::<u64>::empty(),
    {
        let mut frame_times: Vec<u64> = Vec::new();
        let mut i: usize = 0;
        while i < FRAME_WINDOW
            invariant
                i <= FRAME_WINDOW,
                frame_times@.len() == i,
            decreases FRAME_WINDOW - i,
        {
            frame_times.push(0);
            i += 1;
        }
        FrameClock { accumulator: 0, frame_times, frame_count: 0, history: Ghost(Seq::empty()) }
    }

    /// Number of frames recorded so far.
    pub fn frame_count(&self) -> (n: usize)
        requires
            self.wf(),
        ensures
            n == self.frames().len(),
    {
        self.frame_count
    }

    /// Time accumulated towards the next tick, in clock units (less than
    /// `TICK_UNITS`); divided by `TICK_UNITS` it is the render interpolation
    /// factor.
    pub fn accumulated(&self) -> (a: u64)
        requires
            self.wf(),
        ensures
            a == self.accumulated_spec(),
            a < TICK_UNITS,
    {
        self.accumulator
    }

    /// Records a frame that took `frame_nanos` nanoseconds and decides how
    /// many fixed ticks to run.
    pub fn advance(&mut self, frame_nanos: u64) -> (step: FrameStep)
        requires
            old(self).wf(),
            old(self).frames().len() < usize::MAX,
        ensures
            final(self).wf(),
            final(self).frames() == old(self).frames().push(frame_nanos),
            ({
                let (ticks, acc, clamped) = advance_spec(old(self).accumulated_spec(), frame_nanos as int);
                &&& step.ticks == ticks
                &&& final(self).accumulated_spec() == acc
                &&& step.clamped == clamped
            }),
            step.clamped <==> old(self).accumulated_spec() + frame_nanos * UNITS_PER_NANO >= 3 * TICK_UNITS,
            step.clamped ==> step.ticks == 2 && final(self).accumulated_spec() == 0,
            !step.clamped ==> step.ticks * TICK_UNITS + final(self).accumulated_spec()
                == old(self).accumulated_spec() + frame_nanos * UNITS_PER_NANO,
            step.ticks <= 2,
            final(self).accumulated_spec() < TICK_UNITS,
    {
        proof {
            lemma_advance_bounds(self.accumulator as int, frame_nanos as int);
        }
        let slot = self.frame_count % FRAME_WINDOW;
        self.frame_times.set(slot, frame_nanos);
        self.frame_count = self.frame_count + 1;
        let ghost old_history = self.history@;
        self.history = Ghost(old_history.push(frame_nanos));
        proof {
            let h = self.history@;
            assert forall|j: int|
                #![trigger h[j]]
                0 <= j < h.len() && j >= h.len() - FRAME_WINDOW
                    implies self.frame_times@[j % FRAME_WINDOW as int] == h[j] by {
                if j < old_history.len() {
                    assert(old_history[j] == h[j]);
                    assert(j % FRAME_WINDOW as int != slot as int);
                }
            }
        }

        let mut total: u128 = (self.accumulator as u128) + (frame_nanos as u128) * (UNITS_PER_NANO as u128);
        let mut clamped = false;
        if total >= 3 * (TICK_UNITS as u128) {
            total = 2 * (TICK_UNITS as u128);
            clamped = true;
        }
        let mut ticks: u32 = 0;
        while total >= TICK_UNITS as u128
            invariant
                total <= 3 * TICK_UNITS,
                ticks <= 2,
                (ticks as int) * TICK_UNITS + total == (if clamped {
                    2 * TICK_UNITS as int
                } else {
                    old(self).accumulator + frame_nanos * UNITS_PER_NANO
                }),
                !clamped ==> old(self).accumulator + frame_nanos * UNITS_PER_NANO < 3 * TICK_UNITS,
            decreases total,
        {
            total = total - TICK_UNITS as u128;
            ticks = ticks + 1;
        }
        self.accumulator = total as u64;
        proof {
            let t = old(self).accumulator + frame_nanos * UNITS_PER_NANO;
            if !clamped {
                vstd::arithmetic::div_mod::lemma_fundamental_div_mod_converse(
                    t,
                    TICK_UNITS as int,
                    ticks as int,
                    total as int,
                );
            }
        }
        FrameStep { ticks, clamped }
    }

    /// The frame times of the last `min(frames, FRAME_WINDOW)` frames, summed,
    /// and how many frames that is.
    pub fn recent_frame_total(&self) -> (r: (u128, usize))
        requires
            self.wf(),
        ensures
            r.0 == seq_sum(recent_window(self.frames())),
            r.1 == recent_window(self.frames()).len(),
    {
        let count = self.frame_count;
        let n = if count < FRAME_WINDOW { count } else { FRAME_WINDOW };
        let start = count - n;
        let ghost h = self.history@;
        let ghost w = recent_window(h);
        let mut sum: u128 = 0;
        let mut k: usize = 0;
        while k < n
            invariant
                self.wf(),
                h == self.history@,
                w == recent_window(h),
                count == h.len(),
                n == w.len(),
                start == count - n,
                k <= n,
                sum == seq_sum(w.take(k as int)),
                sum <= k * 0xffff_ffff_ffff_ffffu64,
            decreases n - k,
        {
            let idx = (start + k) % FRAME_WINDOW;
            let v = self.frame_times[idx];
            proof {
                assert(w[k as int] == h[start + k]);
                assert(v == h[start + k]);
                assert(w.take(k + 1).drop_last() =~= w.take(k as int));
            }
            sum = sum + v as u128;
            k += 1;
        }
        proof {
            assert(w.take(n as int) =~= w);
        }
        (sum, n)
    }
}

/// A frame never runs more than two ticks, leaves less than one tick
/// pending, is clamped exactly when three or more ticks are due, and, when
/// not clamped, turns its time into ticks without losing or adding any.
/// A clamped frame runs exactly two ticks and leaves nothing pending: the
/// backlog beyond those two ticks is dropped, whatever its size.
pub proof fn lemma_advance_bounds(acc: int, frame_nanos: int)
    requires
        0 <= acc < TICK_UNITS,
        0 <= frame_nanos,
    ensures
        ({
            let (ticks, rest, clamped) = advance_spec(acc, frame_nanos);
            &&& 0 <= ticks <= 2
            &&& 0 <= rest < TICK_UNITS
            &&& clamped <==> acc + frame_nanos * UNITS_PER_NANO >= 3 * TICK_UNITS
            &&& !clamped ==> ticks * TICK_UNITS + rest == acc + frame_nanos * UNITS_PER_NANO
            &&& clamped ==> ticks == 2 && rest == 0
        }),
{
    let total = acc + frame_nanos * UNITS_PER_NANO;
    if total < 3 * TICK_UNITS {
        vstd::arithmetic::div_mod::lemma_fundamental_div_mod(total, TICK_UNITS as int);
        vstd::arithmetic::div_mod::lemma_div_is_ordered(total, 3 * TICK_UNITS as int - 1, TICK_UNITS as int);
        vstd::arithmetic::div_mod::lemma_mod_bound(total, TICK_UNITS as int);
        assert((3 * TICK_UNITS as int - 1) / TICK_UNITS as int == 2);
    }
}

/// Two clamped frames end in the same state, however long each of them was
/// and whatever was pending before them.
pub proof fn lemma_clamp_forgets_backlog(acc1: int, nanos1: int, acc2: int, nanos2: int)
    requires
        0 <= acc1 < TICK_UNITS,
        0 <= acc2 < TICK_UNITS,
        0 <= nanos1,
        0 <= nanos2,
        acc1 + nanos1 * UNITS_PER_NANO >= 3 * TICK_UNITS,
        acc2 + nanos2 * UNITS_PER_NANO >= 3 * TICK_UNITS,
    ensures
        advance_spec(acc1, nanos1) == advance_spec(acc2, nanos2),
        advance_spec(acc1, nanos1) == (2int, 0int, true),
{
    lemma_advance_bounds(acc1, nanos1);
    lemma_advance_bounds(acc2, nanos2);
}

/// Ticks run and time left pending after a sequence of frames, starting with
/// `acc` pending, and whether any of the frames was clamped.
pub open spec fn run_frames(acc: int, frames: Seq<u64>) -> (int, int, bool)
    decreases frames.len(),
{
    if frames.len() == 0 {
        (0, acc, false)
    } else {
        let (ticks, rest, clamped) = run_frames(acc, frames.drop_last());
        let (t, r, c) = advance_spec(rest, frames.last() as int);
        (ticks + t, r, clamped || c)
    }
}

/// Over any run of frames none of which is clamped, the ticks run plus the
/// time still pending equal the time pending at the start plus all the
/// frame time handed in: the clock neither loses nor invents time.
pub proof fn lemma_time_conserved(acc: int, frames: Seq<u64>)
    requires
        0 <= acc < TICK_UNITS,
    ensures
        ({
            let (ticks, rest, clamped) = run_frames(acc, frames);
            &&& 0 <= rest < TICK_UNITS
            &&& !clamped ==> ticks * TICK_UNITS + rest == acc + seq_sum(frames) * UNITS_PER_NANO
        }),
    decreases frames.len(),
{
    if frames.len() > 0 {
        lemma_time_conserved(acc, frames.drop_last());
        let (ticks, rest, clamped) = run_frames(acc, frames.drop_last());
        lemma_advance_bounds(rest, frames.last() as int);
    }
}

} // verus!
