use vstd::arithmetic::div_mod::{
    lemma_fundamental_div_mod, lemma_hoist_over_denominator, lemma_mod_multiples_vanish,
};
use vstd::prelude::*;

verus! {

/// Fixed ticks per second of simulated time: a tick lasts 1/120 s.
pub const TICKS_PER_SECOND: u64 = 120;

pub const NANOS_PER_SECOND: u64 = 1_000_000_000;

/// Decouples the simulation rate from the frame rate. Elapsed real time is
/// accumulated, scaled by `TICKS_PER_SECOND` so that one tick is exactly
/// `NANOS_PER_SECOND` scaled nanoseconds; whole ticks are handed out and
/// the fraction left over is carried to the next frame.
#[derive(Clone, Copy, Debug, PartialEq, Eq, Structural)]
pub struct FixedTimestep {
    pub accumulator: u64,
}

/// Scaled time available in a frame: the carried fraction plus the frame's
/// elapsed nanoseconds times `TICKS_PER_SECOND`.
pub open spec fn available(acc: int, elapsed_ns: int) -> int {
    acc + TICKS_PER_SECOND * elapsed_ns
}

/// Whole ticks that fall due in a frame.
pub open spec fn ticks_due(acc: int, elapsed_ns: int) -> int {
    available(acc, elapsed_ns) / (NANOS_PER_SECOND as int)
}

/// Scaled time carried over to the next frame.
pub open spec fn carried(acc: int, elapsed_ns: int) -> int {
    available(acc, elapsed_ns) % (NANOS_PER_SECOND as int)
}

/// Total of the frame durations.
pub open spec fn total_ns(frames: Seq<u64>) -> int
    decreases frames.len(),
{
    if frames.len() == 0 {
        0
    } else {
        frames[0] + total_ns(frames.drop_first())
    }
}

/// Ticks run over a run of frames, starting from a carried fraction `acc`.
pub open spec fn ticks_over(acc: int, frames: Seq<u64>) -> int
    decreases frames.len(),
{
    if frames.len() == 0 {
        0
    } else {
        ticks_due(acc, frames[0] as int) + ticks_over(carried(acc, frames[0] as int), frames.drop_first())
    }
}

/// The fraction carried after a run of frames.
pub open spec fn carry_over(acc: int, frames: Seq<u64>) -> int
    decreases frames.len(),
{
    if frames.len() == 0 {
        acc
    } else {
        carry_over(carried(acc, frames[0] as int), frames.drop_first())
    }
}

impl FixedTimestep {
    /// A scheduler with nothing carried.
    pub fn new() -> (r: FixedTimestep)
        ensures
            r.accumulator == 0,
            r.wf(),
    {
        FixedTimestep { accumulator: 0 }
    }

    /// Less than one tick is ever carried.
    pub open spec fn wf(self) -> bool {
        self.accumulator < NANOS_PER_SECOND
    }

    /// How many ticks a frame of `elapsed_ns` nanoseconds would run.
    pub fn ticks_for(&self, elapsed_ns: u64) -> (r: u64)
        requires
            self.wf(),
        ensures
            r == ticks_due(self.accumulator as int, elapsed_ns as int),
    {
        let total = scaled_total(self.accumulator, elapsed_ns);
        (total / NANOS_PER_SECOND as u128) as u64
    }

    /// Adds a frame's elapsed time and takes out every whole tick that is
    /// due, keeping the remainder for the next frame.
    pub fn accumulate(&mut self, elapsed_ns: u64) -> (ticks: u64)
        requires
            old(self).wf(),
        ensures
            ticks == ticks_due(old(self).accumulator as int, elapsed_ns as int),
            final(self).accumulator == carried(old(self).accumulator as int, elapsed_ns as int),
            final(self).wf(),
    {
        let total = scaled_total(self.accumulator, elapsed_ns);
        let ticks = (total / NANOS_PER_SECOND as u128) as u64;
        self.accumulator = (total % NANOS_PER_SECOND as u128) as u64;
        ticks
    }
}

/// Ticks are conserved: over any run of frames, however the time is split
/// between them, the scheduler runs exactly as many ticks as fit whole into
/// the total time (plus what was carried in), and carries the rest.
pub proof fn lemma_tick_conservation(acc: int, frames: Seq<u64>)
    requires
        0 <= acc < NANOS_PER_SECOND,
    ensures
        ticks_over(acc, frames) == available(acc, total_ns(frames)) / (NANOS_PER_SECOND as int),
        carry_over(acc, frames) == available(acc, total_ns(frames)) % (NANOS_PER_SECOND as int),
    decreases frames.len(),
{
    let n = NANOS_PER_SECOND as int;
    if frames.len() > 0 {
        let d = frames[0] as int;
        let rest = frames.drop_first();
        let r = carried(acc, d);
        let q = ticks_due(acc, d);
        lemma_tick_conservation(r, rest);
        lemma_fundamental_div_mod(available(acc, d), n);
        let x = r + TICKS_PER_SECOND * total_ns(rest);
        assert(available(acc, total_ns(frames)) == x + q * n) by (nonlinear_arith)
            requires
                available(acc, d) == n * q + r,
                total_ns(frames) == d + total_ns(rest),
                x == r + TICKS_PER_SECOND * total_ns(rest),
        ;
        lemma_hoist_over_denominator(x, q, n as nat);
        assert(x + q * n == n * q + x) by (nonlinear_arith);
        lemma_mod_multiples_vanish(q, x, n);
    }
}

/// The scaled time available in a frame, with the number of ticks in it
/// bounded so that it fits a `u64`.
fn scaled_total(acc: u64, elapsed_ns: u64) -> (r: u128)
    requires
        acc < NANOS_PER_SECOND,
    ensures
        r == available(acc as int, elapsed_ns as int),
        (r as int) / (NANOS_PER_SECOND as int) <= u64::MAX,
{
    let e: u128 = elapsed_ns as u128;
    assert(TICKS_PER_SECOND * e <= 120 * 0xffff_ffff_ffff_ffffu128) by (nonlinear_arith)
        requires
            e <= 0xffff_ffff_ffff_ffffu128,
    ;
    let r: u128 = acc as u128 + 120 * e;
    assert((r as int) / 1_000_000_000int <= r) by (nonlinear_arith)
        requires
            r >= 0,
    ;
    assert((r as int) / 1_000_000_000int <= u64::MAX) by (nonlinear_arith)
        requires
            r <= 1_000_000_000 + 120 * 0xffff_ffff_ffff_ffffu128,
    ;
    r
}

/// The law above from a fresh scheduler: the number of ticks is the total
/// time divided by the tick length, rounded down.
pub proof fn lemma_ticks_from_rest(frames: Seq<u64>)
    ensures
        ticks_over(0, frames) == (TICKS_PER_SECOND * total_ns(frames)) / (NANOS_PER_SECOND as int),
{
    lemma_tick_conservation(0, frames);
}

} // verus!
