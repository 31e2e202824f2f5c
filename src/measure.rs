//! Timed pointer chasing, loop-overhead calibration and the per-access latency figure.
use vstd::prelude::*;
use crate::chain::{build_chain, is_chain, lemma_next_multiple};
use crate::clock::Clock;

verus! {

/// The outcome of a timed run over one ring.
pub struct Sample {
    /// Completed outer iterations; each one is `stride` laps of the ring.
    pub steps: u64,
    /// Nanoseconds from the start of the run to the check that ended it.
    pub elapsed_ns: u64,
}

/// One measured cell of the grid.
pub struct Cell {
    pub steps: u64,
    pub sample_ns: u64,
    pub overhead_ns: u64,
    /// Per-access latency in tenths of a nanosecond.
    pub tenths: u128,
}

/// `n / d` rounded to the nearest integer, halves rounded up.
pub open spec fn round_div(n: nat, d: nat) -> nat {
    n / d + if 2 * (n % d) >= d {
        1nat
    } else {
        0nat
    }
}

/// Per-access latency in tenths of a nanosecond: the chase time net of loop
/// overhead (never negative), spread over `steps * csize` loads, rounded to the
/// nearest tenth, and never below one tenth.
pub open spec fn latency_tenths_of(sample_ns: nat, overhead_ns: nat, steps: nat, csize: nat) -> nat {
    let net: nat = if sample_ns >= overhead_ns {
        (sample_ns - overhead_ns) as nat
    } else {
        0
    };
    let t = round_div(10 * net, steps * csize);
    if t < 1 {
        1
    } else {
        t
    }
}

/// Per-access latency in tenths of a nanosecond (see `latency_tenths_of`).
pub fn latency_tenths(sample_ns: u64, overhead_ns: u64, steps: u64, csize: usize) -> (r: u128)
    requires
        steps >= 1,
        csize >= 1,
    ensures
        r == latency_tenths_of(sample_ns as nat, overhead_ns as nat, steps as nat, csize as nat),
        r >= 1,
{
    let net: u64 = if sample_ns >= overhead_ns {
        sample_ns - overhead_ns
    } else {
        0
    };
    let n: u128 = 10 * (net as u128);
    assert((steps as u128) * (csize as u128) <= u64::MAX * u64::MAX) by (nonlinear_arith)
        requires
            steps <= u64::MAX,
            csize <= u64::MAX,
    ;
    let d: u128 = (steps as u128) * (csize as u128);
    assert(d >= 1) by (nonlinear_arith)
        requires
            d == steps * csize,
            steps >= 1,
            csize >= 1,
    ;
    let q = n / d;
    let rem = n % d;
    let t: u128 = if rem >= d - rem {
        q + 1
    } else {
        q
    };
    if t < 1 {
        1
    } else {
        t
    }
}

/// One lap of the ring: dependent loads from index 0 until the sentinel comes back.
fn chase_lap(pool: &Vec<usize>, csize: usize, stride: usize)
    requires
        is_chain(pool@, csize as nat, stride as nat),
{
    let mut next: usize = 0;
    loop
        invariant
            is_chain(pool@, csize as nat, stride as nat),
            next % stride == 0,
            next + stride <= csize,
        decreases csize - next,
    {
        proof {
            vstd::arithmetic::div_mod::lemma_mod_sub_multiples_vanish(csize as int, stride as int);
            if next < csize - stride {
                lemma_next_multiple(next as int, (csize - stride) as int, stride as int);
                vstd::arithmetic::div_mod::lemma_mod_add_multiples_vanish(next as int, stride as int);
            }
        }
        next = pool[next];
        if next == 0 {
            break;
        }
    }
}

/// Nanoseconds from `start` to `now`, zero if the readings are out of order.
fn elapsed_between(start: u64, now: u64) -> (r: u64)
    ensures
        r == if now >= start { now - start } else { 0 },
{
    if now >= start {
        now - start
    } else {
        0
    }
}

/// Times repeated laps of the ring for a budget of `budget_ns` nanoseconds.
///
/// Waits first for the clock to tick over, then runs outer iterations of `stride`
/// laps each, checking the clock after each one, and stops at the first check at
/// which `budget_ns` has passed (or when the iteration count cannot grow further).
pub fn sample(pool: &Vec<usize>, clock: &Clock, csize: usize, stride: usize, budget_ns: u64) -> (r:
    Sample)
    requires
        is_chain(pool@, csize as nat, stride as nat),
    ensures
        r.steps >= 1,
        r.steps < u64::MAX ==> r.elapsed_ns >= budget_ns,
{
    let first = clock.now_ns();
    let mut tick = clock.now_ns();
    let mut spins: u64 = 0;
    while tick == first && spins < u64::MAX
        decreases u64::MAX - spins,
    {
        tick = clock.now_ns();
        spins = spins + 1;
    }
    let start = clock.now_ns();
    let mut steps: u64 = 0;
    let mut elapsed: u64 = 0;
    loop
        invariant_except_break
            is_chain(pool@, csize as nat, stride as nat),
            steps < u64::MAX,
        ensures
            steps >= 1,
            steps < u64::MAX ==> elapsed >= budget_ns,
        decreases u64::MAX - steps,
    {
        let mut laps: usize = 0;
        while laps < stride
            invariant
                is_chain(pool@, csize as nat, stride as nat),
            decreases stride - laps,
        {
            chase_lap(pool, csize, stride);
            laps = laps + 1;
        }
        steps = steps + 1;
        elapsed = elapsed_between(start, clock.now_ns());
        if elapsed >= budget_ns || steps == u64::MAX {
            break;
        }
    }
    Sample { steps, elapsed_ns: elapsed }
}

/// Times `steps` outer iterations of the same shape as `sample`'s, with each load
/// replaced by an index increment, and returns the elapsed nanoseconds.
pub fn overhead(clock: &Clock, csize: usize, stride: usize, steps: u64) -> u64
    requires
        0 < stride <= csize,
        csize % stride == 0,
{
    let start = clock.now_ns();
    let mut done: u64 = 0;
    while done < steps
        invariant
            0 < stride <= csize,
            csize % stride == 0,
        decreases steps - done,
    {
        let mut laps: usize = 0;
        while laps < stride
            invariant
                0 < stride <= csize,
                csize % stride == 0,
            decreases stride - laps,
        {
            let mut index: usize = 0;
            while index < csize
                invariant
                    0 < stride <= csize,
                    csize % stride == 0,
                    index % stride == 0,
                    index <= csize,
                decreases csize - index,
            {
                proof {
                    lemma_next_multiple(index as int, csize as int, stride as int);
                    vstd::arithmetic::div_mod::lemma_mod_add_multiples_vanish(
                        index as int,
                        stride as int,
                    );
                }
                index = index + stride;
            }
            laps = laps + 1;
        }
        done = done + 1;
    }
    elapsed_between(start, clock.now_ns())
}

/// Measures one cell: builds the ring, times it, calibrates the loop overhead for
/// the same number of iterations, and derives the per-access latency.
pub fn measure_cell(
    pool: &mut Vec<usize>,
    clock: &Clock,
    csize: usize,
    stride: usize,
    budget_ns: u64,
) -> (r: Cell)
    requires
        0 < stride <= csize,
        csize % stride == 0,
        csize <= old(pool).len(),
    ensures
        final(pool).len() == old(pool).len(),
        is_chain(final(pool)@, csize as nat, stride as nat),
        r.steps >= 1,
        r.steps < u64::MAX ==> r.sample_ns >= budget_ns,
        r.tenths == latency_tenths_of(
            r.sample_ns as nat,
            r.overhead_ns as nat,
            r.steps as nat,
            csize as nat,
        ),
        r.tenths >= 1,
{
    build_chain(pool, csize, stride);
    let s = sample(pool, clock, csize, stride, budget_ns);
    let o = overhead(clock, csize, stride, s.steps);
    let tenths = latency_tenths(s.elapsed_ns, o, s.steps, csize);
    Cell { steps: s.steps, sample_ns: s.elapsed_ns, overhead_ns: o, tenths }
}

} // verus!
