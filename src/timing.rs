use vstd::prelude::*;

verus! {

/// Clock cycles that one iteration of the busy-wait loop is assumed to take.
///
/// This is an assumption, not a measurement of the loop as compiled: the
/// loop's real cost depends on the target and the optimiser. Check the pulse
/// widths on the hardware (with an oscilloscope) and, where they are off,
/// adjust the pulse times or switch to a measured magic number.
pub const CYCLES_PER_LOOP: u64 = 3;

/// Wait units that make up the latch when the loop count is a fixed magic
/// number (about 333 ns per unit, so about 6 us in all).
pub const LATCH_UNITS: usize = 18;

/// Loops that last `ns` nanoseconds at `mhz` MHz: the duration divided by the
/// time of one loop (`CYCLES_PER_LOOP` cycles of `1000 / mhz` ns), truncated.
pub open spec fn loops_for(ns: u32, mhz: u32) -> int {
    (ns * mhz) / (1000 * CYCLES_PER_LOOP)
}

/// Loop count for a target duration of `ns` nanoseconds at a core clock of
/// `mhz` MHz.
pub fn n_loops_at(ns: u32, mhz: u32) -> (r: u64)
    ensures
        r as int == loops_for(ns, mhz),
{
    proof {
        assert(ns * mhz <= u32::MAX * u32::MAX) by (nonlinear_arith);
    }
    let product: u64 = ns as u64 * mhz as u64;
    product / (1000 * CYCLES_PER_LOOP)
}

/// Target durations, in nanoseconds, of the phases of a bit and of the latch.
#[derive(Clone, Copy, Debug, PartialEq, Eq, Structural)]
pub struct PulseTimes {
    /// Line high while sending a 1.
    pub one_high: u32,
    /// Line low after the high phase of a 1.
    pub one_low: u32,
    /// Line high while sending a 0.
    pub zero_high: u32,
    /// Line low after the high phase of a 0.
    pub zero_low: u32,
    /// Low hold that ends a frame.
    pub latch: u32,
}

/// 700/350 ns for a 1, 300/666 ns for a 0, and a 6 us latch.
///
/// These are the times this driver uses by default. They depart from the
/// common datasheet values (see `datasheet_times`): the low phases are shorter,
/// which keeps a bit near 1 us, and the latch is only long enough for LED
/// variants that reset after 6 us.
pub open spec fn standard_times() -> PulseTimes {
    PulseTimes { one_high: 700, one_low: 350, zero_high: 300, zero_low: 666, latch: 6000 }
}

/// Common WS2812 datasheet values: 700/600 ns for a 1, 350/800 ns for a 0,
/// and a 50 us reset.
pub open spec fn datasheet_times() -> PulseTimes {
    PulseTimes { one_high: 700, one_low: 600, zero_high: 350, zero_low: 800, latch: 50000 }
}

impl PulseTimes {
    /// Common WS2812 datasheet values, for LEDs that need the longer reset.
    pub fn datasheet() -> (r: PulseTimes)
        ensures
            r == datasheet_times(),
    {
        PulseTimes { one_high: 700, one_low: 600, zero_high: 350, zero_low: 800, latch: 50000 }
    }

    /// The default times: 700/350 ns for a 1, 300/666 ns for a 0, and a 6 us
    /// latch.
    pub fn standard() -> (r: PulseTimes)
        ensures
            r == standard_times(),
    {
        PulseTimes { one_high: 700, one_low: 350, zero_high: 300, zero_low: 666, latch: 6000 }
    }
}

/// How wait durations are obtained.
#[derive(Clone, Copy, Debug, PartialEq, Eq, Structural)]
pub enum Calibration {
    /// From the core clock in MHz and the target duration of each phase.
    Clock { mhz: u32 },
    /// One measured loop count, the same for every wait unit: a 1 is high for
    /// two units and low for one, a 0 is high for one and low for two.
    Magic { loops: u32 },
}

/// A calibration together with the phase durations it is applied to.
#[derive(Clone, Copy, Debug, PartialEq, Eq, Structural)]
pub struct Timing {
    pub calibration: Calibration,
    pub times: PulseTimes,
}

/// A faster clock needs at least as many loops for the same duration: each
/// loop takes less time.
pub proof fn lemma_loops_grow_with_clock(ns: u32, slow: u32, fast: u32)
    requires
        slow <= fast,
    ensures
        loops_for(ns, slow) <= loops_for(ns, fast),
{
    assert(ns * slow <= ns * fast) by (nonlinear_arith)
        requires
            slow <= fast,
    ;
    vstd::arithmetic::div_mod::lemma_div_is_ordered(ns * slow, ns * fast, 1000 * CYCLES_PER_LOOP as int);
}

/// The computed loop count lasts at most the target duration, and one more
/// loop would exceed it.
pub proof fn lemma_loops_within_target(ns: u32, mhz: u32)
    ensures
        loops_for(ns, mhz) * (1000 * CYCLES_PER_LOOP) <= ns * mhz,
        ns * mhz < (loops_for(ns, mhz) + 1) * (1000 * CYCLES_PER_LOOP),
{
    let x = ns * mhz;
    let d = 1000 * CYCLES_PER_LOOP as int;
    let q = x / d;
    vstd::arithmetic::div_mod::lemma_fundamental_div_mod(x, d);
    vstd::arithmetic::div_mod::lemma_mod_bound(x, d);
    assert(q * d <= x < (q + 1) * d) by (nonlinear_arith)
        requires
            x == d * q + x % d,
            0 <= x % d < d,
    ;
}

} // verus!
