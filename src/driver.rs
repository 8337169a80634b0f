use vstd::prelude::*;

use crate::encode::{encode_frame, frame_steps, lemma_frame_levels, lemma_levels_append, levels_of, toggles, Color, Step};
use crate::line::{Line, Traced};
use crate::timing::{standard_times, Calibration, PulseTimes, Timing};

verus! {

/// A WS2812 strip on one output line, which it owns for its whole life.
pub struct Ws2812<PIN> {
    pub pin: Traced<PIN>,
    pub timing: Timing,
}

impl<PIN: Line> Ws2812<PIN> {
    /// A driver for a core clock of `frequency_mhz` MHz, with the standard
    /// pulse times. The line is set low first.
    pub fn new(pin: PIN, frequency_mhz: u32) -> (r: Ws2812<PIN>)
        ensures
            r.timing == (Timing {
                calibration: Calibration::Clock { mhz: frequency_mhz },
                times: standard_times(),
            }),
            r.pin.trace() == seq![Step::Low],
    {
        let mut pin = Traced::new(pin);
        pin.set_low();
        Ws2812 {
            pin,
            timing: Timing {
                calibration: Calibration::Clock { mhz: frequency_mhz },
                times: PulseTimes::standard(),
            },
        }
    }

    /// A driver whose every wait unit is `magic` loops, a count measured on
    /// the hardware. The line is set low first.
    pub fn with_magic_number(pin: PIN, magic: u32) -> (r: Ws2812<PIN>)
        ensures
            r.timing == (Timing { calibration: Calibration::Magic { loops: magic }, times: standard_times() }),
            r.pin.trace() == seq![Step::Low],
    {
        let mut pin = Traced::new(pin);
        pin.set_low();
        Ws2812 {
            pin,
            timing: Timing { calibration: Calibration::Magic { loops: magic }, times: PulseTimes::standard() },
        }
    }

    /// Switches to a magic number of `magic` loops per wait unit.
    pub fn set_magic_number(&mut self, magic: u32)
        ensures
            final(self).timing == (Timing { calibration: Calibration::Magic { loops: magic }, times: old(self).timing.times }),
            final(self).pin.trace() == old(self).pin.trace(),
    {
        self.timing.calibration = Calibration::Magic { loops: magic };
    }

    /// Switches to loop counts computed from a core clock of `mhz` MHz.
    pub fn set_frequency_mhz(&mut self, mhz: u32)
        ensures
            final(self).timing == (Timing { calibration: Calibration::Clock { mhz }, times: old(self).timing.times }),
            final(self).pin.trace() == old(self).pin.trace(),
    {
        self.timing.calibration = Calibration::Clock { mhz };
    }

    /// Sets the target phase durations used with a clock calibration.
    pub fn set_pulse_times(&mut self, times: PulseTimes)
        ensures
            final(self).timing == (Timing { calibration: old(self).timing.calibration, times }),
            final(self).pin.trace() == old(self).pin.trace(),
    {
        self.timing.times = times;
    }

    /// Busy-waits for `loops` iterations, leaving the line as it is.
    pub fn wait(&mut self, loops: u64)
        ensures
            final(self).timing == old(self).timing,
            final(self).pin.trace() == old(self).pin.trace().push(Step::Wait(loops)),
    {
        self.pin.wait(loops);
    }

    /// Carries out the steps of a plan, in order.
    fn play(&mut self, steps: &[Step])
        ensures
            final(self).timing == old(self).timing,
            final(self).pin.trace() == old(self).pin.trace() + steps@,
    {
        let mut i: usize = 0;
        assert(steps@.take(0) =~= Seq::<Step>::empty());
        while i < steps.len()
            invariant
                i <= steps@.len(),
                self.timing == old(self).timing,
                self.pin.trace() == old(self).pin.trace() + steps@.take(i as int),
            decreases steps.len() - i,
        {
            match steps[i] {
                Step::High => self.pin.set_high(),
                Step::Low => self.pin.set_low(),
                Step::Wait(n) => self.pin.wait(n),
            }
            i = i + 1;
            assert(self.pin.trace() =~= old(self).pin.trace() + steps@.take(i as int));
        }
        assert(steps@.take(i as int) =~= steps@);
    }

    /// Sends the colors to the strip, then holds the line low for the latch.
    /// Blocks until the whole frame is out. The line is driven through the
    /// frame's plan whatever each call on it returns; its failures are not
    /// reported, so the result is always `Ok`. The line's levels are the same
    /// high-low pair per bit whatever the colors and timing: the colors and
    /// the latch are carried by the waits.
    pub fn write(&mut self, colors: &[Color]) -> (r: Result<(), ()>)
        ensures
            r == Ok::<(), ()>(()),
            final(self).timing == old(self).timing,
            final(self).pin.trace() == old(self).pin.trace() + frame_steps(old(self).timing, colors@),
            levels_of(final(self).pin.trace()) == levels_of(old(self).pin.trace()) + toggles(24 * colors@.len()),
    {
        let steps = encode_frame(&self.timing, colors);
        self.play(steps.as_slice());
        proof {
            lemma_frame_levels(old(self).timing, colors@);
            lemma_levels_append(old(self).pin.trace(), frame_steps(old(self).timing, colors@));
        }
        Ok(())
    }
}

} // verus!
