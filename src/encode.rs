use vstd::prelude::*;

use crate::timing::{loops_for, n_loops_at, Calibration, Timing, LATCH_UNITS};

verus! {

/// One LED color: three 8-bit channels.
#[derive(Clone, Copy, Debug, PartialEq, Eq, Structural)]
pub struct Color {
    pub r: u8,
    pub g: u8,
    pub b: u8,
}

/// One action on the line: raise it, lower it, or busy-wait for a number of
/// loops.
#[derive(Clone, Copy, Debug, PartialEq, Eq, Structural)]
pub enum Step {
    High,
    Low,
    Wait(u64),
}

/// The parts laid end to end, in order.
pub open spec fn join<A>(parts: Seq<Seq<A>>) -> Seq<A>
    decreases parts.len(),
{
    if parts.len() == 0 {
        Seq::empty()
    } else {
        join(parts.drop_last()) + parts.last()
    }
}

/// Bit `i` of `b`, counting from the most significant (0) to the least (7).
pub open spec fn msb_bit(b: u8, i: int) -> bool {
    (b >> ((7 - i) as u8)) & 1u8 == 1u8
}

/// The eight bits of a byte, most significant first.
pub open spec fn byte_bits(b: u8) -> Seq<bool> {
    Seq::new(8, |i: int| msb_bit(b, i))
}

/// The bits sent for one color: green, then red, then blue.
pub open spec fn color_bits(c: Color) -> Seq<bool> {
    byte_bits(c.g) + byte_bits(c.r) + byte_bits(c.b)
}

/// The bits sent for a sequence of colors, in order.
pub open spec fn frame_bits(colors: Seq<Color>) -> Seq<bool> {
    join(colors.map_values(|c: Color| color_bits(c)))
}

/// The pulse that sends one bit: the line goes high, waits, goes low, waits.
/// With a clock calibration each phase waits the loops of its target time;
/// with a magic number a 1 is high for two units and low for one, a 0 the
/// other way round.
pub open spec fn bit_steps(t: Timing, bit: bool) -> Seq<Step> {
    match t.calibration {
        Calibration::Clock { mhz } => {
            let high = if bit { t.times.one_high } else { t.times.zero_high };
            let low = if bit { t.times.one_low } else { t.times.zero_low };
            seq![
                Step::High,
                Step::Wait(loops_for(high, mhz) as u64),
                Step::Low,
                Step::Wait(loops_for(low, mhz) as u64),
            ]
        },
        Calibration::Magic { loops } => {
            let unit = Step::Wait(loops as u64);
            if bit {
                seq![Step::High, unit, unit, Step::Low, unit]
            } else {
                seq![Step::High, unit, Step::Low, unit, unit]
            }
        },
    }
}

/// One pulse per bit.
pub open spec fn pulses(t: Timing, bits: Seq<bool>) -> Seq<Seq<Step>> {
    bits.map_values(|bit: bool| bit_steps(t, bit))
}

/// The steps that send one byte.
pub open spec fn byte_steps(t: Timing, b: u8) -> Seq<Step> {
    join(pulses(t, byte_bits(b)))
}

/// The low hold that ends a frame: the line is already low, so it is a wait.
pub open spec fn latch_steps(t: Timing) -> Seq<Step> {
    match t.calibration {
        Calibration::Clock { mhz } => seq![Step::Wait(loops_for(t.times.latch, mhz) as u64)],
        Calibration::Magic { loops } => Seq::new(LATCH_UNITS as nat, |i: int| Step::Wait(loops as u64)),
    }
}

/// The steps of a whole frame: every bit of every color, then the latch.
pub open spec fn frame_steps(t: Timing, colors: Seq<Color>) -> Seq<Step> {
    join(pulses(t, frame_bits(colors))) + latch_steps(t)
}

/// Loops waited by one step.
pub open spec fn wait_of(s: Step) -> nat {
    match s {
        Step::Wait(n) => n as nat,
        _ => 0,
    }
}

/// Loops waited by the steps `s[lo..hi]`.
pub open spec fn waited(s: Seq<Step>, lo: int, hi: int) -> nat
    decreases hi - lo,
{
    if hi <= lo {
        0
    } else {
        waited(s, lo, hi - 1) + wait_of(s[hi - 1])
    }
}

/// Index of the first `Low` at or after `i`; the length if there is none.
pub open spec fn first_low(s: Seq<Step>, i: int) -> int
    decreases s.len() - i,
{
    if i < 0 || i >= s.len() {
        s.len() as int
    } else if s[i] == Step::Low {
        i
    } else {
        first_low(s, i + 1)
    }
}

/// A pulse: `High`, then waits, one `Low`, then waits.
pub open spec fn is_pulse(p: Seq<Step>) -> bool {
    &&& p.len() >= 2
    &&& p[0] == Step::High
    &&& 0 < first_low(p, 0) < p.len()
    &&& forall|i: int| 0 < i < p.len() && i != first_low(p, 0) ==> (#[trigger] p[i]) is Wait
}

/// Loops the line stays high in a pulse.
pub open spec fn high_time(p: Seq<Step>) -> nat {
    waited(p, 0, first_low(p, 0))
}

/// Loops the line stays low in a pulse.
pub open spec fn low_time(p: Seq<Step>) -> nat {
    waited(p, first_low(p, 0) + 1, p.len() as int)
}

/// The bit a receiver reads from a pulse: 1 when it is high longer than low.
pub open spec fn pulse_bit(p: Seq<Step>) -> bool {
    high_time(p) > low_time(p)
}

/// The byte whose bits, most significant first, are the first `n` of `bits`.
pub open spec fn bits_value(bits: Seq<bool>, n: nat) -> nat
    decreases n,
{
    if n == 0 {
        0
    } else {
        2 * bits_value(bits, (n - 1) as nat) + if bits[n - 1] {
            1nat
        } else {
            0nat
        }
    }
}

/// The level of the line after `s`, starting from `high`.
pub open spec fn level_after(high: bool, s: Seq<Step>) -> bool
    decreases s.len(),
{
    if s.len() == 0 {
        high
    } else {
        match s.last() {
            Step::High => true,
            Step::Low => false,
            Step::Wait(_) => level_after(high, s.drop_last()),
        }
    }
}

/// The timing tells 1 from 0: a 1 pulse waits longer high than low, and a 0
/// pulse does not.
pub open spec fn distinguishes(t: Timing) -> bool {
    match t.calibration {
        Calibration::Clock { mhz } => {
            &&& loops_for(t.times.one_high, mhz) > loops_for(t.times.one_low, mhz)
            &&& loops_for(t.times.zero_high, mhz) <= loops_for(t.times.zero_low, mhz)
        },
        Calibration::Magic { loops } => loops > 0,
    }
}

proof fn lemma_loops_fit(ns: u32, mhz: u32)
    ensures
        0 <= loops_for(ns, mhz) <= u64::MAX,
{
    assert(0 <= ns * mhz <= u32::MAX * u32::MAX) by (nonlinear_arith);
}

/// Each bit is sent as one pulse that ends with the line low, and a timing
/// that tells 1 from 0 lets the receiver read the bit back.
pub proof fn lemma_bit_pulse(t: Timing, bit: bool)
    ensures
        is_pulse(bit_steps(t, bit)),
        distinguishes(t) ==> pulse_bit(bit_steps(t, bit)) == bit,
        forall|high: bool| !level_after(high, #[trigger] bit_steps(t, bit)),
{
    let p = bit_steps(t, bit);
    reveal_with_fuel(first_low, 4);
    reveal_with_fuel(waited, 6);
    reveal_with_fuel(level_after, 3);
    match t.calibration {
        Calibration::Clock { mhz } => {
            lemma_loops_fit(t.times.one_high, mhz);
            lemma_loops_fit(t.times.one_low, mhz);
            lemma_loops_fit(t.times.zero_high, mhz);
            lemma_loops_fit(t.times.zero_low, mhz);
            assert(first_low(p, 0) == 2);
        },
        Calibration::Magic { loops } => {
            if bit {
                assert(first_low(p, 0) == 3);
            } else {
                assert(first_low(p, 0) == 2);
            }
        },
    }
    assert forall|high: bool| !level_after(high, #[trigger] bit_steps(t, bit)) by {
        assert(p.drop_last().last() == Step::Low || p.drop_last().drop_last().last() == Step::Low);
    }
}

/// Appends the pulse of one bit to `out`.
pub fn push_bit(t: &Timing, bit: bool, out: &mut Vec<Step>)
    ensures
        final(out)@ == old(out)@ + bit_steps(*t, bit),
{
    match t.calibration {
        Calibration::Clock { mhz } => {
            let high = if bit { t.times.one_high } else { t.times.zero_high };
            let low = if bit { t.times.one_low } else { t.times.zero_low };
            out.push(Step::High);
            out.push(Step::Wait(n_loops_at(high, mhz)));
            out.push(Step::Low);
            out.push(Step::Wait(n_loops_at(low, mhz)));
        },
        Calibration::Magic { loops } => {
            let unit = loops as u64;
            out.push(Step::High);
            out.push(Step::Wait(unit));
            if bit {
                out.push(Step::Wait(unit));
                out.push(Step::Low);
            } else {
                out.push(Step::Low);
                out.push(Step::Wait(unit));
            }
            out.push(Step::Wait(unit));
        },
    }
    assert(out@ =~= old(out)@ + bit_steps(*t, bit));
}

/// Joining two runs of parts is joining each and laying the results end to
/// end.
pub proof fn lemma_join_append<A>(x: Seq<Seq<A>>, y: Seq<Seq<A>>)
    ensures
        join(x + y) == join(x) + join(y),
    decreases y.len(),
{
    if y.len() == 0 {
        assert(x + y =~= x);
        assert(join(x) + join(y) =~= join(x));
    } else {
        lemma_join_append(x, y.drop_last());
        assert((x + y).drop_last() =~= x + y.drop_last());
        assert(join(x) + join(y) =~= join(x) + join(y.drop_last()) + y.last());
    }
}

/// The pulses of two runs of bits are the pulses of each, end to end.
pub proof fn lemma_pulses_append(t: Timing, a: Seq<bool>, b: Seq<bool>)
    ensures
        join(pulses(t, a + b)) == join(pulses(t, a)) + join(pulses(t, b)),
{
    assert(pulses(t, a + b) =~= pulses(t, a) + pulses(t, b));
    lemma_join_append(pulses(t, a), pulses(t, b));
}

proof fn lemma_pulses_take_push(t: Timing, bits: Seq<bool>, i: int)
    requires
        0 <= i < bits.len(),
    ensures
        join(pulses(t, bits.take(i + 1))) == join(pulses(t, bits.take(i))) + bit_steps(t, bits[i]),
{
    assert(pulses(t, bits.take(i + 1)).drop_last() =~= pulses(t, bits.take(i)));
}

/// The eight bits of a byte, most significant first, make up the byte again.
pub proof fn lemma_byte_bits_value(b: u8)
    ensures
        byte_bits(b).len() == 8,
        bits_value(byte_bits(b), 8) == b,
{
    reveal_with_fuel(bits_value, 9);
    let bits = byte_bits(b);
    assert(b == (if msb_bit(b, 0) { 128u8 } else { 0u8 }) + (if msb_bit(b, 1) { 64u8 } else { 0u8 })
        + (if msb_bit(b, 2) { 32u8 } else { 0u8 }) + (if msb_bit(b, 3) { 16u8 } else { 0u8 })
        + (if msb_bit(b, 4) { 8u8 } else { 0u8 }) + (if msb_bit(b, 5) { 4u8 } else { 0u8 })
        + (if msb_bit(b, 6) { 2u8 } else { 0u8 }) + (if msb_bit(b, 7) { 1u8 } else { 0u8 })) by (bit_vector);
}

/// Appends the pulses of one byte, most significant bit first, to `out`.
pub fn push_byte(t: &Timing, byte: u8, out: &mut Vec<Step>)
    ensures
        final(out)@ == old(out)@ + byte_steps(*t, byte),
{
    let ghost start = out@;
    let mut data: u8 = byte;
    let mut i: u8 = 0;
    proof {
        assert(byte == byte << 0u8) by (bit_vector);
        assert(byte_bits(byte).take(0) =~= Seq::<bool>::empty());
    }
    while i < 8
        invariant
            i <= 8,
            data == byte << i,
            out@ == start + join(pulses(*t, byte_bits(byte).take(i as int))),
        decreases 8 - i,
    {
        let bit = (data & 0x80) != 0;
        proof {
            assert(bit == msb_bit(byte, i as int)) by (bit_vector)
                requires
                    data == byte << i,
                    i < 8,
                    bit == ((data & 0x80) != 0),
            ;
            lemma_pulses_take_push(*t, byte_bits(byte), i as int);
        }
        push_bit(t, bit, out);
        let ghost before = data;
        data = data << 1u8;
        proof {
            assert(data == byte << ((i + 1) as u8)) by (bit_vector)
                requires
                    before == byte << i,
                    data == before << 1u8,
                    i < 8,
            ;
        }
        i = i + 1;
    }
    assert(byte_bits(byte).take(8) =~= byte_bits(byte));
}

/// Appends the three bytes of one color, green, red, blue, to `out`.
pub fn push_color(t: &Timing, c: Color, out: &mut Vec<Step>)
    ensures
        final(out)@ == old(out)@ + join(pulses(*t, color_bits(c))),
{
    push_byte(t, c.g, out);
    push_byte(t, c.r, out);
    push_byte(t, c.b, out);
    proof {
        lemma_pulses_append(*t, byte_bits(c.g), byte_bits(c.r));
        lemma_pulses_append(*t, byte_bits(c.g) + byte_bits(c.r), byte_bits(c.b));
        assert(out@ =~= old(out)@ + join(pulses(*t, color_bits(c))));
    }
}

proof fn lemma_frame_bits_take_push(colors: Seq<Color>, i: int)
    requires
        0 <= i < colors.len(),
    ensures
        frame_bits(colors.take(i + 1)) == frame_bits(colors.take(i)) + color_bits(colors[i]),
{
    let parts = colors.take(i + 1).map_values(|c: Color| color_bits(c));
    assert(parts.drop_last() =~= colors.take(i).map_values(|c: Color| color_bits(c)));
}

/// The plan of a whole frame: the pulses of every color in order, then the
/// latch.
pub fn encode_frame(t: &Timing, colors: &[Color]) -> (r: Vec<Step>)
    ensures
        r@ == frame_steps(*t, colors@),
{
    let mut out: Vec<Step> = Vec::new();
    let mut i: usize = 0;
    proof {
        assert(colors@.take(0) =~= Seq::<Color>::empty());
        assert(frame_bits(Seq::<Color>::empty()) =~= Seq::<bool>::empty());
        assert(pulses(*t, Seq::<bool>::empty()) =~= Seq::<Seq<Step>>::empty());
    }
    while i < colors.len()
        invariant
            i <= colors@.len(),
            out@ == join(pulses(*t, frame_bits(colors@.take(i as int)))),
        decreases colors.len() - i,
    {
        proof {
            lemma_frame_bits_take_push(colors@, i as int);
            lemma_pulses_append(*t, frame_bits(colors@.take(i as int)), color_bits(colors@[i as int]));
        }
        push_color(t, colors[i], &mut out);
        i = i + 1;
    }
    assert(colors@.take(i as int) =~= colors@);
    let ghost body = out@;
    match t.calibration {
        Calibration::Clock { mhz } => {
            out.push(Step::Wait(n_loops_at(t.times.latch, mhz)));
        },
        Calibration::Magic { loops } => {
            let mut k: usize = 0;
            while k < LATCH_UNITS
                invariant
                    k <= LATCH_UNITS,
                    out@ == body + Seq::new(k as nat, |j: int| Step::Wait(loops as u64)),
                decreases LATCH_UNITS - k,
            {
                out.push(Step::Wait(loops as u64));
                k = k + 1;
                assert(out@ =~= body + Seq::new(k as nat, |j: int| Step::Wait(loops as u64)));
            }
        },
    }
    assert(out@ =~= frame_steps(*t, colors@));
    out
}

/// Every color adds 24 bits.
pub proof fn lemma_frame_bits_len(colors: Seq<Color>)
    ensures
        frame_bits(colors).len() == 24 * colors.len(),
    decreases colors.len(),
{
    if colors.len() > 0 {
        let n = colors.len() - 1;
        lemma_frame_bits_take_push(colors, n);
        assert(colors.take(n + 1) =~= colors);
        lemma_frame_bits_len(colors.take(n));
    } else {
        assert(colors.map_values(|c: Color| color_bits(c)) =~= Seq::<Seq<bool>>::empty());
    }
}

/// A byte is sent as exactly eight pulses; when the timing tells 1 from 0,
/// reading each pulse as a bit, most significant first, gives the byte back.
pub proof fn lemma_byte_read_back(t: Timing, b: u8)
    ensures
        pulses(t, byte_bits(b)).len() == 8,
        byte_steps(t, b) == join(pulses(t, byte_bits(b))),
        forall|i: int| 0 <= i < 8 ==> is_pulse(#[trigger] pulses(t, byte_bits(b))[i]),
        distinguishes(t) ==> bits_value(pulses(t, byte_bits(b)).map_values(|p: Seq<Step>| pulse_bit(p)), 8) == b,
{
    let ps = pulses(t, byte_bits(b));
    assert forall|i: int| 0 <= i < 8 implies is_pulse(#[trigger] ps[i]) by {
        lemma_bit_pulse(t, byte_bits(b)[i]);
    }
    lemma_byte_bits_value(b);
    if distinguishes(t) {
        assert forall|i: int| 0 <= i < 8 implies #[trigger] pulse_bit(ps[i]) == byte_bits(b)[i] by {
            lemma_bit_pulse(t, byte_bits(b)[i]);
        }
        assert(ps.map_values(|p: Seq<Step>| pulse_bit(p)) =~= byte_bits(b));
    }
}

/// A single color is sent as its green byte, then its red byte, then its blue
/// byte, then the latch.
pub proof fn lemma_color_order(t: Timing, c: Color)
    ensures
        frame_steps(t, seq![c]) == byte_steps(t, c.g) + byte_steps(t, c.r) + byte_steps(t, c.b) + latch_steps(t),
{
    let colors = seq![c];
    lemma_frame_bits_take_push(colors, 0);
    assert(colors.take(1) =~= colors);
    assert(colors.take(0).map_values(|x: Color| color_bits(x)) =~= Seq::<Seq<bool>>::empty());
    assert(frame_bits(colors) =~= color_bits(c));
    lemma_pulses_append(t, byte_bits(c.g), byte_bits(c.r));
    lemma_pulses_append(t, byte_bits(c.g) + byte_bits(c.r), byte_bits(c.b));
}

/// A frame of no colors is the latch alone, and the latch only waits.
pub proof fn lemma_empty_frame(t: Timing)
    ensures
        frame_steps(t, Seq::empty()) == latch_steps(t),
        forall|i: int| 0 <= i < latch_steps(t).len() ==> (#[trigger] latch_steps(t)[i]) is Wait,
{
    let colors = Seq::<Color>::empty();
    assert(colors.map_values(|c: Color| color_bits(c)) =~= Seq::<Seq<bool>>::empty());
    assert(frame_bits(colors) =~= Seq::<bool>::empty());
    assert(pulses(t, frame_bits(colors)) =~= Seq::<Seq<Step>>::empty());
    assert(frame_steps(t, colors) =~= latch_steps(t));
}

proof fn lemma_level_append(high: bool, a: Seq<Step>, b: Seq<Step>)
    ensures
        level_after(high, a + b) == level_after(level_after(high, a), b),
    decreases b.len(),
{
    if b.len() == 0 {
        assert(a + b =~= a);
    } else {
        assert((a + b).drop_last() =~= a + b.drop_last());
        lemma_level_append(high, a, b.drop_last());
    }
}

proof fn lemma_waits_keep_level(high: bool, s: Seq<Step>)
    requires
        forall|i: int| 0 <= i < s.len() ==> (#[trigger] s[i]) is Wait,
    ensures
        level_after(high, s) == high,
    decreases s.len(),
{
    if s.len() > 0 {
        assert(s.last() is Wait);
        lemma_waits_keep_level(high, s.drop_last());
    }
}

proof fn lemma_pulses_end_low(t: Timing, bits: Seq<bool>, high: bool)
    ensures
        bits.len() == 0 ==> level_after(high, join(pulses(t, bits))) == high,
        bits.len() > 0 ==> !level_after(high, join(pulses(t, bits))),
    decreases bits.len(),
{
    if bits.len() > 0 {
        let n = bits.len() - 1;
        assert(pulses(t, bits).drop_last() =~= pulses(t, bits.drop_last()));
        lemma_level_append(high, join(pulses(t, bits.drop_last())), bit_steps(t, bits[n]));
        lemma_bit_pulse(t, bits[n]);
    }
}

/// A frame leaves the line low when it found it low; a frame of at least one
/// color leaves it low whatever it found.
pub proof fn lemma_frame_rests_low(t: Timing, colors: Seq<Color>, high: bool)
    ensures
        !level_after(false, frame_steps(t, colors)),
        colors.len() > 0 ==> !level_after(high, frame_steps(t, colors)),
{
    lemma_empty_frame(t);
    lemma_frame_bits_len(colors);
    let body = join(pulses(t, frame_bits(colors)));
    lemma_pulses_end_low(t, frame_bits(colors), false);
    lemma_pulses_end_low(t, frame_bits(colors), high);
    lemma_level_append(false, body, latch_steps(t));
    lemma_level_append(high, body, latch_steps(t));
    lemma_waits_keep_level(level_after(false, body), latch_steps(t));
    lemma_waits_keep_level(level_after(high, body), latch_steps(t));
}

/// Two frames sent one after the other, whatever their colors and timings,
/// leave the line low after each of them.
pub proof fn lemma_frames_rest_low(t1: Timing, c1: Seq<Color>, t2: Timing, c2: Seq<Color>)
    ensures
        !level_after(false, frame_steps(t1, c1)),
        !level_after(false, frame_steps(t1, c1) + frame_steps(t2, c2)),
{
    lemma_frame_rests_low(t1, c1, false);
    lemma_frame_rests_low(t2, c2, false);
    lemma_level_append(false, frame_steps(t1, c1), frame_steps(t2, c2));
}

/// Any two timings that tell 1 from 0 send the same bits, in the same order,
/// as the same number of pulses: only the durations differ.
pub proof fn lemma_recalibration_keeps_bits(t1: Timing, t2: Timing, colors: Seq<Color>)
    requires
        distinguishes(t1),
        distinguishes(t2),
    ensures
        pulses(t1, frame_bits(colors)).len() == 24 * colors.len(),
        pulses(t2, frame_bits(colors)).len() == 24 * colors.len(),
        pulses(t1, frame_bits(colors)).map_values(|p: Seq<Step>| pulse_bit(p)) == frame_bits(colors),
        pulses(t2, frame_bits(colors)).map_values(|p: Seq<Step>| pulse_bit(p)) == frame_bits(colors),
{
    lemma_frame_bits_len(colors);
    let bits = frame_bits(colors);
    assert forall|i: int| 0 <= i < bits.len() implies #[trigger] pulse_bit(pulses(t1, bits)[i]) == bits[i]
        && pulse_bit(pulses(t2, bits)[i]) == bits[i] by {
        lemma_bit_pulse(t1, bits[i]);
        lemma_bit_pulse(t2, bits[i]);
    }
    assert(pulses(t1, bits).map_values(|p: Seq<Step>| pulse_bit(p)) =~= bits);
    assert(pulses(t2, bits).map_values(|p: Seq<Step>| pulse_bit(p)) =~= bits);
}

/// With a magic number every pulse lasts whole wait units of that number of
/// loops: a 1 is two units high and one low, a 0 one high and two low.
pub proof fn lemma_magic_durations(t: Timing, bits: Seq<bool>, i: int)
    requires
        t.calibration is Magic,
        0 <= i < bits.len(),
    ensures
        high_time(pulses(t, bits)[i]) == (if bits[i] { 2nat } else { 1nat }) * t.calibration->Magic_loops,
        low_time(pulses(t, bits)[i]) == (if bits[i] { 1nat } else { 2nat }) * t.calibration->Magic_loops,
{
    let p = pulses(t, bits)[i];
    reveal_with_fuel(first_low, 4);
    reveal_with_fuel(waited, 6);
    if bits[i] {
        assert(first_low(p, 0) == 3);
    } else {
        assert(first_low(p, 0) == 2);
    }
}

/// The levels a plan drives the line to, in order: `true` for each `High`,
/// `false` for each `Low`; waits drive nothing.
pub open spec fn levels_of(s: Seq<Step>) -> Seq<bool>
    decreases s.len(),
{
    if s.len() == 0 {
        Seq::empty()
    } else {
        match s.last() {
            Step::High => levels_of(s.drop_last()).push(true),
            Step::Low => levels_of(s.drop_last()).push(false),
            Step::Wait(_) => levels_of(s.drop_last()),
        }
    }
}

/// `n` high-then-low pairs.
pub open spec fn toggles(n: nat) -> Seq<bool> {
    Seq::new(2 * n, |i: int| i % 2 == 0)
}

/// The levels of two plans run one after the other are those of each, in
/// order.
pub proof fn lemma_levels_append(a: Seq<Step>, b: Seq<Step>)
    ensures
        levels_of(a + b) == levels_of(a) + levels_of(b),
    decreases b.len(),
{
    if b.len() == 0 {
        assert(a + b =~= a);
        assert(levels_of(a) + levels_of(b) =~= levels_of(a));
    } else {
        assert((a + b).drop_last() =~= a + b.drop_last());
        lemma_levels_append(a, b.drop_last());
        match b.last() {
            Step::High => assert(levels_of(a) + levels_of(b) =~= (levels_of(a) + levels_of(b.drop_last())).push(true)),
            Step::Low => assert(levels_of(a) + levels_of(b) =~= (levels_of(a) + levels_of(b.drop_last())).push(false)),
            Step::Wait(_) => {},
        }
    }
}

proof fn lemma_waits_drive_nothing(s: Seq<Step>)
    requires
        forall|i: int| 0 <= i < s.len() ==> (#[trigger] s[i]) is Wait,
    ensures
        levels_of(s) == Seq::<bool>::empty(),
    decreases s.len(),
{
    if s.len() > 0 {
        assert(s.last() is Wait);
        lemma_waits_drive_nothing(s.drop_last());
    }
}

proof fn lemma_bit_levels(t: Timing, bit: bool)
    ensures
        levels_of(bit_steps(t, bit)) == seq![true, false],
{
    reveal_with_fuel(levels_of, 6);
    assert(levels_of(bit_steps(t, bit)) =~= seq![true, false]);
}

proof fn lemma_pulses_levels(t: Timing, bits: Seq<bool>)
    ensures
        levels_of(join(pulses(t, bits))) == toggles(bits.len()),
    decreases bits.len(),
{
    if bits.len() == 0 {
        assert(pulses(t, bits) =~= Seq::<Seq<Step>>::empty());
        assert(toggles(0) =~= Seq::<bool>::empty());
    } else {
        let n = bits.len() - 1;
        assert(pulses(t, bits).drop_last() =~= pulses(t, bits.drop_last()));
        lemma_pulses_levels(t, bits.drop_last());
        lemma_levels_append(join(pulses(t, bits.drop_last())), bit_steps(t, bits[n]));
        lemma_bit_levels(t, bits[n]);
        assert(toggles(n as nat) + seq![true, false] =~= toggles(bits.len()));
    }
}

/// Whatever the timing, a frame drives the line high then low once for each
/// of its 24 bits per color, and nothing else: the latch only waits.
pub proof fn lemma_frame_levels(t: Timing, colors: Seq<Color>)
    ensures
        levels_of(frame_steps(t, colors)) == toggles(24 * colors.len()),
{
    lemma_frame_bits_len(colors);
    lemma_empty_frame(t);
    lemma_pulses_levels(t, frame_bits(colors));
    lemma_levels_append(join(pulses(t, frame_bits(colors))), latch_steps(t));
    lemma_waits_drive_nothing(latch_steps(t));
    assert(toggles(24 * colors.len()) + Seq::<bool>::empty() =~= toggles(24 * colors.len()));
}

} // verus!
