use ws2812_nop::{
    encode_frame, n_loops_at, push_bit, push_byte, push_color, Calibration, Color, Line, PulseTimes,
    Step, Traced, Timing, Ws2812, CYCLES_PER_LOOP, LATCH_UNITS,
};

/// A line that records every level it is driven to.
struct Recorder {
    levels: Vec<bool>,
}

impl Recorder {
    fn new() -> Recorder {
        Recorder { levels: Vec::new() }
    }
}

impl Line for Recorder {
    type Error = ();

    fn set_high(&mut self) -> Result<(), ()> {
        self.levels.push(true);
        Ok(())
    }

    fn set_low(&mut self) -> Result<(), ()> {
        self.levels.push(false);
        Ok(())
    }
}

/// A line whose every operation fails.
struct Broken {
    calls: usize,
}

impl Line for Broken {
    type Error = &'static str;

    fn set_high(&mut self) -> Result<(), &'static str> {
        self.calls += 1;
        Err("stuck")
    }

    fn set_low(&mut self) -> Result<(), &'static str> {
        self.calls += 1;
        Err("stuck")
    }
}

fn clock(mhz: u32) -> Timing {
    Timing { calibration: Calibration::Clock { mhz }, times: PulseTimes::standard() }
}

fn magic(loops: u32) -> Timing {
    Timing { calibration: Calibration::Magic { loops }, times: PulseTimes::standard() }
}

/// Splits a plan without its latch into pulses, each starting at a `High`.
fn split_pulses(steps: &[Step]) -> Vec<Vec<Step>> {
    let mut pulses: Vec<Vec<Step>> = Vec::new();
    for s in steps {
        if *s == Step::High {
            pulses.push(vec![Step::High]);
        } else {
            pulses.last_mut().expect("plan starts with a pulse").push(*s);
        }
    }
    pulses
}

/// High and low durations of one pulse, in loops.
fn durations(p: &[Step]) -> (u64, u64) {
    let mut high = 0;
    let mut low = 0;
    let mut seen_low = false;
    for s in p {
        match s {
            Step::Low => seen_low = true,
            Step::Wait(n) if seen_low => low += n,
            Step::Wait(n) => high += n,
            Step::High => {}
        }
    }
    assert!(seen_low);
    (high, low)
}

fn read_bit(p: &[Step]) -> bool {
    let (high, low) = durations(p);
    high > low
}

fn read_bytes(pulses: &[Vec<Step>]) -> Vec<u8> {
    assert_eq!(pulses.len() % 8, 0);
    pulses
        .chunks(8)
        .map(|c| c.iter().fold(0u8, |acc, p| (acc << 1) | read_bit(p) as u8))
        .collect()
}

#[test]
fn loop_counts_at_600_mhz() {
    assert_eq!(CYCLES_PER_LOOP, 3);
    assert_eq!(n_loops_at(700, 600), 140);
    assert_eq!(n_loops_at(350, 600), 70);
    assert_eq!(n_loops_at(300, 600), 60);
    assert_eq!(n_loops_at(666, 600), 133);
    assert_eq!(n_loops_at(6000, 600), 1200);
    assert_eq!(n_loops_at(0, 600), 0);
    assert_eq!(n_loops_at(u32::MAX, u32::MAX), (u32::MAX as u64 * u32::MAX as u64) / 3000);
}

#[test]
fn faster_clock_needs_no_fewer_loops() {
    let speeds = [1u32, 24, 150, 396, 528, 600, 816, 1000];
    for ns in [300u32, 350, 666, 700, 6000] {
        for w in speeds.windows(2) {
            assert!(n_loops_at(ns, w[0]) <= n_loops_at(ns, w[1]));
        }
        // each loop lasts 3000 / mhz ns: the count never overshoots the target
        for mhz in speeds {
            let loops = n_loops_at(ns, mhz);
            assert!(loops * 3000 <= ns as u64 * mhz as u64);
            assert!((ns as u64) * (mhz as u64) < (loops + 1) * 3000);
        }
    }
}

#[test]
fn clock_bit_pulses() {
    let t = clock(600);
    let mut out = Vec::new();
    push_bit(&t, true, &mut out);
    assert_eq!(out, vec![Step::High, Step::Wait(140), Step::Low, Step::Wait(70)]);
    push_bit(&t, false, &mut out);
    assert_eq!(
        out[4..].to_vec(),
        vec![Step::High, Step::Wait(60), Step::Low, Step::Wait(133)]
    );
}

#[test]
fn magic_bit_pulses() {
    let t = magic(9);
    let mut out = Vec::new();
    push_bit(&t, true, &mut out);
    push_bit(&t, false, &mut out);
    let u = Step::Wait(9);
    assert_eq!(
        out,
        vec![Step::High, u, u, Step::Low, u, Step::High, u, Step::Low, u, u]
    );
}

#[test]
fn every_byte_reads_back() {
    for t in [clock(600), clock(528), magic(1), magic(37)] {
        for b in 0..=255u8 {
            let mut out = Vec::new();
            push_byte(&t, b, &mut out);
            let pulses = split_pulses(&out);
            assert_eq!(pulses.len(), 8);
            assert_eq!(read_bytes(&pulses), vec![b]);
        }
    }
}

#[test]
fn byte_is_sent_most_significant_bit_first() {
    let t = clock(600);
    let mut out = Vec::new();
    push_byte(&t, 0x80, &mut out);
    let pulses = split_pulses(&out);
    let bits: Vec<bool> = pulses.iter().map(|p| read_bit(p)).collect();
    assert_eq!(bits, vec![true, false, false, false, false, false, false, false]);
}

#[test]
fn color_is_sent_green_red_blue() {
    let t = clock(600);
    let c = Color { r: 0xA1, g: 0x5B, b: 0x3C };
    let mut out = Vec::new();
    push_color(&t, c, &mut out);
    let pulses = split_pulses(&out);
    assert_eq!(read_bytes(&pulses), vec![0x5B, 0xA1, 0x3C]);

    let frame = encode_frame(&t, &[c]);
    assert_eq!(frame[..out.len()].to_vec(), out);
    assert_eq!(frame[out.len()..].to_vec(), vec![Step::Wait(1200)]);
}

#[test]
fn empty_frame_is_latch_only() {
    assert_eq!(encode_frame(&clock(600), &[]), vec![Step::Wait(1200)]);
    assert_eq!(encode_frame(&magic(4), &[]), vec![Step::Wait(4); LATCH_UNITS]);

    let mut ws = Ws2812::new(Recorder::new(), 600);
    assert_eq!(ws.write(&[]), Ok(()));
    // only the constructor's initial low was driven
    assert_eq!(ws.pin.line().levels, vec![false]);
}

#[test]
fn new_drives_line_low() {
    let ws = Ws2812::new(Recorder::new(), 600);
    assert_eq!(ws.pin.line().levels, vec![false]);
    assert_eq!(ws.timing, clock(600));
    let ws = Ws2812::with_magic_number(Recorder::new(), 3);
    assert_eq!(ws.pin.line().levels, vec![false]);
    assert_eq!(ws.timing, magic(3));
}

#[test]
fn write_succeeds_even_when_the_line_fails() {
    let mut ws = Ws2812::new(Recorder::new(), 600);
    assert_eq!(ws.write(&[Color { r: 1, g: 2, b: 3 }]), Ok(()));

    let mut broken = Ws2812::new(Broken { calls: 0 }, 600);
    assert_eq!(broken.write(&[Color { r: 0xFF, g: 0, b: 7 }, Color { r: 0, g: 0, b: 0 }]), Ok(()));
    // one initial low, then a high and a low for each of 48 bits
    assert_eq!(broken.pin.line().calls, 1 + 2 * 48);
}

#[test]
fn single_color_at_600_mhz() {
    let t = clock(600);
    let frame = encode_frame(&t, &[Color { r: 0x10, g: 0x00, b: 0x00 }]);
    let pulses = split_pulses(&frame[..frame.len() - 1]);
    assert_eq!(pulses.len(), 24);
    for p in &pulses {
        let (high, low) = durations(p);
        // every pulse is plainly a 1 (high > low) or a 0 (high < low)
        assert!(high != low);
    }
    assert_eq!(read_bytes(&pulses), vec![0x00, 0x10, 0x00]);
    // the latch: 1200 loops of 3 cycles at 600 MHz is 6000 ns
    let latch = frame[frame.len() - 1];
    assert_eq!(latch, Step::Wait(1200));
    assert!(1200 * 3 * 1000 / 600 >= 6000);

    let mut ws = Ws2812::new(Recorder::new(), 600);
    assert_eq!(ws.write(&[Color { r: 0x10, g: 0x00, b: 0x00 }]), Ok(()));
    assert_eq!(ws.pin.line().levels.len(), 1 + 2 * 24);
}

#[test]
fn consecutive_writes_end_low() {
    let mut ws = Ws2812::new(Recorder::new(), 600);
    assert_eq!(ws.write(&[Color { r: 0xFF, g: 0xFF, b: 0xFF }]), Ok(()));
    assert_eq!(ws.pin.line().levels.last(), Some(&false));
    let after_first = ws.pin.line().levels.len();
    ws.wait(1000);
    assert_eq!(ws.write(&[Color { r: 0x01, g: 0x80, b: 0x7F }, Color { r: 0, g: 0, b: 0 }]), Ok(()));
    assert_eq!(ws.pin.line().levels.last(), Some(&false));
    assert_eq!(ws.pin.line().levels.len(), after_first + 2 * 48);
    // high and low alternate: the line never goes high twice in a row
    for w in ws.pin.line().levels.windows(2) {
        assert_ne!(w[0], w[1]);
    }
}

#[test]
fn changing_magic_number_keeps_bits() {
    let colors = [Color { r: 0x12, g: 0x34, b: 0x56 }, Color { r: 0xFF, g: 0x00, b: 0x81 }];
    let mut ws = Ws2812::with_magic_number(Recorder::new(), 5);
    let first = encode_frame(&ws.timing, &colors);
    assert_eq!(ws.write(&colors), Ok(()));
    let levels_first = ws.pin.line().levels.clone();

    ws.set_magic_number(11);
    assert_eq!(ws.timing, magic(11));
    let second = encode_frame(&ws.timing, &colors);
    assert_eq!(ws.write(&colors), Ok(()));
    let levels_second = ws.pin.line().levels[levels_first.len()..].to_vec();

    assert_ne!(first, second);
    assert_eq!(levels_first[1..].to_vec(), levels_second);
    let pulses_before = split_pulses(&first[..first.len() - LATCH_UNITS]);
    let pulses_after = split_pulses(&second[..second.len() - LATCH_UNITS]);
    assert_eq!(pulses_before.len(), 48);
    assert_eq!(read_bytes(&pulses_before), read_bytes(&pulses_after));
    assert_eq!(read_bytes(&pulses_before), vec![0x34, 0x12, 0x56, 0x00, 0xFF, 0x81]);
    for (a, b) in pulses_before.iter().zip(pulses_after.iter()) {
        let (h1, l1) = durations(a);
        let (h2, l2) = durations(b);
        // durations scale with the magic number: 5 loops per unit, then 11
        assert_eq!(h1 * 11, h2 * 5);
        assert_eq!(l1 * 11, l2 * 5);
        assert_eq!((h1, l1), if read_bit(a) { (10, 5) } else { (5, 10) });
    }
}

#[test]
fn setters_change_only_their_part() {
    let mut ws = Ws2812::new(Recorder::new(), 600);
    ws.set_frequency_mhz(528);
    assert_eq!(ws.timing, clock(528));
    let times = PulseTimes { one_high: 800, one_low: 450, zero_high: 400, zero_low: 850, latch: 50000 };
    ws.set_pulse_times(times);
    assert_eq!(ws.timing, Timing { calibration: Calibration::Clock { mhz: 528 }, times });
    assert_eq!(encode_frame(&ws.timing, &[]), vec![Step::Wait(n_loops_at(50000, 528))]);
    assert_eq!(ws.pin.line().levels, vec![false]);
}

#[test]
fn wait_returns() {
    let mut ws = Ws2812::new(Recorder::new(), 600);
    ws.wait(0);
    ws.wait(1);
    ws.wait(100_000);
}

#[test]
fn datasheet_times() {
    let t = PulseTimes::datasheet();
    assert_eq!(t, PulseTimes { one_high: 700, one_low: 600, zero_high: 350, zero_low: 800, latch: 50000 });
    let timing = Timing { calibration: Calibration::Clock { mhz: 600 }, times: t };
    let mut out = Vec::new();
    push_bit(&timing, true, &mut out);
    push_bit(&timing, false, &mut out);
    assert_eq!(
        out,
        vec![
            Step::High, Step::Wait(140), Step::Low, Step::Wait(120),
            Step::High, Step::Wait(70), Step::Low, Step::Wait(160),
        ]
    );
    assert_eq!(encode_frame(&timing, &[]), vec![Step::Wait(10000)]);
}

#[test]
fn traced_line_drives_its_line() {
    let mut line = Traced::new(Recorder::new());
    assert!(line.line().levels.is_empty());
    line.set_high();
    line.wait(10);
    line.set_low();
    line.set_low();
    assert_eq!(line.line().levels, vec![true, false, false]);

    let mut broken = Traced::new(Broken { calls: 0 });
    broken.set_high();
    broken.set_low();
    assert_eq!(broken.line().calls, 2);
}

#[test]
fn write_drives_high_low_pairs() {
    let colors = [Color { r: 0x10, g: 0x00, b: 0x00 }, Color { r: 0xFF, g: 0xEE, b: 0x01 }];
    for start in [Ws2812::new(Recorder::new(), 600), Ws2812::with_magic_number(Recorder::new(), 7)] {
        let mut ws = start;
        assert_eq!(ws.write(&colors), Ok(()));
        let expected: Vec<bool> = std::iter::once(false)
            .chain((0..48).flat_map(|_| [true, false]))
            .collect();
        assert_eq!(ws.pin.line().levels, expected);
    }
}
