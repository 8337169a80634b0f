//! Bit-banged driver for WS2812 serial LEDs.
//!
//! The driver turns a sequence of colors into a plan of pin steps (raise the
//! line, lower it, busy-wait for a number of loops) and plays that plan on a
//! single output line. The plan is a pure function of the colors and the
//! timing configuration, and its shape is proved: green, red, blue order, most
//! significant bit first, one high-then-low pulse per bit, a latch at the end,
//! and the line resting low between frames.
//!
//! The busy-wait gives no real-time guarantee: any interrupt or preemption
//! during `write` stretches a pulse and corrupts the frame, so callers should
//! run it with interrupts masked or with jitter well below the ~300 ns
//! tolerance of the protocol.

pub mod driver;
pub mod encode;
pub mod line;
pub mod timing;

pub use driver::Ws2812;
pub use line::{Line, Traced};
pub use encode::{encode_frame, push_bit, push_byte, push_color, Color, Step};
pub use timing::{n_loops_at, Calibration, PulseTimes, Timing, CYCLES_PER_LOOP, LATCH_UNITS};
