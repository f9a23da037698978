//! The timing core of a frame-timing diagnostic overlay: a clock that turns
//! fixed update steps into a turning indicator, and a rolling record of the
//! measured tick durations. All times are whole nanoseconds.

pub mod degree_clock;
pub mod delta_history;

pub use degree_clock::{ClockView, DegreeClock, DEGREES_PER_TURN, NANOS_PER_DEGREE};
pub use delta_history::{DeltaHistory, HISTORY_SIZE};
pub use timing_test::{Snapshot, Timing, TimingTest};
