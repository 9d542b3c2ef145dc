//! The pacing of the emulator: instructions per frame, frame length, and the
//! 60 Hz timer period.
use vstd::prelude::*;

verus! {

/// Instructions executed per frame.
pub const CYCLES_PER_FRAME: u8 = 10;

/// Frames per second.
pub const TARGET_FPS: u64 = 60;

/// The length of a frame in microseconds.
pub const FRAME_DURATION_MICROS: u64 = 1_000_000 / TARGET_FPS;

/// The period of the delay and sound timers in microseconds.
pub const TIMER_PERIOD_MICROS: u64 = 16667;

/// Whether the timers are due to count down, `elapsed_micros` after they last did.
pub fn timers_due(elapsed_micros: u128) -> (due: bool)
    ensures
        due == (elapsed_micros >= TIMER_PERIOD_MICROS),
{
    elapsed_micros >= TIMER_PERIOD_MICROS as u128
}

/// How long to sleep after a frame that took `frame_micros`: the rest of the
/// frame, or nothing when the frame took its whole length or more.
pub fn frame_sleep_micros(frame_micros: u128) -> (sleep: Option<u64>)
    ensures
        frame_micros < FRAME_DURATION_MICROS ==> sleep == Some((FRAME_DURATION_MICROS - frame_micros) as u64),
        frame_micros >= FRAME_DURATION_MICROS ==> sleep is None,
{
    if frame_micros < FRAME_DURATION_MICROS as u128 {
        Some(FRAME_DURATION_MICROS - frame_micros as u64)
    } else {
        None
    }
}

} // verus!
