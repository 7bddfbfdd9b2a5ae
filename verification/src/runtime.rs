//! Options for running a program.
use vstd::prelude::*;
use std::time::Duration;

verus! {

/// The whole milliseconds in a duration, as `Duration::as_millis` gives
/// them.
pub uninterp spec fn duration_millis(d: Duration) -> u128;

/// `Duration::from_millis`: a duration of `ms` milliseconds.
#[verifier::external_body]
fn duration_from_millis(ms: u64) -> (r: Duration)
    ensures
        duration_millis(r) == ms,
{
    Duration::from_millis(ms)
}

/// Configuration for running a program.
pub struct ProgramOptions {
    /// Tick interval for animation. `None` disables ticking.
    pub tick_rate: Option<Duration>,
    /// Whether to enter alternate screen on startup.
    pub alternate_screen: bool,
    /// Whether to enable mouse capture.
    pub mouse_capture: bool,
    /// Whether to enable raw mode.
    pub raw_mode: bool,
}

impl Default for ProgramOptions {
    /// Ticks every 16 ms (about 60 per second), on the alternate screen,
    /// with mouse capture and raw mode.
    fn default() -> (r: Self)
        ensures
            r.tick_rate matches Some(d) && duration_millis(d) == 16,
            r.alternate_screen,
            r.mouse_capture,
            r.raw_mode,
    {
        ProgramOptions {
            tick_rate: Some(duration_from_millis(16)),
            alternate_screen: true,
            mouse_capture: true,
            raw_mode: true,
        }
    }
}

} // verus!
