//! How animations repeat and how a timeline plays them.
use vstd::prelude::*;

verus! {

/// How a tween should repeat.
#[derive(Debug, Clone, Copy, PartialEq, Eq, Structural)]
pub enum RepeatMode {
    /// Play once and stop.
    Once,
    /// Loop from start when complete.
    Loop,
    /// Reverse direction at each end (ping-pong).
    PingPong,
    /// Repeat a fixed number of times.
    Count(u32),
}

/// How timeline entries are played.
#[derive(Debug, Clone, Copy, PartialEq, Eq, Structural)]
pub enum TimelineMode {
    /// Play each animation one after another.
    Sequential,
    /// Play all animations simultaneously.
    Parallel,
}

/// Which entries of a timeline a tick advances.
#[derive(Debug, Clone, Copy, PartialEq, Eq, Structural)]
pub enum TickPlan {
    /// The timeline is finished or empty: nothing runs and the tick
    /// reports that nothing is running.
    Idle,
    /// Advance the entry at this index (a sequential timeline).
    One(usize),
    /// Advance every entry (a parallel timeline).
    All,
    /// A sequential timeline past its last entry: it becomes finished.
    Finish,
}

/// What a tick of a timeline with `len` entries does, given its mode, the
/// index of its current entry and whether it has finished.
pub fn tick_plan(mode: TimelineMode, current: usize, finished: bool, len: usize) -> (r: TickPlan)
    ensures
        r == if finished || len == 0 {
            TickPlan::Idle
        } else {
            match mode {
                TimelineMode::Sequential => if current < len { TickPlan::One(current) } else { TickPlan::Finish },
                TimelineMode::Parallel => TickPlan::All,
            }
        },
{
    if finished || len == 0 {
        return TickPlan::Idle;
    }
    match mode {
        TimelineMode::Sequential => if current < len {
            TickPlan::One(current)
        } else {
            TickPlan::Finish
        },
        TimelineMode::Parallel => TickPlan::All,
    }
}

/// After the current entry of a sequential timeline of `len` entries was
/// advanced and reported whether it is still `running`: the next current
/// index, whether the timeline has finished, and what the tick reports.
/// A running entry stays current; a finished one hands over to the next,
/// and the timeline finishes after its last entry.
pub fn sequential_after(current: usize, len: usize, running: bool) -> (r: (usize, bool, bool))
    requires
        current < len,
    ensures
        running ==> r == (current, false, true),
        !running ==> r == ((current + 1) as usize, current + 1 >= len, current + 1 < len),
{
    if running {
        (current, false, true)
    } else {
        let next = current + 1;
        (next, next >= len, next < len)
    }
}

} // verus!
