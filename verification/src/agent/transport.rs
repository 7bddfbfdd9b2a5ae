//! The admission decisions of the JSON Lines transport: which lines are
//! skipped, throttled, refused as too large, or handed on to be parsed.
use vstd::prelude::*;

verus! {

/// Largest request line accepted, in bytes.
pub const MAX_LINE_BYTES: usize = 1048576;

/// Requests allowed in one window of a second.
pub const MAX_REQUESTS_PER_SEC: u32 = 1000;

/// The current rate-limit window: when it opened, in milliseconds on the
/// transport's clock, and how many requests it has counted.
#[derive(Debug, Clone, Copy, PartialEq, Eq, Structural)]
pub struct RateWindow {
    pub start_ms: u64,
    pub count: u32,
}

/// What the transport does with one line read from its input.
#[derive(Debug, Clone, Copy, PartialEq, Eq, Structural)]
pub enum LineVerdict {
    /// Blank: ignored, and not counted.
    Skip,
    /// Over the window's request budget: answered with a rate-limit error.
    RateLimited,
    /// Longer than `MAX_LINE_BYTES`: answered with a size error giving the
    /// length.
    TooLarge(usize),
    /// Handed on to be parsed and served.
    Accept,
}

/// The window that counts a request arriving at `now_ms`: a new one when a
/// second or more has passed since the window opened.
pub open spec fn counted(w: RateWindow, now_ms: u64) -> RateWindow {
    let opened = if now_ms >= w.start_ms && now_ms - w.start_ms >= 1000 {
        RateWindow { start_ms: now_ms, count: 0 }
    } else {
        w
    };
    RateWindow { count: if opened.count < u32::MAX { (opened.count + 1) as u32 } else { u32::MAX }, ..opened }
}

/// Decide what to do with a line whose trimmed text is `trimmed_len` bytes
/// long, arriving at `now_ms`: blank lines are skipped without being
/// counted; every other line is counted in the rate-limit window, then
/// refused when the window's budget is spent, refused when it is too large,
/// and accepted otherwise.
pub fn admit_line(window: RateWindow, now_ms: u64, trimmed_len: usize) -> (r: (RateWindow, LineVerdict))
    ensures
        trimmed_len == 0 ==> r == (window, LineVerdict::Skip),
        trimmed_len > 0 ==> {
            let w = counted(window, now_ms);
            &&& r.0 == w
            &&& r.1 == if w.count > MAX_REQUESTS_PER_SEC {
                LineVerdict::RateLimited
            } else if trimmed_len > MAX_LINE_BYTES {
                LineVerdict::TooLarge(trimmed_len)
            } else {
                LineVerdict::Accept
            }
        },
{
    if trimmed_len == 0 {
        return (window, LineVerdict::Skip);
    }
    let mut w = window;
    if now_ms >= w.start_ms && now_ms - w.start_ms >= 1000 {
        w = RateWindow { start_ms: now_ms, count: 0 };
    }
    w.count = w.count.saturating_add(1);
    let verdict = if w.count > MAX_REQUESTS_PER_SEC {
        LineVerdict::RateLimited
    } else if trimmed_len > MAX_LINE_BYTES {
        LineVerdict::TooLarge(trimmed_len)
    } else {
        LineVerdict::Accept
    };
    (w, verdict)
}

} // verus!
