use hawktui::agent::transport::{admit_line, LineVerdict, RateWindow, MAX_LINE_BYTES};

#[test]
fn blank_lines_are_skipped_without_counting() {
    let w = RateWindow { start_ms: 0, count: 5 };
    assert_eq!(admit_line(w, 10, 0), (w, LineVerdict::Skip));
}

#[test]
fn the_thousand_and_first_request_in_a_second_is_throttled() {
    let w = RateWindow { start_ms: 0, count: 999 };
    let (w, v) = admit_line(w, 500, 3);
    assert_eq!(v, LineVerdict::Accept);
    assert_eq!(w.count, 1000);
    let (w, v) = admit_line(w, 600, 3);
    assert_eq!(v, LineVerdict::RateLimited);
    let (w, v) = admit_line(w, 1000, 3);
    assert_eq!(v, LineVerdict::Accept);
    assert_eq!(w, RateWindow { start_ms: 1000, count: 1 });
}

#[test]
fn oversized_lines_are_refused_with_their_length() {
    let w = RateWindow { start_ms: 0, count: 0 };
    assert_eq!(admit_line(w, 0, MAX_LINE_BYTES + 1).1, LineVerdict::TooLarge(MAX_LINE_BYTES + 1));
    assert_eq!(admit_line(w, 0, MAX_LINE_BYTES).1, LineVerdict::Accept);
}
