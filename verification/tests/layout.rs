use hawktui::base::rect::{Margin, Rect};
use hawktui::layout::{Constraint, Layout};

#[test]
fn vertical_fixed_lengths() {
    let area = Rect::new(0, 0, 80, 24);
    let rects = Layout::vertical(vec![Constraint::Length(3), Constraint::Length(5)]).split(area);
    assert_eq!(rects.len(), 2);
    assert_eq!(rects[0], Rect::new(0, 0, 80, 3));
    assert_eq!(rects[1], Rect::new(0, 3, 80, 5));
}

#[test]
fn fill_distributes_remaining() {
    let area = Rect::new(0, 0, 80, 24);
    let rects = Layout::vertical(vec![Constraint::Length(4), Constraint::Fill(1)]).split(area);
    assert_eq!(rects[0].height, 4);
    assert_eq!(rects[1].height, 20);
}

#[test]
fn horizontal_with_margin() {
    let area = Rect::new(0, 0, 80, 24);
    let rects = Layout::horizontal(vec![Constraint::Percentage(50), Constraint::Percentage(50)])
        .margin(Margin::uniform(1))
        .split(area);
    assert_eq!(rects[0].x, 1);
    assert_eq!(rects[0].width + rects[1].width, 78);
}

#[test]
fn min_absorbs_remaining_space() {
    let area = Rect::new(0, 0, 80, 24);
    let rects = Layout::vertical(vec![Constraint::Min(0), Constraint::Length(3)]).split(area);
    assert_eq!(rects[0].height, 21);
    assert_eq!(rects[1].height, 3);
    assert_eq!(rects[1].y, 21);
}

#[test]
fn cached_split_matches_uncached_solve() {
    let layout = Layout::vertical(vec![
        Constraint::Length(3),
        Constraint::Min(0),
        Constraint::Percentage(25),
    ]);
    for area in [Rect::new(0, 0, 80, 24), Rect::new(0, 0, 200, 50), Rect::new(4, 2, 37, 19)] {
        // Twice, as a cache would serve the second call.
        assert_eq!(*layout.split(area), *layout.solve(area));
        assert_eq!(*layout.split(area), *layout.solve(area));
    }
}

#[test]
fn cache_distinguishes_layouts_that_differ_only_slightly() {
    let area = Rect::new(0, 0, 80, 24);
    let a = Layout::vertical(vec![Constraint::Length(3), Constraint::Min(0)]);
    let b = Layout::vertical(vec![Constraint::Length(4), Constraint::Min(0)]);
    let c = Layout::horizontal(vec![Constraint::Length(3), Constraint::Min(0)]);
    let d = Layout::vertical(vec![Constraint::Length(3), Constraint::Min(0)]).spacing(1);

    assert_ne!(a.split(area)[0], b.split(area)[0]);
    assert_ne!(a.split(area)[0], c.split(area)[0]);
    assert_ne!(a.split(area)[1], d.split(area)[1]);
    assert_eq!(a.split(area)[0].height, 3);
}

#[test]
fn cache_survives_more_distinct_layouts_than_it_holds() {
    let first = Layout::vertical(vec![Constraint::Length(1), Constraint::Min(0)]);
    let area = Rect::new(0, 0, 80, 24);
    let expected = first.solve(area);
    for i in 0..64u16 {
        let l = Layout::vertical(vec![Constraint::Length(i), Constraint::Min(0)]);
        let _ = l.split(Rect::new(0, 0, 80 + i, 24));
    }
    assert_eq!(*first.split(area), *expected);
}
