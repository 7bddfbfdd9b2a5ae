use hawktui::animation::{sequential_after, tick_plan, TickPlan, TimelineMode};

#[test]
fn finished_or_empty_timelines_stay_idle() {
    assert_eq!(tick_plan(TimelineMode::Sequential, 0, true, 3), TickPlan::Idle);
    assert_eq!(tick_plan(TimelineMode::Parallel, 0, false, 0), TickPlan::Idle);
    assert_eq!(tick_plan(TimelineMode::Sequential, 1, false, 3), TickPlan::One(1));
    assert_eq!(tick_plan(TimelineMode::Sequential, 3, false, 3), TickPlan::Finish);
    assert_eq!(tick_plan(TimelineMode::Parallel, 5, false, 3), TickPlan::All);
}

#[test]
fn a_sequential_timeline_moves_on_when_its_entry_ends() {
    assert_eq!(sequential_after(0, 2, true), (0, false, true));
    assert_eq!(sequential_after(0, 2, false), (1, false, true));
    assert_eq!(sequential_after(1, 2, false), (2, true, false));
}
