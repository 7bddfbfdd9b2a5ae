use hawktui::backend::test::TestBackend;
use hawktui::backend::Backend;
use hawktui::base::buffer::Buffer;
use hawktui::base::rect::Rect;
use hawktui::base::style::Style;

#[test]
fn to_text_reads_back_a_string() {
    let mut buffer = Buffer::empty(Rect::new(0, 0, 5, 2));
    buffer.set_string(0, 0, "hi", Style::default());
    assert_eq!(buffer.to_text(), "hi   \n     ");
}

#[test]
fn drawing_the_diff_onto_the_old_screen_shows_the_new_one() {
    let mut old = Buffer::empty(Rect::new(0, 0, 6, 2));
    old.set_string(0, 0, "abc", Style::default());
    let mut new = Buffer::empty(Rect::new(0, 0, 6, 2));
    new.set_string(1, 1, "xyz", Style::default());
    let mut screen = TestBackend::new(6, 2);
    let changes = old.diff(&new);
    assert_eq!(changes.len(), 6);
    let before = Buffer::empty(Rect::new(0, 0, 6, 2));
    screen.draw(&before.diff(&old)).unwrap();
    screen.draw(&changes).unwrap();
    assert_eq!(screen.row_text(0), new.row_text(0).trim_end());
    assert_eq!(screen.row_text(1), new.row_text(1).trim_end());
}

#[test]
fn a_buffer_has_no_diff_with_itself() {
    let mut buffer = Buffer::empty(Rect::new(0, 0, 4, 2));
    buffer.set_string(0, 1, "hey", Style::default());
    assert!(buffer.diff(&buffer).is_empty());
}
