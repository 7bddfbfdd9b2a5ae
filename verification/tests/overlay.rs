use hawktui::base::buffer::Buffer;
use hawktui::base::rect::{Position, Rect};
use hawktui::overlay::ModalBox;
use hawktui::widget::Widget;

#[test]
fn modal_box_dims_the_rows_around_it_and_draws_its_frame() {
    let area = Rect::new(0, 0, 10, 5);
    let mut buf = Buffer::empty(area);
    ModalBox::new("T".to_string()).render(area, &mut buf);
    assert_eq!(
        buf.to_text(),
        "          \n  ┌─T──┐  \n  └────┘  \n          \n          "
    );
    let corner = buf.cell(Position { x: 0, y: 0 }).unwrap();
    assert_eq!(corner.style().add_modifier.0 & 2, 2);
    let below = buf.cell(Position { x: 9, y: 4 }).unwrap();
    assert_eq!(below.style().add_modifier.0 & 2, 2);
}
