use hawktui::base::style::Color;

#[test]
fn true_colors_are_written_in_uppercase_hex() {
    assert_eq!(Color::Rgb(255, 0, 16).name(), "#FF0010");
    assert_eq!(Color::Rgb(1, 171, 205).name(), "#01ABCD");
}

#[test]
fn palette_colors_are_written_by_index() {
    assert_eq!(Color::Indexed(7).name(), "color(7)");
    assert_eq!(Color::Indexed(42).name(), "color(42)");
    assert_eq!(Color::Indexed(200).name(), "color(200)");
}

#[test]
fn named_colors_are_written_by_name() {
    assert_eq!(Color::Reset.name(), "Reset");
    assert_eq!(Color::LightMagenta.name(), "LightMagenta");
    assert_eq!(Color::DarkGray.name(), "DarkGray");
}
