use hawktui::backend::ansi::{
    close_hyperlink, diff_modifiers, move_to, open_hyperlink, push_u16, set_color, set_modifiers,
};
use hawktui::base::style::{Color, Modifier};

fn s(f: impl FnOnce(&mut Vec<u8>)) -> String {
    let mut out = Vec::new();
    f(&mut out);
    String::from_utf8(out).unwrap()
}

#[test]
fn integers_round_trip() {
    for v in [0u16, 1, 9, 10, 99, 100, 1234, 9999, 65535] {
        assert_eq!(s(|o| push_u16(o, v)), v.to_string());
    }
}

#[test]
fn move_to_is_one_indexed() {
    assert_eq!(s(|o| move_to(o, 0, 0)), "\x1b[1;1H");
    assert_eq!(s(|o| move_to(o, 79, 23)), "\x1b[24;80H");
}

#[test]
fn colors_match_ansi_codes() {
    assert_eq!(s(|o| set_color(o, Color::Red, true)), "\x1b[31m");
    assert_eq!(s(|o| set_color(o, Color::Red, false)), "\x1b[41m");
    assert_eq!(s(|o| set_color(o, Color::Reset, true)), "\x1b[39m");
    assert_eq!(s(|o| set_color(o, Color::Reset, false)), "\x1b[49m");
    assert_eq!(s(|o| set_color(o, Color::Indexed(200), true)), "\x1b[38;5;200m");
    assert_eq!(s(|o| set_color(o, Color::Rgb(1, 22, 255), false)), "\x1b[48;2;1;22;255m");
    assert_eq!(s(|o| set_color(o, Color::White, true)), "\x1b[97m");
}

#[test]
fn hyperlinks_open_and_close() {
    assert_eq!(
        s(|o| open_hyperlink(o, "https://example.com/a?b=1")),
        "\x1b]8;;https://example.com/a?b=1\x1b\\"
    );
    assert_eq!(s(close_hyperlink), "\x1b]8;;\x1b\\");
}

#[test]
fn hyperlink_strips_control_characters() {
    let out = s(|o| open_hyperlink(o, "https://example.com/\x07evil\n"));
    assert_eq!(out, "\x1b]8;;https://example.com/evil\x1b\\");
}

#[test]
fn modifier_diff_emits_nothing_when_unchanged() {
    assert_eq!(s(|o| diff_modifiers(o, Modifier::BOLD(), Modifier::BOLD())), "");
}

#[test]
fn modifier_diff_turns_single_flag_on_and_off() {
    assert_eq!(s(|o| diff_modifiers(o, Modifier::NONE(), Modifier::ITALIC())), "\x1b[3m");
    assert_eq!(s(|o| diff_modifiers(o, Modifier::ITALIC(), Modifier::NONE())), "\x1b[23m");
}

#[test]
fn modifier_diff_reasserts_flags_sharing_an_off_code() {
    // 22 clears bold and dim together, so dropping bold while keeping dim
    // must turn dim back on.
    let from = Modifier::BOLD().union(Modifier::DIM());
    let out = s(|o| diff_modifiers(o, from, Modifier::DIM()));
    assert_eq!(out, "\x1b[22m\x1b[2m");
}

#[test]
fn modifier_diff_keeps_untouched_flags_alone() {
    let from = Modifier::BOLD();
    let to = Modifier::BOLD().union(Modifier::UNDERLINED());
    assert_eq!(s(|o| diff_modifiers(o, from, to)), "\x1b[4m");
}

#[test]
fn modifier_diff_clears_extended_underline_styles() {
    let out = s(|o| diff_modifiers(o, Modifier::UNDERCURLED(), Modifier::NONE()));
    assert!(out.contains("\x1b[24m"), "expected underline reset, got {out:?}");
}

#[test]
fn modifiers_emit_each_code() {
    assert_eq!(s(|o| set_modifiers(o, Modifier::NONE())), "");
    assert_eq!(s(|o| set_modifiers(o, Modifier::BOLD())), "\x1b[1m");
    assert_eq!(s(|o| set_modifiers(o, Modifier::BOLD().union(Modifier::ITALIC()))), "\x1b[1m\x1b[3m");
    assert_eq!(s(|o| set_modifiers(o, Modifier::UNDERCURLED())), "\x1b[4:3m");
}
