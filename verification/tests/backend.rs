use hawktui::backend::crossterm_backend::CrosstermBackend;
use hawktui::backend::test::TestBackend;
use hawktui::backend::Backend;
use hawktui::base::cell::Cell;
use hawktui::base::rect::{Position, Rect, Size};
use hawktui::base::style::{Color, Modifier, Style};
use hawktui::terminal::Terminal;

fn cell(symbol: &str, fg: Color) -> Cell {
    let mut c = Cell::EMPTY();
    c.set_symbol(symbol);
    c.fg = fg;
    c
}

#[test]
fn test_backend_starts_blank_with_its_size() {
    let backend = TestBackend::new(4, 2);
    assert_eq!(backend.size().unwrap(), Size::new(4, 2));
    assert_eq!(backend.buffer().area, Rect::new(0, 0, 4, 2));
    assert_eq!(backend.row_text(0), "");
    assert_eq!(backend.row_text(5), "");
}

#[test]
fn test_backend_draws_cells_and_skips_outside_ones() {
    let mut backend = TestBackend::new(4, 2);
    let a = cell("a", Color::Red);
    let b = cell("b", Color::Reset);
    let far = cell("z", Color::Reset);
    backend.draw(&[(1, 0, &a), (0, 1, &b), (9, 9, &far)]).unwrap();
    assert_eq!(backend.row_text(0), " a");
    assert_eq!(backend.row_text(1), "b");
    assert_eq!(backend.buffer().content[1].fg, Color::Red);
}

#[test]
fn test_backend_clear_blanks_the_screen() {
    let mut backend = TestBackend::new(3, 1);
    let a = cell("a", Color::Reset);
    backend.draw(&[(0, 0, &a)]).unwrap();
    backend.clear().unwrap();
    assert_eq!(backend.row_text(0), "");
}

#[test]
fn test_backend_tracks_the_cursor() {
    let mut backend = TestBackend::new(3, 1);
    backend.set_cursor_position(Position::new(2, 0)).unwrap();
    assert_eq!(backend.get_cursor_position().unwrap(), Position::new(2, 0));
}

#[test]
fn crossterm_frame_moves_once_and_sets_changed_attributes() {
    let mut backend = CrosstermBackend::new(Vec::new());
    let a = cell("a", Color::Red);
    let b = cell("b", Color::Red);
    backend.draw(&[(0, 0, &a), (1, 0, &b)]).unwrap();
    let written = String::from_utf8(backend.writer().clone()).unwrap();
    assert_eq!(written, "\x1b[1;1H\x1b[31m\x1b[49mab\x1b[0m");
}

#[test]
fn crossterm_frame_skips_wide_continuations_and_jumps_gaps() {
    let mut backend = CrosstermBackend::new(Vec::new());
    let wide = cell("界", Color::Reset);
    let mut tail = Cell::EMPTY();
    tail.set_symbol("");
    let far = cell("x", Color::Reset);
    backend.draw(&[(0, 0, &wide), (1, 0, &tail), (3, 2, &far)]).unwrap();
    let written = String::from_utf8(backend.writer().clone()).unwrap();
    assert_eq!(written, "\x1b[1;1H\x1b[39m\x1b[49m界\x1b[3;4Hx\x1b[0m");
}

#[test]
fn crossterm_frame_emits_modifier_changes() {
    let mut backend = CrosstermBackend::new(Vec::new());
    let mut bold = cell("a", Color::Reset);
    bold.modifier = Modifier::BOLD();
    let plain = cell("b", Color::Reset);
    backend.draw(&[(0, 0, &bold), (1, 0, &plain)]).unwrap();
    let written = String::from_utf8(backend.writer().clone()).unwrap();
    assert_eq!(written, "\x1b[1;1H\x1b[1m\x1b[39m\x1b[49ma\x1b[22mb\x1b[0m");
}

#[test]
fn crossterm_linked_frame_opens_and_closes_links() {
    let mut backend = CrosstermBackend::new(Vec::new());
    let a = cell("a", Color::Reset);
    let b = cell("b", Color::Reset);
    backend.draw_linked(&[(0, 0, &a, Some("u")), (1, 0, &b, Some("u"))]).unwrap();
    let written = String::from_utf8(backend.writer().clone()).unwrap();
    assert_eq!(written, "\x1b[1;1H\x1b[39m\x1b[49m\x1b]8;;u\x1b\\ab\x1b]8;;\x1b\\\x1b[0m");
}

#[test]
fn crossterm_commands_write_their_sequences() {
    let mut backend = CrosstermBackend::new(Vec::new());
    backend.hide_cursor().unwrap();
    backend.set_cursor_position(Position::new(4, 2)).unwrap();
    backend.begin_sync().unwrap();
    backend.end_sync().unwrap();
    let written = String::from_utf8(backend.writer().clone()).unwrap();
    assert_eq!(written, "\x1b[?25l\x1b[3;5H\x1b[?2026h\x1b[?2026l");
}

#[test]
fn terminal_draws_only_what_changed() {
    let mut terminal = Terminal::new(TestBackend::new(6, 2)).unwrap();
    assert_eq!(terminal.area(), Rect::new(0, 0, 6, 2));
    terminal
        .draw(|frame| {
            frame.buffer_mut().set_string(0, 0, "hello", Style::default());
        })
        .unwrap();
    assert_eq!(terminal.backend().row_text(0), "hello");
    terminal
        .draw(|frame| {
            frame.buffer_mut().set_string(0, 1, "x", Style::default());
        })
        .unwrap();
    assert_eq!(terminal.backend().row_text(0), "");
    assert_eq!(terminal.backend().row_text(1), "x");
}

#[test]
fn terminal_frame_registers_clicks_and_cursor() {
    let mut terminal = Terminal::new(TestBackend::new(6, 2)).unwrap();
    terminal
        .draw(|frame| {
            frame.register_clickable("ok".to_string(), Rect::new(0, 0, 2, 1), 1);
            frame.set_cursor_position(Position::new(3, 1));
        })
        .unwrap();
    assert_eq!(terminal.hit_map().hit_test(1, 0).map(|h| h.agent_id), Some("ok".to_string()));
    assert_eq!(terminal.backend_mut().get_cursor_position().unwrap(), Position::new(3, 1));
}

#[test]
fn crossterm_screen_commands_write_their_sequences() {
    let mut backend = CrosstermBackend::new(Vec::new());
    backend.enter_alternate_screen().unwrap();
    backend.enable_bracketed_paste().unwrap();
    backend.clear().unwrap();
    backend.show_cursor().unwrap();
    backend.disable_bracketed_paste().unwrap();
    backend.leave_alternate_screen().unwrap();
    backend.set_cursor_position(Position::new(u16::MAX, 0)).unwrap();
    backend.flush().unwrap();
    let written = String::from_utf8(backend.writer().clone()).unwrap();
    assert_eq!(written, "\x1b[?1049h\x1b[?2004h\x1b[2J\x1b[?25h\x1b[?2004l\x1b[?1049l");
}

#[test]
fn crossterm_mouse_capture_switches_every_mode() {
    let mut backend = CrosstermBackend::new(Vec::new());
    backend.enable_mouse_capture().unwrap();
    backend.disable_mouse_capture().unwrap();
    let written = String::from_utf8(backend.writer().clone()).unwrap();
    assert_eq!(
        written,
        "\x1b[?1000h\x1b[?1002h\x1b[?1003h\x1b[?1015h\x1b[?1006h\x1b[?1006l\x1b[?1015l\x1b[?1003l\x1b[?1002l\x1b[?1000l"
    );
}

#[test]
fn terminal_with_size_covers_the_screen_from_the_origin() {
    let terminal = Terminal::with_size(TestBackend::new(3, 2), Size::new(5, 4));
    assert_eq!(terminal.area(), Rect::new(0, 0, 5, 4));
}

#[test]
fn terminal_resize_to_takes_the_new_size() {
    let mut terminal = Terminal::with_size(TestBackend::new(6, 2), Size::new(6, 2));
    terminal.resize_to(Size::new(8, 3));
    assert_eq!(terminal.area(), Rect::new(0, 0, 8, 3));
    terminal.resize_to(Size::new(8, 3));
    assert_eq!(terminal.area(), Rect::new(0, 0, 8, 3));
}

#[test]
fn test_backend_accepts_the_default_paste_and_sync_commands() {
    let mut backend = TestBackend::new(2, 1);
    assert!(backend.enable_bracketed_paste().is_ok());
    assert!(backend.disable_bracketed_paste().is_ok());
    assert!(backend.begin_sync().is_ok());
    assert!(backend.end_sync().is_ok());
}
