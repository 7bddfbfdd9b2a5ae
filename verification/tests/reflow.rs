use hawktui::base::reflow::{CharWrapper, LineTruncator, WordWrapper};
use hawktui::base::style::{Color, Style};
use hawktui::base::text::{Line, Span};

fn plain_line(s: &str) -> Line {
    Line::raw(s.to_string())
}

fn line_text(line: &Line) -> String {
    line.spans.iter().map(|s| s.content.as_str()).collect()
}

#[test]
fn word_wrap_simple() {
    let lines = vec![plain_line("hello world foo")];
    let wrapped = WordWrapper::wrap(&lines, 11, Style::default());
    assert_eq!(wrapped.len(), 2);
    assert_eq!(line_text(&wrapped[0]), "hello world");
    assert_eq!(line_text(&wrapped[1]), "foo");
}

#[test]
fn word_wrap_long_word_falls_back_to_char() {
    let lines = vec![plain_line("abcdefghij")];
    let wrapped = WordWrapper::wrap(&lines, 4, Style::default());
    assert_eq!(wrapped.len(), 3);
    assert_eq!(line_text(&wrapped[0]), "abcd");
    assert_eq!(line_text(&wrapped[1]), "efgh");
    assert_eq!(line_text(&wrapped[2]), "ij");
}

#[test]
fn word_wrap_preserves_styles() {
    let styled = Line::from(vec![
        Span::styled("hello ".to_string(), Style::default().fg(Color::Red)),
        Span::styled("world".to_string(), Style::default().fg(Color::Blue)),
    ]);
    let wrapped = WordWrapper::wrap(&[styled], 5, Style::default());
    assert_eq!(wrapped.len(), 2);
    // First line should be "hello" with Red
    assert_eq!(wrapped[0].spans[0].style.fg, Some(Color::Red));
    // Second line should be "world" with Blue
    assert_eq!(wrapped[1].spans[0].style.fg, Some(Color::Blue));
}

#[test]
fn word_wrap_empty_line() {
    let lines = vec![plain_line("")];
    let wrapped = WordWrapper::wrap(&lines, 10, Style::default());
    assert_eq!(wrapped.len(), 1);
}

#[test]
fn char_wrap_simple() {
    let lines = vec![plain_line("abcdefghij")];
    let wrapped = CharWrapper::wrap(&lines, 4, Style::default());
    assert_eq!(wrapped.len(), 3);
    assert_eq!(line_text(&wrapped[0]), "abcd");
    assert_eq!(line_text(&wrapped[1]), "efgh");
    assert_eq!(line_text(&wrapped[2]), "ij");
}

#[test]
fn char_wrap_preserves_styles() {
    let styled = Line::from(vec![
        Span::styled("abc".to_string(), Style::default().fg(Color::Red)),
        Span::styled("def".to_string(), Style::default().fg(Color::Blue)),
    ]);
    let wrapped = CharWrapper::wrap(&[styled], 4, Style::default());
    assert_eq!(wrapped.len(), 2);
    // "abcd" — first 3 chars Red, fourth char Blue
    assert_eq!(wrapped[0].spans.len(), 2);
    assert_eq!(wrapped[0].spans[0].content.as_str(), "abc");
    assert_eq!(wrapped[0].spans[1].content.as_str(), "d");
}

#[test]
fn truncate_clips_long_lines() {
    let lines = vec![plain_line("hello world")];
    let truncated = LineTruncator::truncate(&lines, 5, Style::default());
    assert_eq!(truncated.len(), 1);
    assert_eq!(line_text(&truncated[0]), "hello");
}

#[test]
fn truncate_preserves_short_lines() {
    let lines = vec![plain_line("hi")];
    let truncated = LineTruncator::truncate(&lines, 10, Style::default());
    assert_eq!(truncated.len(), 1);
    assert_eq!(line_text(&truncated[0]), "hi");
}

#[test]
fn char_wrap_keeps_wide_characters_within_the_width() {
    let lines = vec![plain_line("日本語テキスト")];
    let wrapped = CharWrapper::wrap(&lines, 5, Style::default());
    for line in &wrapped {
        assert!(line.width() <= 5, "{}", line_text(line));
    }
    assert_eq!(line_text(&wrapped[0]), "日本");
}

#[test]
fn char_wrap_gives_a_too_wide_grapheme_its_own_line() {
    let lines = vec![plain_line("a日b")];
    let wrapped = CharWrapper::wrap(&lines, 1, Style::default());
    let texts: Vec<String> = wrapped.iter().map(line_text).collect();
    assert_eq!(texts, vec!["a", "日", "b"]);
}

#[test]
fn truncation_never_exceeds_the_width() {
    let lines = vec![plain_line("日本語")];
    let truncated = LineTruncator::truncate(&lines, 5, Style::default());
    assert_eq!(line_text(&truncated[0]), "日本");
    assert!(truncated[0].width() <= 5);
}

#[test]
fn word_wrap_keeps_every_line_within_the_width() {
    let lines = vec![plain_line("the quick brown fox jumps over a supercalifragilistic dog")];
    let wrapped = WordWrapper::wrap(&lines, 10, Style::default());
    for line in &wrapped {
        assert!(line.width() <= 10, "{:?}", line_text(line));
    }
    assert!(wrapped.iter().any(|l| line_text(l) == "supercalif"));
}

#[test]
fn try_wrap_wraps_lines_whose_widths_fit() {
    let lines = vec![plain_line("hello world foo")];
    let wrapped = WordWrapper::try_wrap(&lines, 11, Style::default()).unwrap();
    assert_eq!(wrapped.len(), 2);
    assert_eq!(line_text(&wrapped[0]), "hello world");
    assert_eq!(line_text(&wrapped[1]), "foo");
}

#[test]
fn char_wrap_keeps_the_text_and_fills_its_lines() {
    let lines = vec![plain_line("abcdefghij")];
    let wrapped = CharWrapper::wrap(&lines, 3, Style::default());
    let joined: String = wrapped.iter().map(line_text).collect();
    assert_eq!(joined, "abcdefghij");
    assert!(wrapped[..wrapped.len() - 1].iter().all(|l| line_text(l).chars().count() == 3));
}

#[test]
fn word_wrap_keeps_every_word_in_order() {
    let lines = vec![plain_line("the quick brown fox jumps")];
    let wrapped = WordWrapper::wrap(&lines, 9, Style::default());
    let words: Vec<String> = wrapped
        .iter()
        .flat_map(|l| line_text(l).split_whitespace().map(str::to_string).collect::<Vec<_>>())
        .collect();
    assert_eq!(words, vec!["the", "quick", "brown", "fox", "jumps"]);
}
