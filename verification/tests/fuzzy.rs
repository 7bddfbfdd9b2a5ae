use hawktui::util::fuzzy::{best_match_indices, is_word_boundary, lowercase_chars};

fn indices(pattern: &str, haystack: &str) -> Option<Vec<usize>> {
    best_match_indices(&lowercase_chars(pattern), &lowercase_chars(haystack))
}

#[test]
fn exact_text_matches_every_position() {
    assert_eq!(indices("hello", "hello"), Some(vec![0, 1, 2, 3, 4]));
}

#[test]
fn matching_ignores_case() {
    assert_eq!(indices("abc", "AbC"), Some(vec![0, 1, 2]));
}

#[test]
fn matches_prefer_word_boundaries() {
    assert_eq!(indices("fb", "foo_bar"), Some(vec![0, 4]));
}

#[test]
fn characters_are_found_in_order_across_gaps() {
    assert_eq!(indices("abc", "a_b_c"), Some(vec![0, 2, 4]));
}

#[test]
fn a_missing_character_means_no_match() {
    assert_eq!(indices("xyz", "hello"), None);
    assert_eq!(indices("abcdef", "abc"), None);
}

#[test]
fn an_empty_pattern_matches_with_no_positions() {
    assert_eq!(indices("", "anything"), Some(vec![]));
}

#[test]
fn consecutive_characters_beat_an_earlier_boundary() {
    // After "h" at 0, "e" right after it wins over the "e" that starts a word.
    assert_eq!(indices("he", "hex_eon"), Some(vec![0, 1]));
}

#[test]
fn word_boundaries_follow_the_documented_transitions() {
    assert!(is_word_boundary(None, 'a'));
    assert!(is_word_boundary(Some('_'), 'b'));
    assert!(is_word_boundary(Some('a'), 'B'));
    assert!(is_word_boundary(Some('1'), 'a'));
    assert!(!is_word_boundary(Some('a'), 'b'));
}

#[test]
fn lowercasing_maps_each_character() {
    assert_eq!(lowercase_chars("HeLLo"), vec!['h', 'e', 'l', 'l', 'o']);
}
