use hawktui::base::symbol::Symbol;

#[test]
fn inline_round_trip() {
    for s in ["a", " ", "é", "→", "🦀", "e\u{0301}", ""] {
        assert_eq!(Symbol::new(s).as_str(), s, "round trip failed for {s:?}");
    }
}

#[test]
fn long_cluster_interns_and_round_trips() {
    // Family emoji: far longer than seven bytes.
    let family = "👨‍👩‍👧‍👦";
    assert!(family.len() > 7);
    let sym = Symbol::new(family);
    assert_eq!(sym.as_str(), family);
    assert_eq!(sym.len(), family.len());
    // Equal clusters compare equal.
    assert_eq!(sym, Symbol::new(family));
}

#[test]
fn skin_tone_emoji_round_trips() {
    let thumbs = "👍🏽";
    assert_eq!(Symbol::new(thumbs).as_str(), thumbs);
}

#[test]
fn empty_is_distinct_from_space() {
    assert!(Symbol::EMPTY().is_empty());
    assert!(!Symbol::SPACE().is_empty());
    assert_ne!(Symbol::EMPTY(), Symbol::SPACE());
    assert_eq!(Symbol::SPACE().as_str(), " ");
}

#[test]
fn char_constructor_matches_str() {
    assert_eq!(Symbol::from_char('x'), Symbol::new("x"));
    assert_eq!(Symbol::from_char('🦀'), Symbol::new("🦀"));
}
