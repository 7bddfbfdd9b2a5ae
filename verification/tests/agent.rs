use hawktui::agent::protocol::InjectedEvent;
use hawktui::agent::read_capped_line;
use hawktui::agent::session::AgentSession;
use hawktui::event::{Event, KeyCode, KeyEvent, KeyModifiers, MouseButton, MouseEventKind};
use std::io::Cursor;

#[test]
fn reads_normal_lines() {
    let mut r = Cursor::new(b"hello\nworld\n".to_vec());
    let (a, over_a) = read_capped_line(&mut r, 1024).unwrap().unwrap();
    assert_eq!(a, b"hello");
    assert!(!over_a);
    let (b, over_b) = read_capped_line(&mut r, 1024).unwrap().unwrap();
    assert_eq!(b, b"world");
    assert!(!over_b);
    assert!(read_capped_line(&mut r, 1024).unwrap().is_none());
}

#[test]
fn final_line_without_newline() {
    let mut r = Cursor::new(b"tail".to_vec());
    let (line, oversized) = read_capped_line(&mut r, 1024).unwrap().unwrap();
    assert_eq!(line, b"tail");
    assert!(!oversized);
    assert!(read_capped_line(&mut r, 1024).unwrap().is_none());
}

#[test]
fn oversized_line_is_capped_and_drained() {
    let mut data = vec![b'x'; 100];
    data.push(b'\n');
    data.extend_from_slice(b"next\n");
    let mut r = Cursor::new(data);

    let (line, oversized) = read_capped_line(&mut r, 10).unwrap().unwrap();
    assert!(oversized);
    assert!(line.len() <= 10, "buffer exceeded cap: {}", line.len());

    let (line2, oversized2) = read_capped_line(&mut r, 10).unwrap().unwrap();
    assert_eq!(line2, b"next");
    assert!(!oversized2);
}

#[test]
fn empty_input_returns_none() {
    let mut r = Cursor::new(Vec::new());
    assert!(read_capped_line(&mut r, 1024).unwrap().is_none());
}

#[test]
fn a_capped_line_keeps_exactly_the_cap() {
    let mut r = Cursor::new(b"abcdefgh\nz".to_vec());
    let (line, oversized) = read_capped_line(&mut r, 3).unwrap().unwrap();
    assert_eq!(line, b"abc");
    assert!(oversized);
    let (line, oversized) = read_capped_line(&mut r, 3).unwrap().unwrap();
    assert_eq!(line, b"z");
    assert!(!oversized);
}

#[test]
fn subscriptions_are_a_set_and_wildcard_matches_everything() {
    let mut s = AgentSession::new();
    assert!(!s.is_subscribed("state_changed"));
    let evs = vec!["state_changed".to_string(), "state_changed".to_string()];
    assert!(s.subscribe(&evs).is_ok());
    assert!(s.is_subscribed("state_changed"));
    assert!(!s.is_subscribed("render_update"));
    s.subscribe(&["*".to_string()]).unwrap();
    assert!(s.is_subscribed("render_update"));
    s.unsubscribe(&["*".to_string(), "state_changed".to_string()]);
    assert!(!s.is_subscribed("state_changed"));
}

#[test]
fn subscription_limit_is_an_error() {
    let mut s = AgentSession::new();
    let evs: Vec<String> = (0..101).map(|i| format!("e{i}")).collect();
    let r = s.subscribe(&evs);
    assert_eq!(r, Err("Subscription limit reached (max 100)".to_string()));
    assert!(s.is_subscribed("e99"));
    assert!(!s.is_subscribed("e100"));
}

#[test]
fn overlong_event_names_are_skipped() {
    let mut s = AgentSession::new();
    let long = "x".repeat(257);
    assert!(s.subscribe(&[long.clone()]).is_ok());
    assert!(!s.is_subscribed(&long));
}

#[test]
fn injected_keys_convert_case_insensitively() {
    let e = AgentSession::convert_injected_event(&InjectedEvent::Key {
        code: "Enter".to_string(),
        modifiers: vec!["CTRL".to_string(), "shift".to_string(), "bogus".to_string()],
    });
    let mods = KeyModifiers::CONTROL().union(KeyModifiers::SHIFT());
    assert_eq!(e, Some(Event::Key(KeyEvent::new(KeyCode::Enter, mods))));
    let f = AgentSession::convert_injected_event(&InjectedEvent::Key {
        code: "F5".to_string(),
        modifiers: vec![],
    });
    assert_eq!(f, Some(Event::Key(KeyEvent::new(KeyCode::F(5), KeyModifiers::NONE()))));
    let bad = AgentSession::convert_injected_event(&InjectedEvent::Key {
        code: "fx".to_string(),
        modifiers: vec![],
    });
    assert_eq!(bad, None);
    let c = AgentSession::convert_injected_event(&InjectedEvent::Key {
        code: "Q".to_string(),
        modifiers: vec![],
    });
    assert_eq!(c, Some(Event::Key(KeyEvent::new(KeyCode::Char('q'), KeyModifiers::NONE()))));
}

#[test]
fn injected_clicks_and_resizes_convert() {
    let e = AgentSession::convert_injected_event(&InjectedEvent::MouseClick {
        x: 3,
        y: 4,
        button: "Right".to_string(),
    });
    match e {
        Some(Event::Mouse(m)) => {
            assert_eq!(m.kind, MouseEventKind::Down(MouseButton::Right));
            assert_eq!((m.column, m.row), (3, 4));
        }
        other => panic!("unexpected {other:?}"),
    }
    let unknown = AgentSession::convert_injected_event(&InjectedEvent::MouseClick {
        x: 0,
        y: 0,
        button: "thumb".to_string(),
    });
    match unknown {
        Some(Event::Mouse(m)) => assert_eq!(m.kind, MouseEventKind::Down(MouseButton::Left)),
        other => panic!("unexpected {other:?}"),
    }
    let r = AgentSession::convert_injected_event(&InjectedEvent::Resize { width: 0, height: 5000 });
    assert_eq!(r, Some(Event::Resize(1, 1024)));
    let p = AgentSession::convert_injected_event(&InjectedEvent::Paste { text: "hi".to_string() });
    assert_eq!(p, Some(Event::Paste("hi".to_string())));
}

#[test]
fn event_streams_follow_the_subscriptions() {
    let mut session = hawktui::agent::session::AgentSession::new();
    assert!(!session.wants_state_changes());
    session.subscribe(&["state_changed".to_string()]).unwrap();
    assert!(session.wants_state_changes());
    assert!(!session.wants_render_updates());
    session.subscribe(&["*".to_string(), "state_changed".to_string()]).unwrap();
    assert!(session.wants_render_updates());
    assert_eq!(session.subscriptions().len(), 2);
}

#[test]
fn a_session_holds_each_name_once_and_at_most_a_hundred() {
    let mut session = AgentSession::new();
    let names: Vec<String> = (0..101).map(|i| format!("e{i}")).collect();
    assert!(session.subscribe(&names).is_err());
    assert_eq!(session.subscriptions().len(), 100);
    session.unsubscribe(&["e0".to_string(), "e0".to_string()]);
    session.subscribe(&["e1".to_string(), "e1".to_string()]).unwrap();
    assert_eq!(session.subscriptions().len(), 99);
}
