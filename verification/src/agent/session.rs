//! Agent session: event subscriptions and the conversion of injected events.
use vstd::prelude::*;
use crate::agent::protocol::InjectedEvent;
use crate::base::chars::{lowercase, parse_u8, parsed_u8, str_eq, str_to_chars, to_lowercase};
use crate::event::{Event, KeyCode, KeyEvent, KeyEventKind, KeyModifiers, MouseButton, MouseEvent, MouseEventKind};

verus! {

/// The most event subscriptions one agent session holds.
pub const MAX_SUBSCRIPTIONS: usize = 100;

/// The largest terminal dimension an injected resize may ask for.
pub const MAX_TERMINAL_DIM: u16 = 1024;

/// The longest event-type name (in bytes) a subscription accepts.
pub const MAX_EVENT_NAME: usize = 256;

/// Manages an agent's connection to an application: the event types it has
/// subscribed to.
#[derive(Debug)]
pub struct AgentSession {
    /// Event types this agent has subscribed to, each once, in the order
    /// they were added.
    subscriptions: Vec<String>,
}

/// The subscriptions after handling the first `n` subscribe requests, and
/// whether the limit stopped them: each request is refused once the limit is
/// reached, a name longer than the cap is skipped, and a name already held
/// is not added twice.
pub open spec fn subscribe_upto(subs: Seq<Seq<char>>, events: Seq<String>, n: int) -> (Seq<Seq<char>>, bool)
    decreases n,
{
    if n <= 0 {
        (subs, false)
    } else {
        let (s, stopped) = subscribe_upto(subs, events, n - 1);
        let ev = events[n - 1]@;
        if stopped {
            (s, true)
        } else if s.len() >= MAX_SUBSCRIPTIONS {
            (s, true)
        } else if (vstd::utf8::encode_utf8(ev).len() as usize) > MAX_EVENT_NAME {
            (s, false)
        } else if s.contains(ev) {
            (s, false)
        } else {
            (s.push(ev), false)
        }
    }
}

/// The subscriptions left after removing every name among the first `n`.
pub open spec fn unsubscribe_upto(subs: Seq<Seq<char>>, events: Seq<String>, n: int) -> Seq<Seq<char>>
    decreases n,
{
    if n <= 0 {
        subs
    } else {
        drop_name(unsubscribe_upto(subs, events, n - 1), events[n - 1]@)
    }
}

/// The names of `s` other than `name`, in order.
pub open spec fn drop_name(s: Seq<Seq<char>>, name: Seq<char>) -> Seq<Seq<char>>
    decreases s.len(),
{
    if s.len() == 0 {
        s
    } else {
        let rest = drop_name(s.drop_last(), name);
        if s.last() == name {
            rest
        } else {
            rest.push(s.last())
        }
    }
}

/// The key a lowercase key name stands for.
pub open spec fn key_code_of(l: Seq<char>) -> Option<KeyCode> {
    if l == "enter"@ || l == "return"@ {
        Some(KeyCode::Enter)
    } else if l == "backspace"@ {
        Some(KeyCode::Backspace)
    } else if l == "tab"@ {
        Some(KeyCode::Tab)
    } else if l == "backtab"@ {
        Some(KeyCode::BackTab)
    } else if l == "esc"@ || l == "escape"@ {
        Some(KeyCode::Esc)
    } else if l == "left"@ {
        Some(KeyCode::Left)
    } else if l == "right"@ {
        Some(KeyCode::Right)
    } else if l == "up"@ {
        Some(KeyCode::Up)
    } else if l == "down"@ {
        Some(KeyCode::Down)
    } else if l == "home"@ {
        Some(KeyCode::Home)
    } else if l == "end"@ {
        Some(KeyCode::End)
    } else if l == "pageup"@ {
        Some(KeyCode::PageUp)
    } else if l == "pagedown"@ {
        Some(KeyCode::PageDown)
    } else if l == "insert"@ {
        Some(KeyCode::Insert)
    } else if l == "delete"@ {
        Some(KeyCode::Delete)
    } else if l == "space"@ {
        Some(KeyCode::Char(' '))
    } else if l.len() > 1 && l[0] == 'f' {
        match parsed_u8(l.drop_first()) {
            Some(n) => Some(KeyCode::F(n)),
            None => None,
        }
    } else if l.len() == 1 {
        Some(KeyCode::Char(l[0]))
    } else {
        None
    }
}

/// The modifier bit a lowercase modifier name stands for (none for an
/// unknown name).
pub open spec fn modifier_bit(l: Seq<char>) -> u8 {
    if l == "shift"@ {
        1
    } else if l == "ctrl"@ || l == "control"@ {
        2
    } else if l == "alt"@ {
        4
    } else if l == "super"@ {
        8
    } else {
        0
    }
}

/// The modifier bits named by the first `n` modifier names.
pub open spec fn modifier_bits(names: Seq<String>, n: int) -> u8
    decreases n,
{
    if n <= 0 {
        0
    } else {
        modifier_bits(names, n - 1) | modifier_bit(lowercase(names[n - 1]@))
    }
}

/// The mouse button a lowercase button name stands for (left when unknown).
pub open spec fn button_of(l: Seq<char>) -> MouseButton {
    if l == "right"@ {
        MouseButton::Right
    } else if l == "middle"@ {
        MouseButton::Middle
    } else {
        MouseButton::Left
    }
}

/// A dimension clamped to `1..=MAX_TERMINAL_DIM`.
pub open spec fn clamp_dim(d: u16) -> u16 {
    if d < 1 {
        1
    } else if d > MAX_TERMINAL_DIM {
        MAX_TERMINAL_DIM
    } else {
        d
    }
}

/// The event an injected event becomes, if any.
pub open spec fn converted(e: InjectedEvent) -> Option<Event> {
    match e {
        InjectedEvent::Key { code, modifiers } => match key_code_of(lowercase(code@)) {
            Some(k) => Some(
                Event::Key(
                    KeyEvent {
                        code: k,
                        modifiers: KeyModifiers::of(modifier_bits(modifiers@, modifiers@.len() as int)),
                        kind: KeyEventKind::Press,
                    },
                ),
            ),
            None => None,
        },
        InjectedEvent::MouseClick { x, y, button } => Some(
            Event::Mouse(
                MouseEvent {
                    kind: MouseEventKind::Down(button_of(lowercase(button@))),
                    column: x,
                    row: y,
                    modifiers: KeyModifiers::of(0),
                },
            ),
        ),
        InjectedEvent::Paste { text } => Some(Event::Paste(text)),
        InjectedEvent::Resize { width, height } => Some(Event::Resize(clamp_dim(width), clamp_dim(height))),
    }
}

/// The names a list of strings holds.
pub open spec fn names_of(v: Seq<String>) -> Seq<Seq<char>> {
    v.map_values(|s: String| s@)
}

/// Whether `name` is among `subs`.
fn list_holds(subs: &Vec<String>, name: &str) -> (r: bool)
    ensures
        r == names_of(subs@).contains(name@),
{
    let mut i: usize = 0;
    while i < subs.len()
        invariant
            i <= subs@.len(),
            forall|k: int| 0 <= k < i ==> names_of(subs@)[k] != name@,
        decreases subs@.len() - i,
    {
        proof {
            assert(names_of(subs@)[i as int] == subs@[i as int]@);
        }
        if str_eq(subs[i].as_str(), name) {
            assert(names_of(subs@)[i as int] == name@);
            return true;
        }
        i = i + 1;
    }
    false
}

/// Dropping a name keeps a list free of repeats and no longer, and leaves
/// only names the list held.
pub proof fn lemma_drop_name_distinct(s: Seq<Seq<char>>, name: Seq<char>)
    requires
        s.no_duplicates(),
    ensures
        drop_name(s, name).no_duplicates(),
        drop_name(s, name).len() <= s.len(),
        forall|x: Seq<char>| drop_name(s, name).contains(x) ==> s.contains(x) && x != name,
    decreases s.len(),
{
    if s.len() > 0 {
        let init = s.drop_last();
        assert(init.no_duplicates()) by {
            assert forall|a: int, b: int| 0 <= a < b < init.len() implies init[a] != init[b] by {
                assert(init[a] == s[a] && init[b] == s[b]);
            }
        }
        lemma_drop_name_distinct(init, name);
        let rest = drop_name(init, name);
        if s.last() != name {
            assert(!rest.contains(s.last())) by {
                if rest.contains(s.last()) {
                    assert(init.contains(s.last()));
                    let k = choose|k: int| 0 <= k < init.len() && init[k] == s.last();
                    assert(s[k] == init[k]);
                    assert(s[k] == s[s.len() - 1]);
                    assert(false);
                }
            }
            assert forall|x: Seq<char>| rest.push(s.last()).contains(x) implies s.contains(x) && x != name by {
                if x != s.last() {
                    let k = choose|k: int| 0 <= k < rest.push(s.last()).len() && rest.push(s.last())[k] == x;
                    assert(k < rest.len());
                    assert(rest[k] == x);
                    assert(rest.contains(x));
                    assert(init.contains(x));
                    let m = choose|m: int| 0 <= m < init.len() && init[m] == x;
                    assert(s[m] == init[m]);
                    assert(s.contains(x));
                } else {
                    assert(s[s.len() - 1] == x);
                }
            }
        } else {
            assert forall|x: Seq<char>| rest.contains(x) implies s.contains(x) && x != name by {
                assert(init.contains(x));
                let m = choose|m: int| 0 <= m < init.len() && init[m] == x;
                assert(s[m] == init[m]);
            }
        }
    }
}

impl AgentSession {
    /// Each event type is held at most once, and the session holds at most
    /// `MAX_SUBSCRIPTIONS` of them.
    #[verifier::type_invariant]
    spec fn well_formed(self) -> bool {
        &&& names_of(self.subscriptions@).no_duplicates()
        &&& self.subscriptions@.len() <= MAX_SUBSCRIPTIONS
    }

    /// The subscribed event types, in the order they were added.
    pub closed spec fn subscribed(&self) -> Seq<Seq<char>> {
        names_of(self.subscriptions@)
    }

    /// A session with no subscriptions.
    pub fn new() -> (r: Self)
        ensures
            r.subscribed() == Seq::<Seq<char>>::empty(),
    {
        let r = AgentSession { subscriptions: Vec::new() };
        assert(r.subscribed() =~= Seq::<Seq<char>>::empty());
        r
    }

    /// The subscribed event types, in the order they were added.
    pub fn subscriptions(&self) -> (r: &[String])
        ensures
            r@.len() == self.subscribed().len(),
            forall|i: int| 0 <= i < r@.len() ==> (#[trigger] r@[i])@ == self.subscribed()[i],
            self.subscribed().no_duplicates(),
            self.subscribed().len() <= MAX_SUBSCRIPTIONS,
    {
        proof {
            use_type_invariant(self);
        }
        self.subscriptions.as_slice()
    }

    /// Whether the agent is subscribed to `event_type`, directly or through
    /// the wildcard `*`.
    pub fn is_subscribed(&self, event_type: &str) -> (r: bool)
        ensures
            r == (self.subscribed().contains(event_type@) || self.subscribed().contains("*"@)),
    {
        list_holds(&self.subscriptions, event_type) || list_holds(&self.subscriptions, "*")
    }

    /// Whether state-change events go to this agent: it subscribed to
    /// `state_changed` or to everything.
    pub fn wants_state_changes(&self) -> (r: bool)
        ensures
            r == (self.subscribed().contains("state_changed"@) || self.subscribed().contains("*"@)),
    {
        self.is_subscribed("state_changed")
    }

    /// Whether re-rendered trees go to this agent: it subscribed to
    /// `render_update` or to everything.
    pub fn wants_render_updates(&self) -> (r: bool)
        ensures
            r == (self.subscribed().contains("render_update"@) || self.subscribed().contains("*"@)),
    {
        self.is_subscribed("render_update")
    }

    /// Subscribe to event types, in order. A name longer than the cap is
    /// skipped, and a name already subscribed is kept once. Once the
    /// session holds the most subscriptions it may, the next request is
    /// refused with an error (those before it stay subscribed).
    pub fn subscribe(&mut self, events: &[String]) -> (r: Result<(), String>)
        ensures
            final(self).subscribed() == subscribe_upto(old(self).subscribed(), events@, events@.len() as int).0,
            r is Err == subscribe_upto(old(self).subscribed(), events@, events@.len() as int).1,
            r matches Err(m) ==> m@ == "Subscription limit reached (max 100)"@,
            final(self).subscribed().no_duplicates(),
            final(self).subscribed().len() <= MAX_SUBSCRIPTIONS,
    {
        proof {
            use_type_invariant(&*self);
        }
        let ghost start = self.subscribed();
        let mut subs: Vec<String> = Vec::new();
        std::mem::swap(&mut subs, &mut self.subscriptions);
        let mut i: usize = 0;
        while i < events.len()
            invariant
                i <= events@.len(),
                start == old(self).subscribed(),
                subscribe_upto(start, events@, i as int) == (names_of(subs@), false),
                names_of(subs@).no_duplicates(),
                subs@.len() <= MAX_SUBSCRIPTIONS,
            decreases events@.len() - i,
        {
            let ev = &events[i];
            if subs.len() >= MAX_SUBSCRIPTIONS {
                proof {
                    assert(subscribe_upto(start, events@, i + 1) == (names_of(subs@), true));
                    lemma_subscribe_stays_stopped(start, events@, i + 1, events@.len() as int);
                }
                self.subscriptions = subs;
                let msg = "Subscription limit reached (max 100)".to_owned();
                return Err(msg);
            }
            if ev.as_str().len() <= MAX_EVENT_NAME {
                if !list_holds(&subs, ev.as_str()) {
                    let ghost before = subs@;
                    subs.push(ev.clone());
                    proof {
                        assert(names_of(subs@) =~= names_of(before).push(ev@));
                        assert forall|a: int, b: int| 0 <= a < b < names_of(subs@).len() implies names_of(subs@)[a]
                            != names_of(subs@)[b] by {
                            if b == names_of(subs@).len() - 1 {
                                assert(names_of(before)[a] == names_of(subs@)[a]);
                            } else {
                                assert(names_of(before)[a] == names_of(subs@)[a]);
                                assert(names_of(before)[b] == names_of(subs@)[b]);
                            }
                        }
                    }
                }
            }
            proof {
                let (s0, st0) = subscribe_upto(start, events@, i as int);
                assert(!st0);
            }
            i = i + 1;
        }
        self.subscriptions = subs;
        Ok(())
    }

    /// Unsubscribe from event types (names not subscribed are ignored).
    pub fn unsubscribe(&mut self, events: &[String])
        ensures
            final(self).subscribed() == unsubscribe_upto(old(self).subscribed(), events@, events@.len() as int),
            final(self).subscribed().no_duplicates(),
            final(self).subscribed().len() <= MAX_SUBSCRIPTIONS,
    {
        proof {
            use_type_invariant(&*self);
        }
        let ghost start = self.subscribed();
        let mut subs: Vec<String> = Vec::new();
        std::mem::swap(&mut subs, &mut self.subscriptions);
        let mut i: usize = 0;
        while i < events.len()
            invariant
                i <= events@.len(),
                names_of(subs@) == unsubscribe_upto(start, events@, i as int),
                names_of(subs@).no_duplicates(),
                subs@.len() <= MAX_SUBSCRIPTIONS,
            decreases events@.len() - i,
        {
            let ghost before = names_of(subs@);
            let mut kept: Vec<String> = Vec::new();
            let mut j: usize = 0;
            while j < subs.len()
                invariant
                    j <= subs@.len(),
                    i < events@.len(),
                    before == names_of(subs@),
                    names_of(kept@) == drop_name(before.take(j as int), events@[i as int]@),
                decreases subs@.len() - j,
            {
                let s = &subs[j];
                proof {
                    assert(before[j as int] == s@);
                    assert(before.take(j + 1).drop_last() =~= before.take(j as int));
                    assert(before.take(j + 1).last() == s@);
                }
                if !str_eq(s.as_str(), events[i].as_str()) {
                    let ghost prev = kept@;
                    kept.push(s.clone());
                    assert(names_of(kept@) =~= names_of(prev).push(s@));
                }
                j = j + 1;
            }
            proof {
                assert(before.take(j as int) =~= before);
                lemma_drop_name_distinct(before, events@[i as int]@);
                assert(kept@.len() == names_of(kept@).len());
            }
            subs = kept;
            i = i + 1;
        }
        self.subscriptions = subs;
    }

    /// Convert an injected event into an application event.
    pub fn convert_injected_event(injected: &InjectedEvent) -> (r: Option<Event>)
        ensures
            r == converted(*injected),
    {
        match injected {
            InjectedEvent::Key { code, modifiers } => {
                let parsed = parse_key_code(code.as_str());
                if parsed.is_none() {
                    assert(converted(*injected) is None);
                    return None;
                }
                let key_code = parsed.unwrap();
                let mut bits: u8 = 0;
                let mut i: usize = 0;
                while i < modifiers.len()
                    invariant
                        i <= modifiers@.len(),
                        bits == modifier_bits(modifiers@, i as int),
                    decreases modifiers@.len() - i,
                {
                    let m = to_lowercase(modifiers[i].as_str());
                    let bit: u8 = if str_eq(m.as_str(), "shift") {
                        1
                    } else if str_eq(m.as_str(), "ctrl") || str_eq(m.as_str(), "control") {
                        2
                    } else if str_eq(m.as_str(), "alt") {
                        4
                    } else if str_eq(m.as_str(), "super") {
                        8
                    } else {
                        0
                    };
                    bits = bits | bit;
                    i = i + 1;
                }
                let mods = KeyModifiers::NONE().union(KeyModifiers::from_bits(bits));
                proof {
                    assert(0u8 | bits == bits) by (bit_vector);
                    KeyModifiers::lemma_of_bits(mods);
                    assert(bits == modifier_bits(modifiers@, modifiers@.len() as int));
                    assert(mods == KeyModifiers::of(bits));
                }
                let ev = KeyEvent::new(key_code, mods);
                Some(Event::Key(ev))
            },
            InjectedEvent::MouseClick { x, y, button } => {
                let b = to_lowercase(button.as_str());
                proof {
                    reveal_strlit("left");
                    reveal_strlit("right");
                    reveal_strlit("middle");
                    assert("left"@.len() == 4);
                    assert("right"@.len() == 5);
                    assert("middle"@.len() == 6);
                    assert("left"@ != "right"@);
                    assert("left"@ != "middle"@);
                }
                let btn = if str_eq(b.as_str(), "left") {
                    MouseButton::Left
                } else if str_eq(b.as_str(), "right") {
                    MouseButton::Right
                } else if str_eq(b.as_str(), "middle") {
                    MouseButton::Middle
                } else {
                    MouseButton::Left
                };
                let none = KeyModifiers::NONE();
                proof {
                    KeyModifiers::lemma_of_bits(none);
                }
                Some(
                    Event::Mouse(
                        MouseEvent {
                            kind: MouseEventKind::Down(btn),
                            column: *x,
                            row: *y,
                            modifiers: none,
                        },
                    ),
                )
            },
            InjectedEvent::Paste { text } => {
                let t = text.clone();
                Some(Event::Paste(t))
            },
            InjectedEvent::Resize { width, height } => {
                let w = if *width < 1 {
                    1
                } else if *width > MAX_TERMINAL_DIM {
                    MAX_TERMINAL_DIM
                } else {
                    *width
                };
                let h = if *height < 1 {
                    1
                } else if *height > MAX_TERMINAL_DIM {
                    MAX_TERMINAL_DIM
                } else {
                    *height
                };
                Some(Event::Resize(w, h))
            },
        }
    }
}

impl Default for AgentSession {
    fn default() -> (r: AgentSession)
        ensures
            r.subscribed() == Seq::<Seq<char>>::empty(),
    {
        AgentSession::new()
    }
}

/// Once the limit stops a subscription request, the later ones are refused
/// too and nothing more changes.
pub proof fn lemma_subscribe_stays_stopped(subs: Seq<Seq<char>>, events: Seq<String>, n: int, m: int)
    requires
        0 <= n <= m,
        subscribe_upto(subs, events, n).1,
    ensures
        subscribe_upto(subs, events, m) == subscribe_upto(subs, events, n),
    decreases m - n,
{
    if m > n {
        lemma_subscribe_stays_stopped(subs, events, n, m - 1);
    }
}

/// Parse a key name (case-insensitively) into a key code.
fn parse_key_code(s: &str) -> (r: Option<KeyCode>)
    ensures
        r == key_code_of(lowercase(s@)),
{
    let lower = to_lowercase(s);
    let l = lower.as_str();
    if str_eq(l, "enter") || str_eq(l, "return") {
        Some(KeyCode::Enter)
    } else if str_eq(l, "backspace") {
        Some(KeyCode::Backspace)
    } else if str_eq(l, "tab") {
        Some(KeyCode::Tab)
    } else if str_eq(l, "backtab") {
        Some(KeyCode::BackTab)
    } else if str_eq(l, "esc") || str_eq(l, "escape") {
        Some(KeyCode::Esc)
    } else if str_eq(l, "left") {
        Some(KeyCode::Left)
    } else if str_eq(l, "right") {
        Some(KeyCode::Right)
    } else if str_eq(l, "up") {
        Some(KeyCode::Up)
    } else if str_eq(l, "down") {
        Some(KeyCode::Down)
    } else if str_eq(l, "home") {
        Some(KeyCode::Home)
    } else if str_eq(l, "end") {
        Some(KeyCode::End)
    } else if str_eq(l, "pageup") {
        Some(KeyCode::PageUp)
    } else if str_eq(l, "pagedown") {
        Some(KeyCode::PageDown)
    } else if str_eq(l, "insert") {
        Some(KeyCode::Insert)
    } else if str_eq(l, "delete") {
        Some(KeyCode::Delete)
    } else if str_eq(l, "space") {
        Some(KeyCode::Char(' '))
    } else {
        let cs = str_to_chars(l);
        if cs.len() > 1 && cs[0] == 'f' {
            let rest = crate::base::chars::chars_to_string(cs.as_slice().split_at(1).1);
            proof {
                assert(cs@.skip(1) =~= cs@.drop_first());
            }
            match parse_u8(rest.as_str()) {
                Some(n) => Some(KeyCode::F(n)),
                None => None,
            }
        } else if cs.len() == 1 {
            Some(KeyCode::Char(cs[0]))
        } else {
            None
        }
    }
}

} // verus!
