//! Event system with keyboard, mouse, and resize events.
//!
//! Provides a unified event type for the runtime, with full mouse support
//! including click, drag, scroll, and hover tracking.
use vstd::prelude::*;
use vstd::std_specs::ops::BitOrSpecImpl;
use crate::base::rect::{Position, Rect, sat_sub};

verus! {

/// A terminal event.
#[derive(Debug, Clone, PartialEq, Eq)]
pub enum Event {
    /// Keyboard event.
    Key(KeyEvent),
    /// Mouse event.
    Mouse(MouseEvent),
    /// Terminal was resized to (columns, rows).
    Resize(u16, u16),
    /// Terminal gained focus.
    FocusGained,
    /// Terminal lost focus.
    FocusLost,
    /// Text was pasted (bracketed paste mode).
    Paste(String),
    /// A scheduled tick from the runtime (for animations).
    Tick,
}

/// A keyboard event.
#[derive(Debug, Clone, PartialEq, Eq, Hash, Structural)]
pub struct KeyEvent {
    pub code: KeyCode,
    pub modifiers: KeyModifiers,
    pub kind: KeyEventKind,
}

/// The kind of key event.
#[derive(Debug, Clone, Copy, PartialEq, Eq, Hash, Structural)]
pub enum KeyEventKind {
    Press,
    Release,
    Repeat,
}

/// Key code.
#[derive(Debug, Clone, Copy, PartialEq, Eq, Hash, Structural)]
pub enum KeyCode {
    Char(char),
    F(u8),
    Backspace,
    Enter,
    Tab,
    BackTab,
    Esc,
    Left,
    Right,
    Up,
    Down,
    Home,
    End,
    PageUp,
    PageDown,
    Insert,
    Delete,
    Null,
}

/// Key modifier flags, one bit each.
#[derive(Debug, Clone, Copy, PartialEq, Eq, Hash, Default, Structural)]
pub struct KeyModifiers(u8);

impl KeyModifiers {
    /// The flag bits.
    pub closed spec fn bits(self) -> u8 {
        self.0
    }

    /// Modifiers with exactly the given bits.
    pub closed spec fn of(bits: u8) -> KeyModifiers {
        KeyModifiers(bits)
    }

    /// Modifiers are determined by their bits.
    pub proof fn lemma_of_bits(m: KeyModifiers)
        ensures
            KeyModifiers::of(m.bits()) == m,
    {
    }

    /// Modifiers with exactly the given bits.
    pub(crate) fn from_bits(bits: u8) -> (r: Self)
        ensures
            r.bits() == bits,
    {
        KeyModifiers(bits)
    }

    /// No modifier.
    #[allow(non_snake_case)]
    pub fn NONE() -> (r: Self)
        ensures
            r.bits() == 0,
    {
        KeyModifiers(0)
    }

    /// The Shift key.
    #[allow(non_snake_case)]
    pub fn SHIFT() -> (r: Self)
        ensures
            r.bits() == 1,
    {
        KeyModifiers(1)
    }

    /// The Control key.
    #[allow(non_snake_case)]
    pub fn CONTROL() -> (r: Self)
        ensures
            r.bits() == 2,
    {
        KeyModifiers(2)
    }

    /// The Alt key.
    #[allow(non_snake_case)]
    pub fn ALT() -> (r: Self)
        ensures
            r.bits() == 4,
    {
        KeyModifiers(4)
    }

    /// The Super key.
    #[allow(non_snake_case)]
    pub fn SUPER() -> (r: Self)
        ensures
            r.bits() == 8,
    {
        KeyModifiers(8)
    }

    /// The Hyper key.
    #[allow(non_snake_case)]
    pub fn HYPER() -> (r: Self)
        ensures
            r.bits() == 16,
    {
        KeyModifiers(16)
    }

    /// The Meta key.
    #[allow(non_snake_case)]
    pub fn META() -> (r: Self)
        ensures
            r.bits() == 32,
    {
        KeyModifiers(32)
    }

    /// No modifier.
    pub fn empty() -> (r: Self)
        ensures
            r.bits() == 0,
    {
        KeyModifiers(0)
    }

    /// Whether every flag of `other` is set here.
    pub fn contains(self, other: Self) -> (r: bool)
        ensures
            r == (self.bits() & other.bits() == other.bits()),
    {
        self.0 & other.0 == other.0
    }

    /// Whether no flag is set.
    pub fn is_empty(self) -> (r: bool)
        ensures
            r == (self.bits() == 0),
    {
        self.0 == 0
    }

    /// The flags set in either.
    pub fn union(self, other: Self) -> (r: Self)
        ensures
            r.bits() == self.bits() | other.bits(),
    {
        KeyModifiers(self.0 | other.0)
    }
}

impl std::ops::BitOr for KeyModifiers {
    type Output = Self;

    fn bitor(self, rhs: Self) -> (r: Self) {
        KeyModifiers(self.0 | rhs.0)
    }
}

impl BitOrSpecImpl for KeyModifiers {
    open spec fn obeys_bitor_spec() -> bool {
        true
    }

    open spec fn bitor_req(self, rhs: KeyModifiers) -> bool {
        true
    }

    open spec fn bitor_spec(self, rhs: KeyModifiers) -> KeyModifiers {
        KeyModifiers::of(self.bits() | rhs.bits())
    }
}

impl KeyEvent {
    /// A key press.
    pub fn new(code: KeyCode, modifiers: KeyModifiers) -> (r: Self)
        ensures
            r == (KeyEvent { code, modifiers, kind: KeyEventKind::Press }),
    {
        KeyEvent { code, modifiers, kind: KeyEventKind::Press }
    }

    /// Whether this is `code` with Control held (other modifiers allowed).
    pub fn is_ctrl(&self, code: KeyCode) -> (r: bool)
        ensures
            r == (self.code == code && self.modifiers.bits() & 2 == 2),
    {
        self.code == code && self.modifiers.contains(KeyModifiers::CONTROL())
    }

    /// Whether this is `code` with no modifiers.
    pub fn is_key(&self, code: KeyCode) -> (r: bool)
        ensures
            r == (self.code == code && self.modifiers.bits() == 0),
    {
        self.code == code && self.modifiers.is_empty()
    }
}

/// A mouse event.
#[derive(Debug, Clone, Copy, PartialEq, Eq, Hash, Structural)]
pub struct MouseEvent {
    pub kind: MouseEventKind,
    pub column: u16,
    pub row: u16,
    pub modifiers: KeyModifiers,
}

/// The kind of mouse event.
#[derive(Debug, Clone, Copy, PartialEq, Eq, Hash, Structural)]
pub enum MouseEventKind {
    Down(MouseButton),
    Up(MouseButton),
    Drag(MouseButton),
    Moved,
    ScrollUp,
    ScrollDown,
    ScrollLeft,
    ScrollRight,
}

/// Mouse button.
#[derive(Debug, Clone, Copy, PartialEq, Eq, Hash, Structural)]
pub enum MouseButton {
    Left,
    Right,
    Middle,
    /// No button (the name `None` is taken by the prelude).
    NoButton,
}

impl MouseEvent {
    /// Whether this is a click (button down) event.
    pub fn is_click(&self) -> (r: bool)
        ensures
            r == (self.kind is Down),
    {
        match self.kind {
            MouseEventKind::Down(_) => true,
            _ => false,
        }
    }

    /// Whether this is a drag event.
    pub fn is_drag(&self) -> (r: bool)
        ensures
            r == (self.kind is Drag),
    {
        match self.kind {
            MouseEventKind::Drag(_) => true,
            _ => false,
        }
    }

    /// Whether this is a vertical scroll event.
    pub fn is_scroll(&self) -> (r: bool)
        ensures
            r == (self.kind is ScrollUp || self.kind is ScrollDown),
    {
        match self.kind {
            MouseEventKind::ScrollUp | MouseEventKind::ScrollDown => true,
            _ => false,
        }
    }

    /// Whether this is a click inside `area`.
    pub fn clicked_in(&self, area: Rect) -> (r: bool)
        ensures
            r == (self.kind is Down && area.spec_contains(self.column as int, self.row as int)),
    {
        self.is_click() && area.contains(Position::new(self.column, self.row))
    }
}

/// Hit-test result: which widget (by agent id) was targeted, and where
/// within it.
#[derive(Debug, Clone)]
pub struct HitTestResult {
    pub agent_id: String,
    pub local_position: Position,
}

/// A registered clickable region.
#[derive(Debug)]
struct HitRegion {
    agent_id: String,
    area: Rect,
    z_index: u16,
}

/// Manages hit-testing for clickable regions.
///
/// Widgets register their clickable areas during rendering, and the event
/// system resolves mouse positions to specific widget instances.
#[derive(Debug)]
pub struct HitMap {
    regions: Vec<HitRegion>,
}

/// The region that a hit at `(x, y)` resolves to among the first `n`:
/// among those containing the point, the one with the highest z-index, the
/// later one winning a tie.
pub open spec fn hit_among(regions: Seq<(Seq<char>, Rect, u16)>, x: int, y: int, n: int) -> Option<int>
    decreases n,
{
    if n <= 0 {
        None
    } else {
        let best = hit_among(regions, x, y, n - 1);
        let r = regions[n - 1];
        if r.1.spec_contains(x, y) && match best {
            Some(b) => r.2 >= regions[b].2,
            None => true,
        } {
            Some(n - 1)
        } else {
            best
        }
    }
}

impl HitMap {
    /// The registered regions, in registration order: agent id, area and
    /// z-index.
    pub closed spec fn regions(&self) -> Seq<(Seq<char>, Rect, u16)> {
        self.regions@.map_values(|r: HitRegion| (r.agent_id@, r.area, r.z_index))
    }

    /// An empty hit map.
    pub fn new() -> (r: Self)
        ensures
            r.regions() == Seq::<(Seq<char>, Rect, u16)>::empty(),
    {
        let r = HitMap { regions: Vec::new() };
        assert(r.regions() =~= Seq::<(Seq<char>, Rect, u16)>::empty());
        r
    }

    /// Clear all registered regions (called before each frame).
    pub fn clear(&mut self)
        ensures
            final(self).regions() == Seq::<(Seq<char>, Rect, u16)>::empty(),
    {
        self.regions.clear();
        assert(self.regions() =~= Seq::<(Seq<char>, Rect, u16)>::empty());
    }

    /// Register a clickable region.
    pub fn register(&mut self, agent_id: String, area: Rect, z_index: u16)
        ensures
            final(self).regions() == old(self).regions().push((agent_id@, area, z_index)),
    {
        let ghost before = self.regions@;
        self.regions.push(HitRegion { agent_id, area, z_index });
        assert(self.regions() =~= before.map_values(
            |r: HitRegion| (r.agent_id@, r.area, r.z_index),
        ).push((agent_id@, area, z_index)));
    }

    /// Resolve a position to the topmost region that contains it, with the
    /// position relative to that region.
    pub fn hit_test(&self, x: u16, y: u16) -> (r: Option<HitTestResult>)
        ensures
            match hit_among(self.regions(), x as int, y as int, self.regions().len() as int) {
                Some(i) => r is Some && r->0.agent_id@ == self.regions()[i].0 && r->0.local_position
                    == (Position {
                    x: sat_sub(x as int, self.regions()[i].1.x as int) as u16,
                    y: sat_sub(y as int, self.regions()[i].1.y as int) as u16,
                }),
                None => r is None,
            },
    {
        let pos = Position::new(x, y);
        let mut best: Option<usize> = None;
        let mut i: usize = 0;
        while i < self.regions.len()
            invariant
                i <= self.regions@.len(),
                self.regions().len() == self.regions@.len(),
                match best {
                    Some(b) => hit_among(self.regions(), x as int, y as int, i as int) == Some(b as int),
                    None => hit_among(self.regions(), x as int, y as int, i as int) is None,
                },
                best matches Some(b) ==> b < i,
                pos == (Position { x, y }),
            decreases self.regions@.len() - i,
        {
            let r = &self.regions[i];
            proof {
                assert(self.regions()[i as int] == (r.agent_id@, r.area, r.z_index));
            }
            if r.area.contains(pos) {
                let better = match best {
                    Some(b) => {
                        proof {
                            assert(self.regions()[b as int] == (
                                self.regions@[b as int].agent_id@,
                                self.regions@[b as int].area,
                                self.regions@[b as int].z_index,
                            ));
                        }
                        r.z_index >= self.regions[b].z_index
                    },
                    None => true,
                };
                if better {
                    best = Some(i);
                }
            }
            i = i + 1;
        }
        match best {
            Some(b) => {
                let r = &self.regions[b];
                proof {
                    assert(self.regions()[b as int] == (r.agent_id@, r.area, r.z_index));
                }
                Some(
                    HitTestResult {
                        agent_id: r.agent_id.clone(),
                        local_position: Position::new(x.saturating_sub(r.area.x), y.saturating_sub(r.area.y)),
                    },
                )
            },
            None => None,
        }
    }
}

impl Default for HitMap {
    fn default() -> (r: HitMap)
        ensures
            r.regions() == Seq::<(Seq<char>, Rect, u16)>::empty(),
    {
        HitMap::new()
    }
}

} // verus!
