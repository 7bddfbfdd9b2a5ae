//! Focus management: a focus ring for ordered keyboard navigation between
//! widgets, and programmatic focus control for agents.
use vstd::prelude::*;
use crate::base::chars::str_eq;

verus! {

/// Manages keyboard focus across a set of focusable widgets.
///
/// Widgets register themselves by agent id. The focus ring keeps them in
/// registration order for Tab / Shift+Tab navigation. Agents can also focus
/// any widget directly by id.
#[derive(Debug, Clone)]
pub struct FocusManager {
    /// Ordered list of focusable widget ids.
    ring: Vec<String>,
    /// Index of the currently focused widget (`None` = nothing focused).
    focused: Option<usize>,
}

/// The focus after Tab on a ring of `len` widgets: the next one, wrapping
/// around, or the first when nothing was focused.
pub open spec fn next_focus(len: nat, f: Option<nat>) -> Option<nat> {
    if len == 0 {
        f
    } else {
        match f {
            Some(i) => if i + 1 < len {
                Some((i + 1) as nat)
            } else {
                Some(0)
            },
            None => Some(0),
        }
    }
}

/// The focus after Shift+Tab on a ring of `len` widgets: the previous one,
/// wrapping around, or the last when nothing was focused.
pub open spec fn previous_focus(len: nat, f: Option<nat>) -> Option<nat> {
    if len == 0 {
        f
    } else {
        match f {
            Some(i) => if i == 0 {
                Some((len - 1) as nat)
            } else {
                Some((i - 1) as nat)
            },
            None => Some((len - 1) as nat),
        }
    }
}

/// The first index holding `id`, if any.
pub open spec fn first_index(ids: Seq<Seq<char>>, id: Seq<char>, n: int) -> Option<nat>
    decreases n,
{
    if n <= 0 {
        None
    } else {
        match first_index(ids, id, n - 1) {
            Some(i) => Some(i),
            None => if ids[n - 1] == id {
                Some((n - 1) as nat)
            } else {
                None
            },
        }
    }
}

impl FocusManager {
    /// The registered ids, in tab order.
    pub closed spec fn ring_ids(self) -> Seq<Seq<char>> {
        self.ring@.map_values(|s: String| s@)
    }

    /// The index of the focused widget, if any.
    pub closed spec fn focus(self) -> Option<nat> {
        match self.focused {
            Some(i) => Some(i as nat),
            None => None,
        }
    }

    /// The focus points into the ring.
    pub open spec fn focus_in_range(self) -> bool {
        self.focus() matches Some(i) ==> i < self.ring_ids().len()
    }

    /// Create a new empty focus manager.
    pub fn new() -> (r: Self)
        ensures
            r.ring_ids() == Seq::<Seq<char>>::empty(),
            r.focus() is None,
    {
        let r = FocusManager { ring: Vec::new(), focused: None };
        assert(r.ring_ids() =~= Seq::<Seq<char>>::empty());
        r
    }

    /// Clear all registered widgets (call before each frame rebuild).
    pub fn clear(&mut self)
        ensures
            final(self).ring_ids() == Seq::<Seq<char>>::empty(),
            final(self).focus() is None,
    {
        *self = FocusManager::new();
    }

    /// Register a focusable widget. Order of registration determines tab
    /// order.
    pub fn register(&mut self, agent_id: String)
        ensures
            old(self).focus_in_range() ==> final(self).focus_in_range(),
            final(self).ring_ids() == old(self).ring_ids().push(agent_id@),
            final(self).focus() == old(self).focus(),
    {
        let ghost before = self.ring@;
        self.ring.push(agent_id);
        assert(self.ring_ids() =~= before.map_values(|s: String| s@).push(agent_id@));
    }

    /// The agent id of the currently focused widget, if any.
    pub fn focused_id(&self) -> (r: Option<&str>)
        ensures
            match self.focus() {
                Some(i) if i < self.ring_ids().len() => r is Some && r->0@ == self.ring_ids()[i as int],
                _ => r is None,
            },
    {
        match self.focused {
            Some(i) => if i < self.ring.len() {
                Some(self.ring[i].as_str())
            } else {
                None
            },
            None => None,
        }
    }

    /// Whether the given widget id is currently focused.
    pub fn is_focused(&self, agent_id: &str) -> (r: bool)
        ensures
            r == (self.focus() matches Some(i) && i < self.ring_ids().len() && self.ring_ids()[i as int]
                == agent_id@),
    {
        match self.focused_id() {
            Some(id) => str_eq(id, agent_id),
            None => false,
        }
    }

    /// Move focus to the next widget in the ring (Tab).
    pub fn focus_next(&mut self)
        ensures
            old(self).focus_in_range() ==> final(self).focus_in_range(),
            final(self).ring_ids() == old(self).ring_ids(),
            final(self).focus() == next_focus(old(self).ring_ids().len(), old(self).focus()),
    {
        let len = self.ring.len();
        if len == 0 {
            return;
        }
        let next = match self.focused {
            Some(i) => if i < len - 1 {
                i + 1
            } else {
                0
            },
            None => 0,
        };
        self.focused = Some(next);
    }

    /// Move focus to the previous widget in the ring (Shift+Tab).
    pub fn focus_previous(&mut self)
        ensures
            old(self).focus_in_range() ==> final(self).focus_in_range(),
            final(self).ring_ids() == old(self).ring_ids(),
            final(self).focus() == previous_focus(old(self).ring_ids().len(), old(self).focus()),
    {
        let len = self.ring.len();
        if len == 0 {
            return;
        }
        let prev = match self.focused {
            Some(0) => len - 1,
            Some(i) => i - 1,
            None => len - 1,
        };
        self.focused = Some(prev);
    }

    /// Focus a specific widget by agent id. Returns true if found; the
    /// focus is unchanged otherwise.
    pub fn focus_id(&mut self, agent_id: &str) -> (r: bool)
        ensures
            old(self).focus_in_range() ==> final(self).focus_in_range(),
            final(self).ring_ids() == old(self).ring_ids(),
            match first_index(old(self).ring_ids(), agent_id@, old(self).ring_ids().len() as int) {
                Some(i) => r && final(self).focus() == Some(i),
                None => !r && final(self).focus() == old(self).focus(),
            },
    {
        let ghost ids = self.ring_ids();
        let mut i: usize = 0;
        while i < self.ring.len()
            invariant
                i <= self.ring@.len(),
                self.ring@ == old(self).ring@,
                self.focused == old(self).focused,
                ids == self.ring@.map_values(|s: String| s@),
                first_index(ids, agent_id@, i as int) is None,
            decreases self.ring@.len() - i,
        {
            if str_eq(self.ring[i].as_str(), agent_id) {
                self.focused = Some(i);
                proof {
                    assert(ids[i as int] == agent_id@);
                    lemma_first_index_stable(ids, agent_id@, i + 1, ids.len() as int);
                }
                return true;
            }
            i = i + 1;
        }
        false
    }

    /// Remove focus entirely.
    pub fn blur(&mut self)
        ensures
            old(self).focus_in_range() ==> final(self).focus_in_range(),
            final(self).ring_ids() == old(self).ring_ids(),
            final(self).focus() is None,
    {
        self.focused = None;
    }

    /// Number of registered focusable widgets.
    pub fn len(&self) -> (r: usize)
        ensures
            r == self.ring_ids().len(),
    {
        self.ring.len()
    }

    /// Whether the focus ring is empty.
    pub fn is_empty(&self) -> (r: bool)
        ensures
            r == (self.ring_ids().len() == 0),
    {
        self.ring.len() == 0
    }

    /// All registered widget ids in tab order.
    pub fn ids(&self) -> (r: &[String])
        ensures
            r@.map_values(|s: String| s@) == self.ring_ids(),
    {
        self.ring.as_slice()
    }
}

impl Default for FocusManager {
    fn default() -> (r: FocusManager)
        ensures
            r.ring_ids() == Seq::<Seq<char>>::empty(),
            r.focus() is None,
    {
        FocusManager::new()
    }
}

/// Tab then Shift+Tab returns to the widget that had the focus, and so does
/// Shift+Tab then Tab.
pub proof fn lemma_next_previous_inverse(len: nat, i: nat)
    requires
        i < len,
    ensures
        previous_focus(len, next_focus(len, Some(i))) == Some(i),
        next_focus(len, previous_focus(len, Some(i))) == Some(i),
{
}

/// Tab keeps the focus inside the ring, and on a non-empty ring always
/// focuses something.
pub proof fn lemma_next_stays_in_ring(len: nat, f: Option<nat>)
    requires
        f matches Some(i) ==> i < len,
    ensures
        next_focus(len, f) matches Some(j) ==> j < len,
        len > 0 ==> next_focus(len, f) is Some,
        previous_focus(len, f) matches Some(j) ==> j < len,
        len > 0 ==> previous_focus(len, f) is Some,
{
}

/// Once found, the first index of an id stays the same as more of the
/// ring is searched.
pub proof fn lemma_first_index_stable(ids: Seq<Seq<char>>, id: Seq<char>, n: int, m: int)
    requires
        0 <= n <= m,
        first_index(ids, id, n) is Some,
    ensures
        first_index(ids, id, m) == first_index(ids, id, n),
    decreases m - n,
{
    if m > n {
        lemma_first_index_stable(ids, id, n, m - 1);
    }
}

/// Tab and Shift+Tab walk the ring in opposite directions: with nothing
/// focused, Tab focuses the first widget and Shift+Tab the last (Tab acts
/// as if the last were focused, Shift+Tab as if the first were); Tab moves
/// from each widget to the next, wrapping around, and Shift+Tab undoes it.
pub proof fn lemma_focus_ring(len: nat, i: nat)
    requires
        0 < len,
        i < len,
    ensures
        next_focus(len, None) == Some(0nat),
        previous_focus(len, None) == Some((len - 1) as nat),
        next_focus(len, None) == next_focus(len, Some((len - 1) as nat)),
        previous_focus(len, None) == previous_focus(len, Some(0nat)),
        next_focus(len, Some(i)) == Some(((i as int + 1) % (len as int)) as nat),
        previous_focus(len, next_focus(len, Some(i))) == Some(i),
        next_focus(len, previous_focus(len, Some(i))) == Some(i),
{
    if i + 1 < len {
        assert((i as int + 1) % (len as int) == i + 1) by (nonlinear_arith)
            requires
                0 <= i + 1 < len,
        ;
    } else {
        assert((i as int + 1) % (len as int) == 0) by (nonlinear_arith)
            requires
                i + 1 == len,
                len > 0,
        ;
    }
}

} // verus!
