//! Overlays and modals.
//!
//! Overlays are rendered on top of the main application content. They
//! capture keyboard focus and can be dismissed programmatically or by the
//! user.
use vstd::prelude::*;
use crate::base::buffer::{Buffer, index_y, index_in, lemma_set_string_stays_on_row};
use crate::base::cell::styled_cell;
use crate::base::chars::{str_eq, str_to_chars, chars_to_string};
use crate::base::rect::Rect;
use crate::base::style::{Style, plain_style};
use crate::widget::Widget;

verus! {

/// An overlay entry in the overlay stack.
#[derive(Debug)]
pub struct Overlay {
    /// Unique id for agent addressability.
    pub id: String,
    /// Area where the overlay renders (absolute terminal coordinates).
    pub area: Rect,
    /// Whether this overlay captures all keyboard input.
    pub captures_focus: bool,
}

/// An overlay as a value: its id, area and whether it captures focus.
pub open spec fn overlay_view(o: Overlay) -> (Seq<char>, Rect, bool) {
    (o.id@, o.area, o.captures_focus)
}

/// The entries of `s` whose id is not `id`, in order.
pub open spec fn without_id(s: Seq<(Seq<char>, Rect, bool)>, id: Seq<char>) -> Seq<(Seq<char>, Rect, bool)>
    decreases s.len(),
{
    if s.len() == 0 {
        Seq::empty()
    } else {
        let rest = without_id(s.drop_last(), id);
        if s.last().0 == id {
            rest
        } else {
            rest.push(s.last())
        }
    }
}

/// The index of the topmost entry among the first `n` that captures focus.
pub open spec fn top_capture(s: Seq<(Seq<char>, Rect, bool)>, n: int) -> Option<int>
    decreases n,
{
    if n <= 0 {
        None
    } else if s[n - 1].2 {
        Some(n - 1)
    } else {
        top_capture(s, n - 1)
    }
}

/// Manages a stack of overlays rendered on top of the main content.
///
/// Overlays are drawn in order (bottom to top). The topmost overlay that
/// captures focus receives all keyboard events.
#[derive(Debug)]
pub struct OverlayStack {
    entries: Vec<Overlay>,
}

impl OverlayStack {
    /// The overlays, bottom to top.
    pub closed spec fn stack(&self) -> Seq<(Seq<char>, Rect, bool)> {
        self.entries@.map_values(|o: Overlay| overlay_view(o))
    }

    /// An empty stack.
    pub fn new() -> (r: Self)
        ensures
            r.stack() == Seq::<(Seq<char>, Rect, bool)>::empty(),
    {
        let r = OverlayStack { entries: Vec::new() };
        assert(r.stack() =~= Seq::<(Seq<char>, Rect, bool)>::empty());
        r
    }

    /// Push an overlay onto the stack.
    pub fn push(&mut self, overlay: Overlay)
        ensures
            final(self).stack() == old(self).stack().push(overlay_view(overlay)),
    {
        let ghost before = self.entries@;
        let ghost v = overlay_view(overlay);
        self.entries.push(overlay);
        assert(self.stack() =~= before.map_values(|o: Overlay| overlay_view(o)).push(v));
    }

    /// Remove every overlay with the given id. Returns whether any was.
    pub fn remove(&mut self, id: &str) -> (r: bool)
        ensures
            final(self).stack() == without_id(old(self).stack(), id@),
            r == (without_id(old(self).stack(), id@).len() < old(self).stack().len()),
    {
        let ghost s = self.stack();
        let before = self.entries.len();
        let mut kept: Vec<Overlay> = Vec::new();
        let mut old_entries: Vec<Overlay> = Vec::new();
        std::mem::swap(&mut old_entries, &mut self.entries);
        let ghost all = old_entries@;
        let n = old_entries.len();
        proof {
            lemma_without_id_len(s, id@);
        }
        let mut i: usize = 0;
        while old_entries.len() > 0
            invariant
                s == all.map_values(|o: Overlay| overlay_view(o)),
                old_entries@ == all.skip(i as int),
                n == all.len(),
                i <= all.len(),
                kept@.map_values(|o: Overlay| overlay_view(o)) == without_id(s.take(i as int), id@),
            decreases old_entries@.len(),
        {
            let o = old_entries.remove(0);
            proof {
                assert(o == all[i as int]);
                assert(s.take(i + 1).drop_last() =~= s.take(i as int));
                assert(s.take(i + 1).last() == overlay_view(o));
                assert(all.skip(i as int).remove(0) =~= all.skip(i + 1));
            }
            if !str_eq(o.id.as_str(), id) {
                let ghost prev = kept@;
                let ghost v = overlay_view(o);
                kept.push(o);
                assert(kept@.map_values(|o: Overlay| overlay_view(o)) =~= prev.map_values(
                    |o: Overlay| overlay_view(o),
                ).push(v));
            }
            i = i + 1;
        }
        proof {
            assert(all.skip(i as int).len() == 0);
            assert(s.take(i as int) =~= s);
        }
        self.entries = kept;
        self.entries.len() < before
    }

    /// The topmost overlay, if any.
    pub fn top(&self) -> (r: Option<&Overlay>)
        ensures
            self.stack().len() == 0 ==> r is None,
            self.stack().len() > 0 ==> r is Some && overlay_view(*r->0) == self.stack().last(),
    {
        let n = self.entries.len();
        if n == 0 {
            None
        } else {
            Some(&self.entries[n - 1])
        }
    }

    /// Whether any overlay is currently capturing focus.
    pub fn has_focus_capture(&self) -> (r: bool)
        ensures
            r == top_capture(self.stack(), self.stack().len() as int) is Some,
    {
        self.focus_capture_index().is_some()
    }

    /// The id of the topmost overlay capturing focus, if any.
    pub fn focus_capture_id(&self) -> (r: Option<&str>)
        ensures
            match top_capture(self.stack(), self.stack().len() as int) {
                Some(i) => r is Some && r->0@ == self.stack()[i].0,
                None => r is None,
            },
    {
        match self.focus_capture_index() {
            Some(i) => {
                proof {
                    assert(self.stack()[i as int] == overlay_view(self.entries@[i as int]));
                }
                Some(self.entries[i].id.as_str())
            },
            None => None,
        }
    }

    /// The index of the topmost overlay capturing focus, searching from the
    /// top.
    fn focus_capture_index(&self) -> (r: Option<usize>)
        ensures
            r is None <==> top_capture(self.stack(), self.stack().len() as int) is None,
            r matches Some(i) ==> top_capture(self.stack(), self.stack().len() as int) == Some(i as int)
                && i < self.entries@.len(),
    {
        let mut k: usize = self.entries.len();
        while k > 0
            invariant
                k <= self.entries@.len(),
                self.stack().len() == self.entries@.len(),
                top_capture(self.stack(), self.stack().len() as int) == top_capture(self.stack(), k as int),
            decreases k,
        {
            proof {
                assert(self.stack()[k - 1] == overlay_view(self.entries@[k - 1]));
            }
            if self.entries[k - 1].captures_focus {
                return Some(k - 1);
            }
            k = k - 1;
        }
        None
    }

    /// Whether the stack is empty.
    pub fn is_empty(&self) -> (r: bool)
        ensures
            r == (self.stack().len() == 0),
    {
        self.entries.len() == 0
    }

    /// Number of overlays on the stack.
    pub fn len(&self) -> (r: usize)
        ensures
            r == self.stack().len(),
    {
        self.entries.len()
    }

    /// The overlays from bottom to top.
    pub fn iter(&self) -> (r: &[Overlay])
        ensures
            r@.map_values(|o: Overlay| overlay_view(o)) == self.stack(),
    {
        self.entries.as_slice()
    }

    /// Clear all overlays.
    pub fn clear(&mut self)
        ensures
            final(self).stack() == Seq::<(Seq<char>, Rect, bool)>::empty(),
    {
        self.entries.clear();
        assert(self.stack() =~= Seq::<(Seq<char>, Rect, bool)>::empty());
    }
}

impl Default for OverlayStack {
    fn default() -> (r: OverlayStack)
        ensures
            r.stack() == Seq::<(Seq<char>, Rect, bool)>::empty(),
    {
        OverlayStack::new()
    }
}

/// Removing entries never makes the stack longer.
pub proof fn lemma_without_id_len(s: Seq<(Seq<char>, Rect, bool)>, id: Seq<char>)
    ensures
        without_id(s, id).len() <= s.len(),
    decreases s.len(),
{
    if s.len() > 0 {
        lemma_without_id_len(s.drop_last(), id);
    }
}

/// A simple centered modal box widget.
///
/// Renders a bordered box centered in the given area, over a dimmed
/// background.
#[derive(Debug)]
pub struct ModalBox {
    title: String,
    style: Style,
    border_style: Style,
    /// Width as percentage of parent (0-100).
    width_percent: u16,
    /// Height as percentage of parent (0-100).
    height_percent: u16,
}

/// The box a modal takes in `parent`: the given percentages of its size,
/// centered.
pub open spec fn modal_rect(parent: Rect, wp: u16, hp: u16) -> Rect {
    let w = (parent.width * wp / 100) as u16;
    let h = (parent.height * hp / 100) as u16;
    Rect {
        x: (parent.x + (parent.width - w) / 2) as u16,
        y: (parent.y + (parent.height - h) / 2) as u16,
        width: w,
        height: h,
    }
}

/// The modal box fits in the `u16` coordinate range.
pub open spec fn modal_in_range(parent: Rect, wp: u16, hp: u16) -> bool {
    let w = parent.width * wp / 100;
    let h = parent.height * hp / 100;
    &&& parent.x + (parent.width - w) / 2 + w <= 65535
    &&& parent.y + (parent.height - h) / 2 + h <= 65535
}

/// The content area of the modal box starts inside the `u16` coordinate
/// range.
pub open spec fn inner_in_range(parent: Rect, wp: u16, hp: u16) -> bool {
    let w = parent.width * wp / 100;
    let h = parent.height * hp / 100;
    &&& parent.x + (parent.width - w) / 2 < 65535
    &&& parent.y + (parent.height - h) / 2 < 65535
}

impl ModalBox {
    /// The box's title, style, border style and size percentages.
    pub closed spec fn settings(&self) -> (Seq<char>, Style, Style, u16, u16) {
        (self.title@, self.style, self.border_style, self.width_percent, self.height_percent)
    }

    /// A modal with the given title, plain styles, 60% wide and 40% high.
    pub fn new(title: String) -> (r: Self)
        ensures
            r.settings() == (title@, plain_style(), plain_style(), 60u16, 40u16),
    {
        ModalBox {
            title,
            style: Style::new(),
            border_style: Style::new(),
            width_percent: 60,
            height_percent: 40,
        }
    }

    /// The modal with the given body style.
    pub fn style(self, style: Style) -> (r: Self)
        ensures
            r.settings() == (self.settings().0, style, self.settings().2, self.settings().3, self.settings().4),
    {
        ModalBox { style, ..self }
    }

    /// The modal with the given border style.
    pub fn border_style(self, style: Style) -> (r: Self)
        ensures
            r.settings() == (self.settings().0, self.settings().1, style, self.settings().3, self.settings().4),
    {
        ModalBox { border_style: style, ..self }
    }

    /// The modal with the given width percentage, at most 100.
    pub fn width_percent(self, pct: u16) -> (r: Self)
        ensures
            r.settings() == (self.settings().0, self.settings().1, self.settings().2, if pct < 100 { pct } else { 100u16 }, self.settings().4),
    {
        ModalBox { width_percent: if pct < 100 { pct } else { 100 }, ..self }
    }

    /// The modal with the given height percentage, at most 100.
    pub fn height_percent(self, pct: u16) -> (r: Self)
        ensures
            r.settings() == (self.settings().0, self.settings().1, self.settings().2, self.settings().3, if pct < 100 { pct } else { 100u16 }),
    {
        ModalBox { height_percent: if pct < 100 { pct } else { 100 }, ..self }
    }

    /// The area for the modal's content in `parent`: the modal box shrunk by
    /// one cell on each side for the border.
    pub fn inner_area(&self, parent: Rect) -> (r: Rect)
        requires
            modal_in_range(parent, self.settings().3, self.settings().4),
            inner_in_range(parent, self.settings().3, self.settings().4),
            self.settings().3 <= 100,
            self.settings().4 <= 100,
        ensures
            ({
                let m = modal_rect(parent, self.settings().3, self.settings().4);
                r == Rect {
                    x: (m.x + 1) as u16,
                    y: (m.y + 1) as u16,
                    width: if m.width >= 2 { (m.width - 2) as u16 } else { 0 },
                    height: if m.height >= 2 { (m.height - 2) as u16 } else { 0 },
                }
            }),
    {
        let m = self.modal_area(parent);
        Rect::new(m.x + 1, m.y + 1, m.width.saturating_sub(2), m.height.saturating_sub(2))
    }

    /// The modal box in `parent`.
    fn modal_area(&self, parent: Rect) -> (r: Rect)
        requires
            modal_in_range(parent, self.width_percent, self.height_percent),
            self.width_percent <= 100,
            self.height_percent <= 100,
        ensures
            r == modal_rect(parent, self.width_percent, self.height_percent),
            r.x + r.width <= 65535,
            r.y + r.height <= 65535,
            r.x < 65535 || r.width == 0,
    {
        let pw = parent.width as u32;
        let ph = parent.height as u32;
        proof {
            assert(pw * self.width_percent <= pw * 100) by (nonlinear_arith)
                requires
                    self.width_percent <= 100,
            ;
            assert(ph * self.height_percent <= ph * 100) by (nonlinear_arith)
                requires
                    self.height_percent <= 100,
            ;
            assert(pw * self.width_percent / 100 <= pw) by (nonlinear_arith)
                requires
                    pw * self.width_percent <= pw * 100,
            ;
            assert(ph * self.height_percent / 100 <= ph) by (nonlinear_arith)
                requires
                    ph * self.height_percent <= ph * 100,
            ;
        }
        let w = (pw * self.width_percent as u32 / 100) as u16;
        let h = (ph * self.height_percent as u32 / 100) as u16;
        let x = parent.x + (parent.width - w) / 2;
        let y = parent.y + (parent.height - h) / 2;
        Rect::new(x, y, w, h)
    }
}

impl Widget for ModalBox {
    /// Dim the area, fill the modal box with the body style, draw its border
    /// and title. Every cell of `area` on a row outside the box's rows is
    /// dimmed, and nothing outside those rows is touched otherwise; when the
    /// box would leave the `u16` coordinate range nothing is drawn.
    fn render(self, area: Rect, buf: &mut Buffer)
        ensures
            ({
                let wp = self.settings().3;
                let hp = self.settings().4;
                let m = modal_rect(area, wp, hp);
                let a = old(buf).spec_area();
                if wp <= 100 && hp <= 100 && modal_in_range(area, wp, hp) {
                    forall|i: int|
                        0 <= i < old(buf).cells().len() && !(m.y <= index_y(a, i) < m.y + m.height)
                            ==> #[trigger] final(buf).cells()[i] == if index_in(a, area, i) {
                            styled_cell(old(buf).cells()[i], plain_style().adding(2))
                        } else {
                            old(buf).cells()[i]
                        }
                } else {
                    final(buf).cells() == old(buf).cells()
                }
            }),
    {
        if !(self.width_percent <= 100 && self.height_percent <= 100) {
            return;
        }
        let aw = area.width as u32;
        let ah = area.height as u32;
        proof {
            assert(aw * self.width_percent <= aw * 100) by (nonlinear_arith)
                requires
                    self.width_percent <= 100,
            ;
            assert(ah * self.height_percent <= ah * 100) by (nonlinear_arith)
                requires
                    self.height_percent <= 100,
            ;
            assert(aw * self.width_percent / 100 <= aw) by (nonlinear_arith)
                requires
                    aw * self.width_percent <= aw * 100,
            ;
            assert(ah * self.height_percent / 100 <= ah) by (nonlinear_arith)
                requires
                    ah * self.height_percent <= ah * 100,
            ;
        }
        let w = (aw * self.width_percent as u32 / 100) as u32;
        let h = (ah * self.height_percent as u32 / 100) as u32;
        if !((area.x as u32) + (aw - w) / 2 + w <= 65535 && (area.y as u32) + (ah - h) / 2 + h
            <= 65535) {
            return;
        }
        // Dim the background.
        buf.set_style(area, Style::new().dim());
        let ghost styled = buf.cells();
        let ghost a = buf.spec_area();
        let m = self.modal_area(area);
        let (x, y, w, h) = (m.x, m.y, m.width, m.height);
        // Fill the modal background.
        buf.fill(m, " ", self.style);
        let ghost dimmed = buf.cells();
        assert forall|i: int| 0 <= i < dimmed.len() && !(y <= index_y(a, i) < y + h) implies #[trigger] dimmed[i]
            == styled[i] by {
            assert(!index_in(a, m, i));
        }
        if w >= 2 && h >= 2 {
            // Top and bottom edges.
            let mut bx = x;
            while bx < x + w
                invariant
                    buf.wf(),
                    a == buf.spec_area(),
                    x <= bx <= x + w,
                    x + w <= 65535,
                    y + h <= 65535,
                    h >= 2,
                    buf.cells().len() == dimmed.len(),
                    forall|i: int|
                        0 <= i < dimmed.len() && !(y <= index_y(a, i) < y + h) ==> #[trigger] buf.cells()[i]
                            == dimmed[i],
                decreases x + w - bx,
            {
                let ghost b0 = *buf;
                let r0 = buf.set_string(bx, y, "─", self.border_style);
                proof {
                    lemma_set_string_stays_on_row(&b0, &*buf, bx as int, y as int, "─"@, self.border_style, r0 as int);
                }
                let ghost b1 = *buf;
                let r1 = buf.set_string(bx, y + h - 1, "─", self.border_style);
                proof {
                    lemma_set_string_stays_on_row(&b1, &*buf, bx as int, (y + h - 1) as int, "─"@, self.border_style, r1 as int);
                }
                bx = bx + 1;
            }
            // Left and right edges.
            let mut by = y;
            while by < y + h
                invariant
                    buf.wf(),
                    a == buf.spec_area(),
                    y <= by <= y + h,
                    x + w <= 65535,
                    y + h <= 65535,
                    w >= 2,
                    buf.cells().len() == dimmed.len(),
                    forall|i: int|
                        0 <= i < dimmed.len() && !(y <= index_y(a, i) < y + h) ==> #[trigger] buf.cells()[i]
                            == dimmed[i],
                decreases y + h - by,
            {
                let ghost b0 = *buf;
                let r0 = buf.set_string(x, by, "│", self.border_style);
                proof {
                    lemma_set_string_stays_on_row(&b0, &*buf, x as int, by as int, "│"@, self.border_style, r0 as int);
                }
                let ghost b1 = *buf;
                let r1 = buf.set_string(x + w - 1, by, "│", self.border_style);
                proof {
                    lemma_set_string_stays_on_row(&b1, &*buf, (x + w - 1) as int, by as int, "│"@, self.border_style, r1 as int);
                }
                by = by + 1;
            }
            // Corners.
            let ghost c0 = *buf;
            let r0 = buf.set_string(x, y, "┌", self.border_style);
            proof {
                lemma_set_string_stays_on_row(&c0, &*buf, x as int, y as int, "┌"@, self.border_style, r0 as int);
            }
            let ghost c1 = *buf;
            let r1 = buf.set_string(x + w - 1, y, "┐", self.border_style);
            proof {
                lemma_set_string_stays_on_row(&c1, &*buf, (x + w - 1) as int, y as int, "┐"@, self.border_style, r1 as int);
            }
            let ghost c2 = *buf;
            let r2 = buf.set_string(x, y + h - 1, "└", self.border_style);
            proof {
                lemma_set_string_stays_on_row(&c2, &*buf, x as int, (y + h - 1) as int, "└"@, self.border_style, r2 as int);
            }
            let ghost c3 = *buf;
            let r3 = buf.set_string(x + w - 1, y + h - 1, "┘", self.border_style);
            proof {
                lemma_set_string_stays_on_row(&c3, &*buf, (x + w - 1) as int, (y + h - 1) as int, "┘"@, self.border_style, r3 as int);
            }
            // Title, cut to leave room for the corners and a space.
            if !self.title.as_str().is_empty() && w > 4 {
                let max_title = (w - 4) as usize;
                let cs = str_to_chars(self.title.as_str());
                let n = if cs.len() < max_title { cs.len() } else { max_title };
                let title = chars_to_string(cs.as_slice().split_at(n).0);
                let ghost c4 = *buf;
                let r4 = buf.set_string(x + 2, y, title.as_str(), self.border_style);
                proof {
                    lemma_set_string_stays_on_row(&c4, &*buf, (x + 2) as int, y as int, title@, self.border_style, r4 as int);
                }
            }
        }
    }
}

} // verus!
