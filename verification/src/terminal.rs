//! Terminal management: double-buffered rendering through frames.
//!
//! Each frame is drawn into a blank buffer; what differs from the screen
//! shown before is sent to the back end, and the new buffer becomes the
//! screen.
use vstd::prelude::*;
use crate::backend::Backend;
use crate::base::buffer::{diff_in_range, diff_spec, index_x, index_y, Buffer};
use crate::base::cell::Cell;
use crate::base::rect::{Position, Rect, Size};
use crate::event::HitMap;
use crate::widget::{StatefulWidget, Widget};

verus! {

/// Two well-formed buffers over the same area anchored at the origin
/// report every changed cell at a position within the `u16` range.
proof fn lemma_origin_in_range(a: &Buffer, b: &Buffer)
    requires
        a.wf(),
        b.wf(),
        a.spec_area() == b.spec_area(),
        a.spec_area().x == 0,
        a.spec_area().y == 0,
    ensures
        diff_in_range(a, b),
{
    let area = a.spec_area();
    assert forall|i: int| 0 <= i < a.cells().len() implies index_x(area, i) <= 65535 && index_y(area, i) <= 65535 by {
        let w = area.width as int;
        let h = area.height as int;
        assert(i < w * h);
        assert(w > 0) by (nonlinear_arith)
            requires
                0 <= i < w * h,
                h >= 0,
        ;
        assert(i % w < w) by (nonlinear_arith)
            requires
                w > 0,
        ;
        assert(i / w < h) by (nonlinear_arith)
            requires
                w > 0,
                0 <= i < w * h,
        ;
    }
}

/// A call the terminal makes on its back end, as recorded in its log.
pub ghost enum BackendCall {
    Size,
    Draw(Seq<(u16, u16, Cell)>),
    HideCursor,
    ShowCursor,
    SetCursor(Position),
    Clear,
    Flush,
    EnableRawMode,
    DisableRawMode,
    EnterAlternateScreen,
    LeaveAlternateScreen,
    EnableMouseCapture,
    DisableMouseCapture,
    EnableBracketedPaste,
    DisableBracketedPaste,
    BeginSync,
    EndSync,
}

/// The cells handed to a back end's `draw`, by value.
pub open spec fn drawn_cells(s: Seq<(u16, u16, &Cell)>) -> Seq<(u16, u16, Cell)> {
    s.map_values(|t: (u16, u16, &Cell)| (t.0, t.1, *t.2))
}

/// The calls that set a terminal up, in order: raw mode, alternate screen,
/// mouse capture, bracketed paste, hidden cursor, cleared screen, flush.
pub open spec fn init_calls() -> Seq<BackendCall> {
    seq![
        BackendCall::EnableRawMode,
        BackendCall::EnterAlternateScreen,
        BackendCall::EnableMouseCapture,
        BackendCall::EnableBracketedPaste,
        BackendCall::HideCursor,
        BackendCall::Clear,
        BackendCall::Flush,
    ]
}

/// The calls that give the terminal back, undoing `init_calls` in turn.
pub open spec fn restore_calls() -> Seq<BackendCall> {
    seq![
        BackendCall::DisableBracketedPaste,
        BackendCall::DisableMouseCapture,
        BackendCall::LeaveAlternateScreen,
        BackendCall::ShowCursor,
        BackendCall::DisableRawMode,
        BackendCall::Flush,
    ]
}

/// `after` is `before` followed by the first `k` calls of `steps`, for some
/// `k` between one and all of them when the run failed, and all of them when
/// it succeeded.
pub open spec fn ran_steps(before: Seq<BackendCall>, after: Seq<BackendCall>, steps: Seq<BackendCall>, ok: bool) -> bool {
    let k = after.len() - before.len();
    &&& before.len() <= after.len()
    &&& after == before + steps.take(k)
    &&& if ok { k == steps.len() } else { 0 < k <= steps.len() }
}

/// The cursor calls a frame ends with: shown and moved when the frame put
/// the cursor somewhere, hidden when it did not and the cursor was shown,
/// and none when it was hidden already.
pub open spec fn cursor_calls(s: Seq<BackendCall>, hidden_before: bool, hidden_after: bool) -> bool {
    ||| s.len() == 2 && s[0] == BackendCall::ShowCursor && s[1] is SetCursor && !hidden_after
    ||| s == seq![BackendCall::HideCursor] && !hidden_before && hidden_after
    ||| s.len() == 0 && hidden_before && hidden_after
}

/// A single frame for rendering: the buffer widgets draw into, the area it
/// covers, the clickable regions registered so far and the cursor, if the
/// frame shows one.
pub struct Frame {
    buffer: Buffer,
    area: Rect,
    hit_map: HitMap,
    cursor_position: Option<Position>,
}

impl Frame {
    /// The buffer being drawn into.
    pub closed spec fn canvas(&self) -> Buffer {
        self.buffer
    }

    /// The area available for rendering.
    pub closed spec fn spec_area(&self) -> Rect {
        self.area
    }

    /// The clickable regions registered so far.
    pub closed spec fn hits(&self) -> HitMap {
        self.hit_map
    }

    /// Where the frame puts the cursor, if it shows one.
    pub closed spec fn cursor(&self) -> Option<Position> {
        self.cursor_position
    }

    /// The buffer is well-formed and covers the frame's area.
    pub open spec fn wf(&self) -> bool {
        &&& self.canvas().wf()
        &&& self.canvas().spec_area() == self.spec_area()
    }

    /// The full area available for rendering.
    pub fn area(&self) -> (r: Rect)
        ensures
            r == self.spec_area(),
    {
        self.area
    }

    /// The underlying buffer.
    pub fn buffer_mut(&mut self) -> (r: &mut Buffer)
        ensures
            *r == old(self).canvas(),
            final(self).canvas() == *final(r),
            final(self).spec_area() == old(self).spec_area(),
            final(self).hits() == old(self).hits(),
            final(self).cursor() == old(self).cursor(),
    {
        &mut self.buffer
    }

    /// Render a widget into the given area.
    pub fn render_widget<W: Widget>(&mut self, widget: W, area: Rect)
        requires
            old(self).wf(),
        ensures
            final(self).wf(),
            final(self).spec_area() == old(self).spec_area(),
            final(self).hits() == old(self).hits(),
            final(self).cursor() == old(self).cursor(),
    {
        widget.render(area, &mut self.buffer);
    }

    /// Render a stateful widget into the given area.
    pub fn render_stateful_widget<W: StatefulWidget>(&mut self, widget: W, area: Rect, state: &mut W::State)
        requires
            old(self).wf(),
        ensures
            final(self).wf(),
            final(self).spec_area() == old(self).spec_area(),
            final(self).hits() == old(self).hits(),
            final(self).cursor() == old(self).cursor(),
    {
        widget.render(area, &mut self.buffer, state);
    }

    /// Set the cursor position (makes it visible for this frame).
    pub fn set_cursor_position(&mut self, position: Position)
        ensures
            final(self).cursor() == Some(position),
            final(self).canvas() == old(self).canvas(),
            final(self).spec_area() == old(self).spec_area(),
            final(self).hits() == old(self).hits(),
    {
        self.cursor_position = Some(position);
    }

    /// Register a clickable region for mouse hit-testing.
    pub fn register_clickable(&mut self, agent_id: String, area: Rect, z_index: u16)
        ensures
            final(self).hits().regions() == old(self).hits().regions().push((agent_id@, area, z_index)),
            final(self).canvas() == old(self).canvas(),
            final(self).spec_area() == old(self).spec_area(),
            final(self).cursor() == old(self).cursor(),
    {
        self.hit_map.register(agent_id, area, z_index);
    }
}

/// Manages the terminal lifecycle and double-buffered rendering.
pub struct Terminal<B: Backend> {
    backend: B,
    /// What is on screen.
    front: Buffer,
    /// The buffer the next frame is drawn into.
    back: Buffer,
    /// Hit map for mouse click resolution.
    hit_map: HitMap,
    /// Whether the cursor is hidden.
    hidden_cursor: bool,
    /// Viewport area.
    viewport_area: Rect,
    /// The calls made on the back end so far, in order.
    log: Ghost<Seq<BackendCall>>,
}

impl<B: Backend> Terminal<B> {
    /// The back end.
    pub closed spec fn spec_backend(&self) -> B {
        self.backend
    }

    /// What is on screen, as last drawn.
    pub closed spec fn screen(&self) -> Buffer {
        self.front
    }

    /// The buffer the next frame is drawn into.
    pub closed spec fn spare(&self) -> Buffer {
        self.back
    }

    /// The viewport.
    pub closed spec fn viewport(&self) -> Rect {
        self.viewport_area
    }

    /// The clickable regions of the last frame.
    pub closed spec fn hits(&self) -> HitMap {
        self.hit_map
    }

    /// Whether the cursor is hidden.
    pub closed spec fn cursor_hidden(&self) -> bool {
        self.hidden_cursor
    }

    /// The calls made on the back end so far, in order.
    pub closed spec fn calls(&self) -> Seq<BackendCall> {
        self.log@
    }

    /// Both buffers are well-formed and cover the viewport, which is
    /// anchored at the origin.
    pub open spec fn wf(&self) -> bool {
        &&& self.screen().wf()
        &&& self.spare().wf()
        &&& self.screen().spec_area() == self.viewport()
        &&& self.spare().spec_area() == self.viewport()
        &&& self.viewport().x == 0
        &&& self.viewport().y == 0
    }

    /// A terminal over the back end's whole screen, with blank buffers and
    /// nothing registered; fails when the back end cannot report its size.
    pub fn new(backend: B) -> (r: std::io::Result<Self>)
        ensures
            r matches Ok(t) ==> {
                &&& t.wf()
                &&& t.screen().is_blank(t.viewport())
                &&& t.spare().is_blank(t.viewport())
                &&& t.hits().regions() == Seq::<(Seq<char>, Rect, u16)>::empty()
                &&& !t.cursor_hidden()
                &&& t.spec_backend() == backend
                &&& t.calls() == seq![BackendCall::Size]
            },
    {
        let size = backend.size()?;
        let mut t = Self::with_size(backend, size);
        proof {
            t.log@ = seq![BackendCall::Size];
        }
        Ok(t)
    }

    /// A terminal over a screen of `size`, anchored at the origin, with
    /// blank buffers and nothing registered.
    pub fn with_size(backend: B, size: Size) -> (t: Self)
        ensures
            t.wf(),
            t.viewport() == (Rect { x: 0, y: 0, width: size.width, height: size.height }),
            t.screen().is_blank(t.viewport()),
            t.spare().is_blank(t.viewport()),
            t.hits().regions() == Seq::<(Seq<char>, Rect, u16)>::empty(),
            !t.cursor_hidden(),
            t.spec_backend() == backend,
            t.calls() == Seq::<BackendCall>::empty(),
    {
        let area = Rect::new(0, 0, size.width, size.height);
        Terminal {
            backend,
            front: Buffer::empty(area),
            back: Buffer::empty(area),
            hit_map: HitMap::new(),
            hidden_cursor: false,
            viewport_area: area,
            log: Ghost(Seq::empty()),
        }
    }

    /// Get a reference to the back end.
    pub fn backend(&self) -> (r: &B)
        ensures
            *r == self.spec_backend(),
    {
        &self.backend
    }

    /// Get a mutable reference to the back end.
    pub fn backend_mut(&mut self) -> (r: &mut B)
        ensures
            *r == old(self).spec_backend(),
            final(self).spec_backend() == *final(r),
            final(self).screen() == old(self).screen(),
            final(self).spare() == old(self).spare(),
            final(self).viewport() == old(self).viewport(),
            final(self).hits() == old(self).hits(),
            final(self).cursor_hidden() == old(self).cursor_hidden(),
            final(self).calls() == old(self).calls(),
    {
        &mut self.backend
    }

    /// Get the current viewport area.
    pub fn area(&self) -> (r: Rect)
        ensures
            r == self.viewport(),
    {
        self.viewport_area
    }

    /// Get the hit map (for mouse event resolution).
    pub fn hit_map(&self) -> (r: &HitMap)
        ensures
            *r == self.hits(),
    {
        &self.hit_map
    }

    /// Initialize the terminal: raw mode, alternate screen, mouse capture,
    /// bracketed paste, cursor hidden, screen cleared. Stops at the first
    /// step that fails; the cursor counts as hidden once every step has
    /// succeeded.
    pub fn init(&mut self) -> (r: std::io::Result<()>)
        requires
            old(self).wf(),
        ensures
            final(self).wf(),
            final(self).screen() == old(self).screen(),
            final(self).spare() == old(self).spare(),
            final(self).viewport() == old(self).viewport(),
            final(self).hits() == old(self).hits(),
            final(self).cursor_hidden() == (r is Ok || old(self).cursor_hidden()),
            ran_steps(old(self).calls(), final(self).calls(), init_calls(), r is Ok),
    {
        let ghost before = self.log@;
        proof {
            self.log@ = self.log@.push(BackendCall::EnableRawMode);
            assert(self.log@ =~= before + init_calls().take(1));
        }
        self.backend.enable_raw_mode()?;
        proof {
            self.log@ = self.log@.push(BackendCall::EnterAlternateScreen);
            assert(self.log@ =~= before + init_calls().take(2));
        }
        self.backend.enter_alternate_screen()?;
        proof {
            self.log@ = self.log@.push(BackendCall::EnableMouseCapture);
            assert(self.log@ =~= before + init_calls().take(3));
        }
        self.backend.enable_mouse_capture()?;
        proof {
            self.log@ = self.log@.push(BackendCall::EnableBracketedPaste);
            assert(self.log@ =~= before + init_calls().take(4));
        }
        self.backend.enable_bracketed_paste()?;
        proof {
            self.log@ = self.log@.push(BackendCall::HideCursor);
            assert(self.log@ =~= before + init_calls().take(5));
        }
        self.backend.hide_cursor()?;
        proof {
            self.log@ = self.log@.push(BackendCall::Clear);
            assert(self.log@ =~= before + init_calls().take(6));
        }
        self.backend.clear()?;
        proof {
            self.log@ = self.log@.push(BackendCall::Flush);
            assert(self.log@ =~= before + init_calls().take(7));
        }
        self.backend.flush()?;
        self.hidden_cursor = true;
        assert(init_calls().take(7) =~= init_calls());
        Ok(())
    }

    /// Restore the terminal to its original state, undoing `init` step by
    /// step; the buffers are untouched.
    pub fn restore(&mut self) -> (r: std::io::Result<()>)
        requires
            old(self).wf(),
        ensures
            final(self).wf(),
            final(self).screen() == old(self).screen(),
            final(self).spare() == old(self).spare(),
            final(self).viewport() == old(self).viewport(),
            final(self).hits() == old(self).hits(),
            final(self).cursor_hidden() == old(self).cursor_hidden(),
            ran_steps(old(self).calls(), final(self).calls(), restore_calls(), r is Ok),
    {
        let ghost before = self.log@;
        proof {
            self.log@ = self.log@.push(BackendCall::DisableBracketedPaste);
            assert(self.log@ =~= before + restore_calls().take(1));
        }
        self.backend.disable_bracketed_paste()?;
        proof {
            self.log@ = self.log@.push(BackendCall::DisableMouseCapture);
            assert(self.log@ =~= before + restore_calls().take(2));
        }
        self.backend.disable_mouse_capture()?;
        proof {
            self.log@ = self.log@.push(BackendCall::LeaveAlternateScreen);
            assert(self.log@ =~= before + restore_calls().take(3));
        }
        self.backend.leave_alternate_screen()?;
        proof {
            self.log@ = self.log@.push(BackendCall::ShowCursor);
            assert(self.log@ =~= before + restore_calls().take(4));
        }
        self.backend.show_cursor()?;
        proof {
            self.log@ = self.log@.push(BackendCall::DisableRawMode);
            assert(self.log@ =~= before + restore_calls().take(5));
        }
        self.backend.disable_raw_mode()?;
        proof {
            self.log@ = self.log@.push(BackendCall::Flush);
            assert(self.log@ =~= before + restore_calls().take(6));
        }
        self.backend.flush()?;
        assert(restore_calls().take(6) =~= restore_calls());
        Ok(())
    }

    /// Take the back end's current size as the viewport: when it changed,
    /// both buffers become blank over the new area; otherwise nothing
    /// changes.
    pub fn autoresize(&mut self) -> (r: std::io::Result<()>)
        requires
            old(self).wf(),
        ensures
            final(self).wf(),
            final(self).hits() == old(self).hits(),
            final(self).cursor_hidden() == old(self).cursor_hidden(),
            final(self).viewport() == old(self).viewport() ==> {
                &&& final(self).screen() == old(self).screen()
                &&& final(self).spare() == old(self).spare()
            },
            final(self).viewport() != old(self).viewport() ==> {
                &&& final(self).screen().is_blank(final(self).viewport())
                &&& final(self).spare().is_blank(final(self).viewport())
            },
            r is Err ==> final(self).viewport() == old(self).viewport(),
            final(self).calls() == old(self).calls().push(BackendCall::Size),
    {
        proof {
            self.log@ = self.log@.push(BackendCall::Size);
        }
        let size = self.backend.size()?;
        self.resize_to(size);
        Ok(())
    }

    /// Take `size` as the screen's size: the viewport becomes the area of
    /// that size at the origin, and when that changes it, both buffers
    /// become blank over the new area; otherwise nothing changes.
    pub fn resize_to(&mut self, size: Size)
        requires
            old(self).wf(),
        ensures
            final(self).wf(),
            final(self).viewport() == (Rect { x: 0, y: 0, width: size.width, height: size.height }),
            final(self).hits() == old(self).hits(),
            final(self).cursor_hidden() == old(self).cursor_hidden(),
            final(self).spec_backend() == old(self).spec_backend(),
            final(self).calls() == old(self).calls(),
            final(self).viewport() == old(self).viewport() ==> {
                &&& final(self).screen() == old(self).screen()
                &&& final(self).spare() == old(self).spare()
            },
            final(self).viewport() != old(self).viewport() ==> {
                &&& final(self).screen().is_blank(final(self).viewport())
                &&& final(self).spare().is_blank(final(self).viewport())
            },
    {
        let area = Rect::new(0, 0, size.width, size.height);
        if area != self.viewport_area {
            self.viewport_area = area;
            self.front.resize(area);
            self.back.resize(area);
        }
    }

    /// Draw a frame: the viewport is brought up to date, the spare buffer
    /// is blanked and handed to `render` with an empty hit map, the cells
    /// that differ from the screen are sent to the back end, the cursor is
    /// shown where the frame put it (or hidden), and the new buffer becomes
    /// the screen.
    ///
    /// `render` may draw anything into the frame but must leave its buffer
    /// well-formed over the frame's area.
    pub fn draw<F: FnOnce(&mut Frame)>(&mut self, render: F) -> (r: std::io::Result<()>)
        requires
            old(self).wf(),
            forall|f: &mut Frame| render.requires((f,)),
            forall|f: &mut Frame| #[trigger]
                render.ensures((f,), ()) ==> ((*f).wf() ==> final(f).wf() && final(f).spec_area() == (*f).spec_area()),
        ensures
            final(self).wf(),
            old(self).calls().len() <= final(self).calls().len(),
            final(self).calls().subrange(0, old(self).calls().len() as int) == old(self).calls(),
            r is Ok ==> {
                let n = old(self).calls().len() as int;
                let c = final(self).calls();
                let m = c.len() as int;
                &&& n + 5 <= m
                &&& c[n] == BackendCall::Size
                &&& c[n + 1] == BackendCall::BeginSync
                &&& c[n + 2] == BackendCall::Draw(diff_spec(&final(self).spare(), &final(self).screen()))
                &&& cursor_calls(c.subrange(n + 3, m - 2), old(self).cursor_hidden(), final(self).cursor_hidden())
                &&& c[m - 2] == BackendCall::EndSync
                &&& c[m - 1] == BackendCall::Flush
                &&& old(self).viewport() == final(self).viewport() ==> final(self).spare() == old(self).screen()
                &&& old(self).viewport() != final(self).viewport() ==> final(self).spare().is_blank(
                    final(self).viewport(),
                )
            },
    {
        let ghost before = self.log@;
        let ghost hidden_before = self.hidden_cursor;
        let resized = self.autoresize();
        proof {
            assert(self.log@.subrange(0, before.len() as int) =~= before);
        }
        resized?;
        self.hit_map.clear();
        self.back.reset();
        let area = self.viewport_area;
        let mut canvas = Buffer::empty(Rect::new(0, 0, 0, 0));
        std::mem::swap(&mut canvas, &mut self.back);
        let mut hits = HitMap::new();
        std::mem::swap(&mut hits, &mut self.hit_map);
        let mut frame = Frame { buffer: canvas, area, hit_map: hits, cursor_position: None };
        render(&mut frame);
        let Frame { buffer, hit_map, cursor_position, .. } = frame;
        self.back = buffer;
        self.hit_map = hit_map;

        proof {
            self.log@ = self.log@.push(BackendCall::BeginSync);
            assert(self.log@.subrange(0, before.len() as int) =~= before);
        }
        self.backend.begin_sync()?;
        proof {
            lemma_origin_in_range(&self.front, &self.back);
        }
        let changes = self.front.diff(&self.back);
        proof {
            assert(drawn_cells(changes@) =~= diff_spec(&self.front, &self.back));
            self.log@ = self.log@.push(BackendCall::Draw(drawn_cells(changes@)));
            assert(self.log@.subrange(0, before.len() as int) =~= before);
        }
        let ghost sent = self.log@;
        self.backend.draw(changes.as_slice())?;
        match cursor_position {
            Some(pos) => {
                proof {
                    self.log@ = self.log@.push(BackendCall::ShowCursor);
                    assert(self.log@.subrange(0, before.len() as int) =~= before);
                }
                self.backend.show_cursor()?;
                proof {
                    self.log@ = self.log@.push(BackendCall::SetCursor(pos));
                    assert(self.log@.subrange(0, before.len() as int) =~= before);
                }
                self.backend.set_cursor_position(pos)?;
                self.hidden_cursor = false;
            },
            None => {
                if !self.hidden_cursor {
                    proof {
                        self.log@ = self.log@.push(BackendCall::HideCursor);
                        assert(self.log@.subrange(0, before.len() as int) =~= before);
                    }
                    self.backend.hide_cursor()?;
                    self.hidden_cursor = true;
                }
            },
        }
        let ghost cursor_end = self.log@;
        proof {
            let mid = cursor_end.subrange(sent.len() as int, cursor_end.len() as int);
            match cursor_position {
                Some(pos) => {
                    assert(mid =~= seq![BackendCall::ShowCursor, BackendCall::SetCursor(pos)]);
                },
                None => {
                    if hidden_before {
                        assert(mid =~= Seq::<BackendCall>::empty());
                    } else {
                        assert(mid =~= seq![BackendCall::HideCursor]);
                    }
                },
            }
            assert(cursor_calls(mid, hidden_before, self.hidden_cursor));
        }
        proof {
            self.log@ = self.log@.push(BackendCall::EndSync);
            assert(self.log@.subrange(0, before.len() as int) =~= before);
        }
        self.backend.end_sync()?;
        proof {
            self.log@ = self.log@.push(BackendCall::Flush);
            assert(self.log@.subrange(0, before.len() as int) =~= before);
        }
        self.backend.flush()?;
        std::mem::swap(&mut self.front, &mut self.back);
        proof {
            let n = before.len() as int;
            let m = self.log@.len() as int;
            assert(self.log@.subrange(n + 3, m - 2) =~= cursor_end.subrange(n + 3, cursor_end.len() as int));
            assert(self.log@.subrange(0, n) =~= before);
        }
        Ok(())
    }
}

} // verus!
