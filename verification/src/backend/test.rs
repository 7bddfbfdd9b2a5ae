//! An in-memory back end for tests: it keeps the screen in a buffer and
//! records the cursor and mouse state, touching no terminal.
use vstd::prelude::*;
use super::Backend;
use crate::base::buffer::{row_text_spec, Buffer};
use crate::base::cell::Cell;
use crate::base::rect::{Position, Rect, Size};
use crate::base::chars::{trim_end, trimmed_end};

verus! {

/// The screen after writing each of `content`, in order, onto `cells`, a
/// grid `width` columns wide and `height` rows high; positions outside the
/// grid are skipped.
pub open spec fn drawn(cells: Seq<Cell>, width: int, height: int, content: Seq<(u16, u16, &Cell)>) -> Seq<Cell>
    decreases content.len(),
{
    if content.len() == 0 {
        cells
    } else {
        let prev = drawn(cells, width, height, content.drop_last());
        let (x, y, c) = content.last();
        if x < width && y < height {
            prev.update(y * width + x, *c)
        } else {
            prev
        }
    }
}

/// In-memory back end for testing.
///
/// Records all operations for assertions without touching a real terminal.
pub struct TestBackend {
    buffer: Buffer,
    cursor: Position,
    cursor_visible: bool,
    mouse_capture: bool,
}

impl TestBackend {
    /// The screen is a well-formed grid anchored at the origin.
    #[verifier::type_invariant]
    spec fn inv(&self) -> bool {
        &&& self.buffer.wf()
        &&& self.buffer.spec_area().x == 0
        &&& self.buffer.spec_area().y == 0
    }

    /// What the screen shows.
    pub closed spec fn screen(&self) -> Buffer {
        self.buffer
    }

    /// Where the cursor is.
    pub closed spec fn cursor(&self) -> Position {
        self.cursor
    }

    /// Whether the cursor is shown.
    pub closed spec fn cursor_shown(&self) -> bool {
        self.cursor_visible
    }

    /// Whether mouse events are captured.
    pub closed spec fn mouse_captured(&self) -> bool {
        self.mouse_capture
    }

    /// A blank screen of `width` by `height` cells with the cursor shown at
    /// the origin and no mouse capture.
    pub fn new(width: u16, height: u16) -> (r: Self)
        ensures
            r.screen().is_blank(Rect::new_spec(0, 0, width, height)),
            r.cursor() == (Position { x: 0, y: 0 }),
            r.cursor_shown(),
            !r.mouse_captured(),
    {
        TestBackend {
            buffer: Buffer::empty(Rect::new(0, 0, width, height)),
            cursor: Position::new(0, 0),
            cursor_visible: true,
            mouse_capture: false,
        }
    }

    /// The current screen contents (for test assertions).
    pub fn buffer(&self) -> (r: &Buffer)
        ensures
            *r == self.screen(),
            r.wf(),
            r.spec_area().x == 0 && r.spec_area().y == 0,
    {
        proof {
            use_type_invariant(self);
        }
        &self.buffer
    }

    /// The text of row `y`, without trailing whitespace; empty when the row
    /// is off the screen.
    pub fn row_text(&self, y: u16) -> (r: String)
        ensures
            r@ == trimmed_end(row_text_spec(self.screen().cells(), self.screen().spec_area(), y as int)),
    {
        proof {
            use_type_invariant(self);
        }
        let text = self.buffer.row_text(y);
        trim_end(text.as_str()).to_owned()
    }
}

impl Backend for TestBackend {
    /// Writes each cell onto the screen, skipping positions outside it.
    fn draw(&mut self, content: &[(u16, u16, &Cell)]) -> (r: std::io::Result<()>)
        ensures
            r is Ok,
            final(self).screen().spec_area() == old(self).screen().spec_area(),
            final(self).screen().links() == old(self).screen().links(),
            final(self).screen().cells() == drawn(
                old(self).screen().cells(),
                old(self).screen().spec_area().width as int,
                old(self).screen().spec_area().height as int,
                content@,
            ),
            final(self).cursor() == old(self).cursor(),
            final(self).cursor_shown() == old(self).cursor_shown(),
            final(self).mouse_captured() == old(self).mouse_captured(),
    {
        proof {
            use_type_invariant(&*self);
        }
        let mut buf = Buffer::empty(Rect::new(0, 0, 0, 0));
        std::mem::swap(&mut buf, &mut self.buffer);
        let width = buf.area_rect().width;
        let height = buf.area_rect().height;
        let mut i: usize = 0;
        while i < content.len()
            invariant
                i <= content@.len(),
                buf.wf(),
                buf.spec_area() == old(self).buffer.spec_area(),
                buf.links() == old(self).buffer.links(),
                width == buf.spec_area().width,
                height == buf.spec_area().height,
                buf.spec_area().x == 0 && buf.spec_area().y == 0,
                buf.cells() == drawn(old(self).buffer.cells(), width as int, height as int, content@.take(i as int)),
            decreases content@.len() - i,
        {
            let (x, y, cell) = content[i];
            assert(content@.take(i + 1).drop_last() =~= content@.take(i as int));
            if x < width && y < height {
                assert((y as int) * (width as int) + (x as int) < (width as int) * (height as int))
                    by (nonlinear_arith)
                    requires
                        x < width,
                        y < height,
                ;
                match buf.cell_mut(Position::new(x, y)) {
                    Some(c) => {
                        *c = cell.clone();
                    },
                    None => {},
                }
            }
            i = i + 1;
        }
        self.buffer = buf;
        assert(content@.take(content@.len() as int) =~= content@);
        Ok(())
    }

    /// Hides the cursor.
    fn hide_cursor(&mut self) -> (r: std::io::Result<()>)
        ensures
            r is Ok,
            final(self).screen() == old(self).screen(),
            final(self).cursor() == old(self).cursor(),
            !final(self).cursor_shown(),
            final(self).mouse_captured() == old(self).mouse_captured(),
    {
        proof {
            use_type_invariant(&*self);
        }
        self.cursor_visible = false;
        Ok(())
    }

    /// Shows the cursor.
    fn show_cursor(&mut self) -> (r: std::io::Result<()>)
        ensures
            r is Ok,
            final(self).screen() == old(self).screen(),
            final(self).cursor() == old(self).cursor(),
            final(self).cursor_shown(),
            final(self).mouse_captured() == old(self).mouse_captured(),
    {
        proof {
            use_type_invariant(&*self);
        }
        self.cursor_visible = true;
        Ok(())
    }

    /// Moves the cursor.
    fn set_cursor_position(&mut self, position: Position) -> (r: std::io::Result<()>)
        ensures
            r is Ok,
            final(self).screen() == old(self).screen(),
            final(self).cursor() == position,
            final(self).cursor_shown() == old(self).cursor_shown(),
            final(self).mouse_captured() == old(self).mouse_captured(),
    {
        proof {
            use_type_invariant(&*self);
        }
        self.cursor = position;
        Ok(())
    }

    /// Reports where the cursor was last put.
    fn get_cursor_position(&mut self) -> (r: std::io::Result<Position>)
        ensures
            r == Ok::<Position, std::io::Error>(old(self).cursor()),
            *final(self) == *old(self),
    {
        Ok(self.cursor)
    }

    /// Blanks the screen.
    fn clear(&mut self) -> (r: std::io::Result<()>)
        ensures
            r is Ok,
            final(self).screen().is_blank(old(self).screen().spec_area()),
            final(self).cursor() == old(self).cursor(),
            final(self).cursor_shown() == old(self).cursor_shown(),
            final(self).mouse_captured() == old(self).mouse_captured(),
    {
        proof {
            use_type_invariant(&*self);
        }
        let mut buf = Buffer::empty(Rect::new(0, 0, 0, 0));
        std::mem::swap(&mut buf, &mut self.buffer);
        buf.reset();
        self.buffer = buf;
        Ok(())
    }

    /// The size of the screen.
    fn size(&self) -> (r: std::io::Result<Size>)
        ensures
            r == Ok::<Size, std::io::Error>(
                Size { width: self.screen().spec_area().width, height: self.screen().spec_area().height },
            ),
    {
        Ok(Size::new(self.buffer.area_rect().width, self.buffer.area_rect().height))
    }

    /// Nothing is pending.
    fn flush(&mut self) -> (r: std::io::Result<()>)
        ensures
            r is Ok,
            *final(self) == *old(self),
    {
        Ok(())
    }

    /// Records that mouse events are captured.
    fn enable_mouse_capture(&mut self) -> (r: std::io::Result<()>)
        ensures
            r is Ok,
            final(self).screen() == old(self).screen(),
            final(self).cursor() == old(self).cursor(),
            final(self).cursor_shown() == old(self).cursor_shown(),
            final(self).mouse_captured(),
    {
        proof {
            use_type_invariant(&*self);
        }
        self.mouse_capture = true;
        Ok(())
    }

    /// Records that mouse events are no longer captured.
    fn disable_mouse_capture(&mut self) -> (r: std::io::Result<()>)
        ensures
            r is Ok,
            final(self).screen() == old(self).screen(),
            final(self).cursor() == old(self).cursor(),
            final(self).cursor_shown() == old(self).cursor_shown(),
            !final(self).mouse_captured(),
    {
        proof {
            use_type_invariant(&*self);
        }
        self.mouse_capture = false;
        Ok(())
    }

    /// Has no alternate screen; changes nothing.
    fn enter_alternate_screen(&mut self) -> (r: std::io::Result<()>)
        ensures
            r is Ok,
            *final(self) == *old(self),
    {
        Ok(())
    }

    /// Has no alternate screen; changes nothing.
    fn leave_alternate_screen(&mut self) -> (r: std::io::Result<()>)
        ensures
            r is Ok,
            *final(self) == *old(self),
    {
        Ok(())
    }

    /// Has no raw mode; changes nothing.
    fn enable_raw_mode(&mut self) -> (r: std::io::Result<()>)
        ensures
            r is Ok,
            *final(self) == *old(self),
    {
        Ok(())
    }

    /// Has no raw mode; changes nothing.
    fn disable_raw_mode(&mut self) -> (r: std::io::Result<()>)
        ensures
            r is Ok,
            *final(self) == *old(self),
    {
        Ok(())
    }
}

} // verus!
