//! Terminal back ends and the escape sequences they emit.
//!
//! A back end writes styled cells to a terminal, moves and shows the cursor
//! and reports the terminal's size. The crossterm back end talks to a real
//! terminal; the test back end keeps everything in memory.
pub mod ansi;
pub mod crossterm_backend;
pub mod test;

use vstd::prelude::*;
use crate::base::cell::Cell;
use crate::base::rect::{Position, Size};

verus! {

/// What the renderer needs of a terminal.
///
/// Implementations decide for themselves what each operation does to the
/// device, so the trait promises nothing about it; the renderer's own
/// bookkeeping is verified independently of the back end in use.
pub trait Backend {
    /// Write changed cells, each with its position, to the terminal.
    fn draw(&mut self, content: &[(u16, u16, &Cell)]) -> std::io::Result<()>;

    /// Write changed cells, each with an optional hyperlink target.
    ///
    /// Back ends that cannot show hyperlinks inherit this default, which
    /// drops the targets and draws the cells as they are.
    fn draw_linked(&mut self, content: &[(u16, u16, &Cell, Option<&str>)]) -> std::io::Result<()> {
        let mut plain: Vec<(u16, u16, &Cell)> = Vec::new();
        let mut i: usize = 0;
        while i < content.len()
            invariant
                i <= content@.len(),
                plain@.len() == i,
            decreases content@.len() - i,
        {
            let (x, y, cell, _) = content[i];
            plain.push((x, y, cell));
            i = i + 1;
        }
        self.draw(plain.as_slice())
    }

    /// Hide the cursor.
    fn hide_cursor(&mut self) -> std::io::Result<()>;

    /// Show the cursor.
    fn show_cursor(&mut self) -> std::io::Result<()>;

    /// Move the cursor to a position.
    fn set_cursor_position(&mut self, position: Position) -> std::io::Result<()>;

    /// Where the cursor is.
    fn get_cursor_position(&mut self) -> std::io::Result<Position>;

    /// Clear the terminal.
    fn clear(&mut self) -> std::io::Result<()>;

    /// The terminal's size.
    fn size(&self) -> std::io::Result<Size>;

    /// Send out whatever is pending.
    fn flush(&mut self) -> std::io::Result<()>;

    /// Start reporting mouse events.
    fn enable_mouse_capture(&mut self) -> std::io::Result<()>;

    /// Stop reporting mouse events.
    fn disable_mouse_capture(&mut self) -> std::io::Result<()>;

    /// Switch to the alternate screen.
    fn enter_alternate_screen(&mut self) -> std::io::Result<()>;

    /// Switch back from the alternate screen.
    fn leave_alternate_screen(&mut self) -> std::io::Result<()>;

    /// Put the terminal in raw mode.
    fn enable_raw_mode(&mut self) -> std::io::Result<()>;

    /// Take the terminal out of raw mode.
    fn disable_raw_mode(&mut self) -> std::io::Result<()>;

    /// Mark pasted text; a no-op unless the back end supports it.
    fn enable_bracketed_paste(&mut self) -> (r: std::io::Result<()>)
        default_ensures
            r is Ok,
    {
        Ok(())
    }

    /// Stop marking pasted text; a no-op unless the back end supports it.
    fn disable_bracketed_paste(&mut self) -> (r: std::io::Result<()>)
        default_ensures
            r is Ok,
    {
        Ok(())
    }

    /// Begin synchronized output: what follows, up to `end_sync`, is shown
    /// at once. A no-op unless the back end supports it.
    fn begin_sync(&mut self) -> (r: std::io::Result<()>)
        default_ensures
            r is Ok,
    {
        Ok(())
    }

    /// End synchronized output; a no-op unless the back end supports it.
    fn end_sync(&mut self) -> (r: std::io::Result<()>)
        default_ensures
            r is Ok,
    {
        Ok(())
    }
}

} // verus!
