//! The rendering interface that widgets implement.
use vstd::prelude::*;
use crate::base::buffer::Buffer;
use crate::base::rect::Rect;

verus! {

/// Something that draws itself into an area of a buffer.
pub trait Widget: Sized {
    /// Draw into `area` of `buf`. Rendering keeps the buffer well-formed and
    /// over the same area.
    fn render(self, area: Rect, buf: &mut Buffer)
        requires
            old(buf).wf(),
        ensures
            final(buf).wf(),
            final(buf).spec_area() == old(buf).spec_area(),
    ;
}

/// Something that draws itself into an area of a buffer, reading and
/// updating a state value that outlives the frame (a selection, a scroll
/// offset).
pub trait StatefulWidget: Sized {
    /// The state kept between frames.
    type State;

    /// Draw into `area` of `buf`, reading and updating `state`. Rendering
    /// keeps the buffer well-formed and over the same area.
    fn render(self, area: Rect, buf: &mut Buffer, state: &mut Self::State)
        requires
            old(buf).wf(),
        ensures
            final(buf).wf(),
            final(buf).spec_area() == old(buf).spec_area(),
    ;
}

} // verus!
