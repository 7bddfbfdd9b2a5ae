//! Rendering primitives: rectangles, styles, cells, symbols, text and buffers.
pub mod rect;
pub mod style;
pub mod chars;
pub mod unicode;
pub mod segment;
pub mod symbol;
pub mod cell;
pub mod buffer;
pub mod text;
pub mod reflow;
