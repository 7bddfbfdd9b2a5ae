//! Small general-purpose helpers.
pub mod undo;
pub mod fuzzy;
