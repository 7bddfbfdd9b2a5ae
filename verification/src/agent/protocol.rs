//! The messages agents exchange with an application.
use vstd::prelude::*;

verus! {

/// The current protocol version.
///
/// Agents should check this value in the ping response to verify
/// compatibility. It is incremented when breaking changes are made to the
/// protocol format.
pub const PROTOCOL_VERSION: u32 = 1;

/// An event injected by an agent into the application.
#[derive(Debug, Clone, PartialEq, Eq)]
pub enum InjectedEvent {
    /// A key press: a key name and modifier names.
    Key { code: String, modifiers: Vec<String> },
    /// A mouse click at a cell, with a button name.
    MouseClick { x: u16, y: u16, button: String },
    /// Pasted text.
    Paste { text: String },
    /// A terminal resize.
    Resize { width: u16, height: u16 },
}

} // verus!
