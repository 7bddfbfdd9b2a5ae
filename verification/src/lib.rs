//! A terminal user-interface toolkit whose rendering core — geometry, styles,
//! cell buffers, text reflow, layout and escape-sequence encoding — is
//! specified and proved with Verus.
pub mod agent;
pub mod animation;
pub mod backend;
pub mod base;
pub mod event;
pub mod focus;
pub mod layout;
pub mod ontology;
pub mod overlay;
pub mod runtime;
pub mod terminal;
pub mod testing;
pub mod theme;
pub mod util;
pub mod widget;

use vstd::prelude::*;

verus! {

} // verus!
