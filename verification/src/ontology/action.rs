//! The types of the parameters an agent passes to a widget action.
use vstd::prelude::*;

verus! {

/// Type of an action parameter.
#[derive(Debug, Clone, PartialEq, Eq)]
pub enum ActionParamType {
    String,
    Integer,
    Float,
    Boolean,
    Index,
    Position { x: bool, y: bool },
    Enum(Vec<String>),
    Any,
}

} // verus!
