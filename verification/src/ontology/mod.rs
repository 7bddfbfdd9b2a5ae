//! Agent discoverability: the authoring catalog of the toolkit's types, the
//! readable reports built from it, and the vocabulary (roles, parameter
//! types, node bounds) agents use to describe a running interface.
pub mod action;
pub mod api;
pub mod listing;
pub mod registry;
pub mod report;
pub mod schema;

pub use action::ActionParamType;
pub use registry::NodeBounds;
pub use schema::SemanticRole;
