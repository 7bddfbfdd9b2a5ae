//! The semantic roles a widget can play.
use vstd::prelude::*;
use crate::base::chars::string_push_str;
use crate::testing::{decimal, push_decimal};

verus! {

/// The purpose a widget serves, for finding one by what it does.
#[derive(Debug, Clone, Copy, PartialEq, Eq, Hash, Structural)]
pub enum SemanticRole {
    /// Displays text or data to the user (read-only).
    Display,
    /// Accepts user input (text fields, checkboxes, etc.).
    Input,
    /// Provides navigation between views or sections.
    Navigation,
    /// Contains and arranges other widgets.
    Container,
    /// Indicates progress or loading state.
    Progress,
    /// Displays a selection from a set of options.
    Selection,
    /// Provides interactive data visualization.
    DataVisualization,
    /// A decorative or structural element (borders, spacers).
    Decoration,
    /// An interactive button or action trigger.
    Action,
    /// A scrollable region.
    Scrollable,
    /// A modal dialog or overlay.
    Modal,
    /// A menu or dropdown.
    Menu,
    /// A toolbar or action bar.
    Toolbar,
    /// A status bar or info display.
    StatusBar,
    /// Custom role with a numeric tag.
    Custom(u16),
}

/// The name of a role: lowercase, words joined by `-`, a custom role as
/// `custom-` and its tag.
pub open spec fn role_name(r: SemanticRole) -> Seq<char> {
    match r {
        SemanticRole::Display => "display"@,
        SemanticRole::Input => "input"@,
        SemanticRole::Navigation => "navigation"@,
        SemanticRole::Container => "container"@,
        SemanticRole::Progress => "progress"@,
        SemanticRole::Selection => "selection"@,
        SemanticRole::DataVisualization => "data-visualization"@,
        SemanticRole::Decoration => "decoration"@,
        SemanticRole::Action => "action"@,
        SemanticRole::Scrollable => "scrollable"@,
        SemanticRole::Modal => "modal"@,
        SemanticRole::Menu => "menu"@,
        SemanticRole::Toolbar => "toolbar"@,
        SemanticRole::StatusBar => "status-bar"@,
        SemanticRole::Custom(id) => "custom-"@ + decimal(id as nat),
    }
}

impl SemanticRole {
    /// The role's name, as it is shown to agents.
    pub fn label(&self) -> (r: String)
        ensures
            r@ == role_name(*self),
    {
        let mut out = String::new();
        match self {
            SemanticRole::Display => string_push_str(&mut out, "display"),
            SemanticRole::Input => string_push_str(&mut out, "input"),
            SemanticRole::Navigation => string_push_str(&mut out, "navigation"),
            SemanticRole::Container => string_push_str(&mut out, "container"),
            SemanticRole::Progress => string_push_str(&mut out, "progress"),
            SemanticRole::Selection => string_push_str(&mut out, "selection"),
            SemanticRole::DataVisualization => string_push_str(&mut out, "data-visualization"),
            SemanticRole::Decoration => string_push_str(&mut out, "decoration"),
            SemanticRole::Action => string_push_str(&mut out, "action"),
            SemanticRole::Scrollable => string_push_str(&mut out, "scrollable"),
            SemanticRole::Modal => string_push_str(&mut out, "modal"),
            SemanticRole::Menu => string_push_str(&mut out, "menu"),
            SemanticRole::Toolbar => string_push_str(&mut out, "toolbar"),
            SemanticRole::StatusBar => string_push_str(&mut out, "status-bar"),
            SemanticRole::Custom(id) => {
                string_push_str(&mut out, "custom-");
                push_decimal(&mut out, *id as usize);
            },
        }
        assert(out@ =~= role_name(*self));
        out
    }
}

} // verus!
