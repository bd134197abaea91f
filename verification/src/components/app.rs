use super::{main_layout, sidebar};
use crate::opetope;
use vstd::prelude::*;

verus! {

/// Every message that runs through the editor.
#[derive(Debug, Clone, PartialEq, Eq)]
pub enum GlobalMessage {
    Sidebar(sidebar::Message),
    Opetope(opetope::Message),
    Layout(main_layout::Message),
    FocusNext,
    Ticked,
    Idle,
}

impl Default for GlobalMessage {
    fn default() -> (message: Self)
        ensures
            message is Idle,
    {
        GlobalMessage::Idle
    }
}

} // verus!
