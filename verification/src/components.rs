//! The state of the parts of the editor's window, as far as it is plain
//! data: what a button is, what a message says.

pub mod app;
pub mod close_button;
pub mod main_layout;
pub mod modal;
pub mod pop_up;
pub mod sidebar;

pub use app::GlobalMessage;
pub use close_button::CloseButton;
