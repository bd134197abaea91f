//! Versioned containers, and how a view is to be rendered.

pub mod aging_vec;
pub mod control;
pub mod tracing_tree;
pub mod tracing_vec;
pub mod versioned_vec;

pub use control::Render;
