//! An editor core for opetopes: layered diagrams whose cells are bounded by
//! cells of the layer beneath, built on a versioned container whose indices
//! stay resolvable across edits.

pub mod components;
pub mod model;
pub mod opetope;
pub mod utils;
