//! Replicated sets. The one variant here is the grow-only set, whose only
//! mutation is insertion.

pub mod gset;

pub use gset::GSet;
pub use gset::GSetOp;
