//! Rewrites a detector's inference configuration so that only one object
//! class stays visible.
pub mod text;
pub mod filter;
pub mod laws;
pub mod labels;
pub mod pipeline;
