//! Local clusters.
pub mod kind;
