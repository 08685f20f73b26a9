//! File formats.
pub mod text;
pub mod yaml;
