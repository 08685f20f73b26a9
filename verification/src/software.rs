//! Programs to install and to check.
pub mod definitions;
pub mod doctor;
