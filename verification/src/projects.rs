//! Projects under version control.
pub mod git;
pub mod venv;
