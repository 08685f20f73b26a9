//! Tasks.
pub mod todoist;
