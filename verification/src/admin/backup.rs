//! Backups.
pub mod kopia;
