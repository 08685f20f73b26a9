//! Credentials, secrets and backups.
pub mod authinfo;
pub mod backup;
pub mod secrets;
