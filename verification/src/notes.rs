//! The compiler of markdown notes.
pub mod backlinks;
pub mod humble;
pub mod images;
pub mod laws;
pub mod markdown;
pub mod scan;
pub mod site;
pub mod site_laws;
