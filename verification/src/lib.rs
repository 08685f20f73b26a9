//! A compiler for a knowledge base of markdown notes: wikilinks, backlinks,
//! front matter, link rewriting and the plan of a published site; and the
//! parts of a few tools around it that compute rather than act.
pub mod admin;
pub mod db;
pub mod formats;
pub mod k8s;
pub mod notes;
pub mod paths;
pub mod projects;
pub mod script;
pub mod software;
pub mod system;
pub mod tasks;
pub mod text;
