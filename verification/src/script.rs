//! The scripting engine, as far as it works on text.
pub mod engine;
pub mod repl;
