//! The schema of the database, as text.
use crate::system::{text_views, to_strings};
use crate::text::{split_by, split_text, to_chars};
use vstd::prelude::*;

verus! {

/// The statements of a schema: the pieces of its text between lines of three
/// dashes.
pub fn get_sql_schema(tables: &str) -> (statements: Vec<String>)
    ensures
        text_views(statements@) == split_by(tables@, "---"@),
{
    let pieces = split_text(&to_chars(tables), &to_chars("---"));
    to_strings(&pieces)
}

} // verus!
