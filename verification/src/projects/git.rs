//! Repositories and paths inside them.
use crate::paths::{join, join_paths};
use crate::text::{from_chars, to_chars};
use vstd::prelude::*;

verus! {

/// A repository to clone: where it comes from, the branch to check out, if
/// one is named, and where it goes.
pub struct SimpleRepo {
    pub url: String,
    pub branch: Option<String>,
    pub destination: String,
}

/// The path `partial_path` below the root of the repository, where the
/// working directory lies in one.
pub fn from_root(root: Option<&str>, partial_path: &str) -> (r: Option<String>)
    ensures
        r is Some == root is Some,
        r is Some ==> r->0@ == join(root->0@, partial_path@),
{
    match root {
        Some(root) => Some(from_chars(&join_paths(&to_chars(root), &to_chars(partial_path)))),
        None => None,
    }
}

} // verus!
