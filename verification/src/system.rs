//! Commands and paths of the machine, as far as they can be computed without
//! running or reading anything.
use crate::paths::{join, join_paths};
use crate::text::{char_views, from_chars, split, split_chars, to_chars};
use vstd::prelude::*;

verus! {

/// The views of a sequence of strings.
pub open spec fn text_views(v: Seq<String>) -> Seq<Seq<char>> {
    v.map_values(|s: String| s@)
}

/// Turns vectors of characters into strings.
pub fn to_strings(items: &Vec<Vec<char>>) -> (r: Vec<String>)
    ensures
        text_views(r@) == char_views(items@),
{
    let mut out: Vec<String> = Vec::new();
    let mut k: usize = 0;
    while k < items.len()
        invariant
            k <= items.len(),
            out@.len() == k,
            forall|j: int| 0 <= j < k ==> (#[trigger] out@[j])@ == items@[j]@,
        decreases items.len() - k,
    {
        out.push(from_chars(&items[k]));
        k += 1;
    }
    assert(text_views(out@) =~= char_views(items@));
    out
}

/// The words of a command line: what stands between its single spaces. The
/// first is the program, the others are its arguments; two spaces in a row
/// have an empty argument between them.
pub fn command_tokens(command: &str) -> (tokens: Vec<String>)
    ensures
        text_views(tokens@) == split(command@, ' '),
        tokens@.len() > 0,
{
    let pieces = split_chars(&to_chars(command), ' ');
    let tokens = to_strings(&pieces);
    assert(text_views(tokens@).len() == tokens@.len());
    tokens
}

/// The files that may be the program `program`: one in each directory of
/// the search path `path`, whose directories stand between colons.
pub open spec fn candidates(path: Seq<char>, program: Seq<char>) -> Seq<Seq<char>> {
    split(path, ':').map_values(|dir: Seq<char>| dir + seq!['/'] + program)
}

/// The files to look at in order to find `program` on the search path.
pub fn path_candidates(path: &str, program: &str) -> (files: Vec<String>)
    ensures
        text_views(files@) == candidates(path@, program@),
{
    let dirs = split_chars(&to_chars(path), ':');
    let name = to_chars(program);
    let mut files: Vec<String> = Vec::new();
    let mut k: usize = 0;
    while k < dirs.len()
        invariant
            k <= dirs.len(),
            name@ == program@,
            char_views(dirs@) == split(path@, ':'),
            files@.len() == k,
            forall|j: int|
                0 <= j < k ==> (#[trigger] files@[j])@ == dirs@[j]@ + seq!['/'] + program@,
        decreases dirs.len() - k,
    {
        let mut file: Vec<char> = Vec::new();
        crate::text::append_chars(&mut file, &dirs[k]);
        file.push('/');
        crate::text::append_chars(&mut file, &name);
        assert(file@ =~= dirs@[k as int]@ + seq!['/'] + program@);
        files.push(from_chars(&file));
        k += 1;
    }
    assert(text_views(files@) =~= candidates(path@, program@)) by {
        assert(forall|j: int|
            0 <= j < dirs@.len() ==> dirs@[j]@ == (#[trigger] char_views(dirs@)[j]));
    }
    files
}

/// The path `partial_path` below the home directory, where there is one.
pub fn from_home(home_dir: Option<&str>, partial_path: &str) -> (r: Option<String>)
    ensures
        r is Some == home_dir is Some,
        r is Some ==> r->0@ == join(home_dir->0@, partial_path@),
{
    match home_dir {
        Some(home) => Some(from_chars(&join_paths(&to_chars(home), &to_chars(partial_path)))),
        None => None,
    }
}

} // verus!
