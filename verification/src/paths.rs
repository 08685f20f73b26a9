//! Paths as text, with `/` between their parts.
use crate::text::{append_chars, last_index, rfind_char, subvec};
use vstd::prelude::*;

verus! {

/// The last part of a path: what follows its last `/`, or all of it.
pub open spec fn file_name(path: Seq<char>) -> Seq<char> {
    match last_index(path, '/') {
        Some(i) => path.skip(i + 1),
        None => path,
    }
}

/// Where the extension of a file name is split off: the index of its last
/// `.`, unless the name holds none or only begins with one.
pub open spec fn extension_dot(name: Seq<char>) -> Option<int> {
    match last_index(name, '.') {
        Some(i) => if i > 0 {
            Some(i)
        } else {
            None
        },
        None => None,
    }
}

/// A file name without its extension.
pub open spec fn file_stem(name: Seq<char>) -> Seq<char> {
    match extension_dot(name) {
        Some(i) => name.take(i),
        None => name,
    }
}

/// The extension of a path's file name, if it has one.
pub open spec fn path_extension(path: Seq<char>) -> Option<Seq<char>> {
    let name = file_name(path);
    match extension_dot(name) {
        Some(i) => Some(name.skip(i + 1)),
        None => None,
    }
}

/// `rel` below the directory `base`. A `rel` that begins with `/` stands for
/// itself, and so does any `rel` below the empty path.
pub open spec fn join(base: Seq<char>, rel: Seq<char>) -> Seq<char> {
    if rel.len() > 0 && rel[0] == '/' {
        rel
    } else if base.len() == 0 {
        rel
    } else if base.last() == '/' {
        base + rel
    } else {
        base + seq!['/'] + rel
    }
}

/// The last part of a path.
pub fn file_name_of(path: &Vec<char>) -> (r: Vec<char>)
    ensures
        r@ == file_name(path@),
{
    match rfind_char(path, '/') {
        Some(i) => {
            assert(path@.skip(i + 1) =~= path@.subrange(i + 1, path@.len() as int));
            subvec(path, i + 1, path.len())
        },
        None => {
            assert(path@ =~= path@.subrange(0, path@.len() as int));
            subvec(path, 0, path.len())
        },
    }
}

/// The index of the `.` before the extension of a file name.
pub fn extension_dot_of(name: &Vec<char>) -> (r: Option<usize>)
    ensures
        match r {
            Some(i) => extension_dot(name@) == Some(i as int) && 0 < i < name.len(),
            None => extension_dot(name@) is None,
        },
{
    match rfind_char(name, '.') {
        Some(i) => if i > 0 {
            Some(i)
        } else {
            None
        },
        None => None,
    }
}

/// A file name without its extension.
pub fn file_stem_of(name: &Vec<char>) -> (r: Vec<char>)
    ensures
        r@ == file_stem(name@),
{
    match extension_dot_of(name) {
        Some(i) => {
            assert(name@.take(i as int) =~= name@.subrange(0, i as int));
            subvec(name, 0, i)
        },
        None => {
            assert(name@ =~= name@.subrange(0, name@.len() as int));
            subvec(name, 0, name.len())
        },
    }
}

/// The extension of a path's file name.
pub fn path_extension_of(path: &Vec<char>) -> (r: Option<Vec<char>>)
    ensures
        match r {
            Some(e) => path_extension(path@) == Some(e@),
            None => path_extension(path@) is None,
        },
{
    let name = file_name_of(path);
    match extension_dot_of(&name) {
        Some(i) => {
            assert(name@.skip(i + 1) =~= name@.subrange(i + 1, name@.len() as int));
            Some(subvec(&name, i + 1, name.len()))
        },
        None => None,
    }
}

/// `rel` below the directory `base`.
pub fn join_paths(base: &Vec<char>, rel: &Vec<char>) -> (r: Vec<char>)
    ensures
        r@ == join(base@, rel@),
{
    let mut out: Vec<char> = Vec::new();
    if rel.len() > 0 && rel[0] == '/' {
        append_chars(&mut out, rel);
        assert(out@ =~= rel@);
    } else if base.len() == 0 {
        append_chars(&mut out, rel);
        assert(out@ =~= rel@);
    } else if base[base.len() - 1] == '/' {
        append_chars(&mut out, base);
        append_chars(&mut out, rel);
        assert(out@ =~= base@ + rel@);
    } else {
        append_chars(&mut out, base);
        out.push('/');
        append_chars(&mut out, rel);
        assert(out@ =~= base@ + seq!['/'] + rel@);
    }
    out
}

} // verus!
