//! Where the virtual environment of a project lies.
use crate::paths::{file_name, file_name_of, join, join_paths};
use crate::text::{from_chars, to_chars};
use vstd::prelude::*;

verus! {

/// The virtual environment of a project: the name of the project, where the
/// environment lies, the root of the project, and the file that lists what
/// the project needs.
#[derive(Debug)]
pub struct VirtualEnv {
    pub name: String,
    pub location: String,
    pub root: String,
    pub requirements: String,
}

/// The virtual environment of the project with the root `root`, for the home
/// directory `home`: it is named after the last part of the root and lies
/// under that name in `.virtualenvs` below the home directory; what the
/// project needs is listed in `requirements.txt` below the root.
pub fn get_venv_info(root: &str, home: &str) -> (venv: VirtualEnv)
    ensures
        venv.root@ == root@,
        venv.name@ == file_name(root@),
        venv.requirements@ == join(root@, "requirements.txt"@),
        venv.location@ == join(join(home@, ".virtualenvs"@), file_name(root@)),
{
    let base = to_chars(root);
    let name = file_name_of(&base);
    let requirements = join_paths(&base, &to_chars("requirements.txt"));
    let all = join_paths(&to_chars(home), &to_chars(".virtualenvs"));
    let location = join_paths(&all, &name);
    VirtualEnv {
        name: from_chars(&name),
        location: from_chars(&location),
        root: root.to_owned(),
        requirements: from_chars(&requirements),
    }
}

} // verus!
