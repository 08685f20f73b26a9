//! Programs that a machine should have, and how they get there.
use crate::system::text_views;
use crate::text::{append_chars, from_chars, to_chars};
use vstd::prelude::*;

verus! {

/// A program: its name, the file that runs it, the programs to install
/// before it, and the commands that install it on each system.
pub struct Component {
    pub name: String,
    pub executable: String,
    pub dependencies: Option<Vec<Component>>,
    pub install_darwin: Vec<String>,
    pub install_linux: Vec<String>,
}

/// What installing and checking a program comes to.
pub trait Installation {
    /// The commands that install the program on the system `os`, in the
    /// order in which they are run.
    fn install(&self, os: &str) -> Vec<String>;

    /// The line that says whether the program is installed.
    fn check_install(&self, found: bool) -> String;
}

/// The commands that install all of `components` on macOS, one component
/// after the other.
pub open spec fn plans(components: Seq<Component>) -> Seq<Seq<char>>
    decreases components,
{
    if components.len() == 0 {
        Seq::empty()
    } else {
        plans(components.drop_last()) + plan(components.last())
    }
}

/// The commands that install `component` on macOS: those of the programs it
/// depends on, then its own.
pub open spec fn plan(component: Component) -> Seq<Seq<char>>
    decreases component,
{
    let first: Seq<Seq<char>> = match component.dependencies {
        Some(needed) => plans(needed@),
        None => Seq::empty(),
    };
    first + text_views(component.install_darwin@)
}

/// The commands that install `component` on the system `os`: its plan on
/// macOS, nothing on any other system.
pub open spec fn install_commands(component: Component, os: Seq<char>) -> Seq<Seq<char>> {
    if os == "macos"@ {
        plan(component)
    } else {
        Seq::empty()
    }
}

/// The line that says whether the program `name` is installed.
pub open spec fn check_line(name: Seq<char>, found: bool) -> Seq<char> {
    if found {
        "✅ "@ + name + " is installed"@
    } else {
        "❌ "@ + name + " is not installed"@
    }
}

/// Appends copies of the strings of `more` to `out`.
fn extend_strings(out: &mut Vec<String>, more: &Vec<String>)
    ensures
        text_views(final(out)@) == text_views(old(out)@) + text_views(more@),
{
    let mut k: usize = 0;
    while k < more.len()
        invariant
            k <= more.len(),
            text_views(out@) == text_views(old(out)@) + text_views(more@).take(k as int),
        decreases more.len() - k,
    {
        let ghost before = text_views(out@);
        out.push(more[k].clone());
        assert(text_views(out@) =~= before.push(more@[k as int]@));
        assert(text_views(more@).take(k + 1) =~= text_views(more@).take(k as int).push(
            more@[k as int]@,
        ));
        k += 1;
    }
    assert(text_views(more@).take(more@.len() as int) =~= text_views(more@));
}

/// The commands that install `component` on macOS.
fn plan_of(component: &Component) -> (commands: Vec<String>)
    ensures
        text_views(commands@) == plan(*component),
    decreases component,
{
    let mut commands: Vec<String> = Vec::new();
    match &component.dependencies {
        Some(needed) => {
            let mut k: usize = 0;
            assert(needed@.take(0) =~= Seq::<Component>::empty());
            while k < needed.len()
                invariant
                    k <= needed.len(),
                    decreases_to!(*component => *needed),
                    text_views(commands@) == plans(needed@.take(k as int)),
                decreases needed.len() - k,
            {
                proof {
                    assert(needed@.take(k + 1).drop_last() =~= needed@.take(k as int));
                    assert(needed@.take(k + 1).last() == needed@[k as int]);
                    assert(decreases_to!(*needed => needed[k as int]));
                }
                let more = plan_of(&needed[k]);
                extend_strings(&mut commands, &more);
                k += 1;
            }
            assert(needed@.take(needed@.len() as int) =~= needed@);
        },
        None => {},
    }
    extend_strings(&mut commands, &component.install_darwin);
    commands
}

impl Installation for Component {
    fn install(&self, os: &str) -> (commands: Vec<String>)
        ensures
            text_views(commands@) == install_commands(*self, os@),
    {
        if crate::text::chars_eq(&to_chars(os), &to_chars("macos")) {
            plan_of(self)
        } else {
            Vec::new()
        }
    }

    fn check_install(&self, found: bool) -> (line: String)
        ensures
            line@ == check_line(self.name@, found),
    {
        let mut out: Vec<char> = Vec::new();
        if found {
            append_chars(&mut out, &to_chars("✅ "));
            append_chars(&mut out, &to_chars(self.name.as_str()));
            append_chars(&mut out, &to_chars(" is installed"));
        } else {
            append_chars(&mut out, &to_chars("❌ "));
            append_chars(&mut out, &to_chars(self.name.as_str()));
            append_chars(&mut out, &to_chars(" is not installed"));
        }
        assert(out@ =~= check_line(self.name@, found));
        from_chars(&out)
    }
}

} // verus!
