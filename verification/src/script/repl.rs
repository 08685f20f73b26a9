//! What the prompt offers to complete a line with.
use crate::text::{matches_at, occurs_at, to_chars};
use vstd::prelude::*;
use vstd::string::StringSliceAdditionalSpecFns;
use vstd::utf8::{encode_utf8, is_char_boundary};

verus! {

/// Whether the command `command` is offered for the line `line`: it begins
/// with the line.
pub open spec fn is_offered(command: Seq<char>, line: Seq<char>) -> bool {
    occurs_at(command, line, 0)
}

/// The commands among `commands` that are offered for `line`, in order.
pub open spec fn offered(commands: Seq<String>, line: Seq<char>) -> Seq<String> {
    commands.filter(|c: String| is_offered(c@, line))
}

/// The candidates for the line `line` with the cursor at byte `pos`: each
/// command that begins with the line, as the text to show and the text to
/// put in, which is the command from byte `pos` on.
///
/// `pos` has to lie between two characters of each command that is offered.
pub fn completions(commands: &Vec<String>, line: &str, pos: usize) -> (found: Vec<
    (String, String),
>)
    requires
        forall|k: int|
            0 <= k < commands@.len() && is_offered((#[trigger] commands@[k])@, line@)
                ==> is_char_boundary(encode_utf8(commands@[k]@), pos as int),
    ensures
        found@.len() == offered(commands@, line@).len(),
        forall|j: int|
            0 <= j < found@.len() ==> {
                &&& (#[trigger] found@[j]).0@ == offered(commands@, line@)[j]@
                &&& encode_utf8(found@[j].1@) == encode_utf8(found@[j].0@).skip(pos as int)
            },
{
    let typed = to_chars(line);
    let ghost wanted = |c: String| is_offered(c@, line@);
    let mut found: Vec<(String, String)> = Vec::new();
    let mut k: usize = 0;
    assert(commands@.take(0).filter(wanted) =~= Seq::<String>::empty()) by {
        assert(commands@.take(0) =~= Seq::<String>::empty());
    }
    while k < commands.len()
        invariant
            k <= commands.len(),
            typed@ == line@,
            wanted == |c: String| is_offered(c@, line@),
            forall|i: int|
                0 <= i < commands@.len() && is_offered((#[trigger] commands@[i])@, line@)
                    ==> is_char_boundary(encode_utf8(commands@[i]@), pos as int),
            found@.len() == commands@.take(k as int).filter(wanted).len(),
            forall|j: int|
                0 <= j < found@.len() ==> {
                    &&& (#[trigger] found@[j]).0@ == commands@.take(k as int).filter(wanted)[j]@
                    &&& encode_utf8(found@[j].1@) == encode_utf8(found@[j].0@).skip(pos as int)
                },
        decreases commands.len() - k,
    {
        proof {
            assert(commands@.take(k + 1) =~= commands@.take(k as int).push(commands@[k as int]));
            commands@.take(k as int).lemma_filter_push(commands@[k as int], wanted);
        }
        let command = &commands[k];
        if matches_at(&to_chars(command.as_str()), &typed, 0) {
            let whole = command.as_str();
            assert(whole.spec_bytes() == encode_utf8(command@));
            let (_, rest) = whole.split_at(pos);
            assert(rest.spec_bytes() =~= whole.spec_bytes().skip(pos as int));
            found.push((command.clone(), rest.to_owned()));
        }
        k += 1;
    }
    assert(commands@.take(commands@.len() as int) =~= commands@);
    found
}

} // verus!
