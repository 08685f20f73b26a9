//! A report on the programs of this machine.
use crate::software::definitions::{check_line, Component, Installation};
use crate::system::text_views;
use vstd::prelude::*;

verus! {

/// The report on `components`, of which `found` says which ones are
/// installed: one line for each component.
pub open spec fn report(components: Seq<Component>, found: Seq<bool>) -> Seq<Seq<char>> {
    Seq::new(components.len(), |k: int| check_line(components[k].name@, found[k]))
}

/// Says of each component whether it is installed. `found` holds, for each
/// component in order, whether its program was found on the search path.
pub fn doctor(components: &Vec<Component>, found: &Vec<bool>) -> (lines: Vec<String>)
    requires
        found@.len() == components@.len(),
    ensures
        text_views(lines@) == report(components@, found@),
{
    let mut lines: Vec<String> = Vec::new();
    let mut k: usize = 0;
    while k < components.len()
        invariant
            k <= components.len(),
            found@.len() == components@.len(),
            lines@.len() == k,
            forall|j: int|
                0 <= j < k ==> (#[trigger] lines@[j])@ == check_line(
                    components@[j].name@,
                    found@[j],
                ),
        decreases components.len() - k,
    {
        lines.push(components[k].check_install(found[k]));
        k += 1;
    }
    assert(text_views(lines@) =~= report(components@, found@));
    lines
}

} // verus!
