//! Scripts before they are run.
use crate::text::{
    char_views, from_chars, join_chars, joined, lines, split_lines, subvec, to_chars, trim,
    trimmed,
};
use vstd::prelude::*;

verus! {

/// Whether a line is a comment: its first character that is no whitespace
/// is `#`.
pub open spec fn is_comment(line: Seq<char>) -> bool {
    trim(line).len() > 0 && trim(line)[0] == '#'
}

/// The lines of a script that are no comments, with a line break between
/// them.
pub open spec fn without_comments(script: Seq<char>) -> Seq<char> {
    joined(lines(script).filter(|l: Seq<char>| !is_comment(l)), seq!['\n'])
}

/// Removes from a script the lines that begin with `#`, the line with the
/// interpreter among them.
pub fn remove_comment_lines(s: &str) -> (r: String)
    ensures
        r@ == without_comments(s@),
{
    let all = split_lines(&to_chars(s));
    let ghost views = char_views(all@);
    let ghost wanted = |l: Seq<char>| !is_comment(l);
    let mut kept: Vec<Vec<char>> = Vec::new();
    let mut k: usize = 0;
    assert(views.take(0).filter(wanted) =~= Seq::<Seq<char>>::empty()) by {
        assert(views.take(0) =~= Seq::<Seq<char>>::empty());
    }
    assert(char_views(kept@) =~= Seq::<Seq<char>>::empty());
    while k < all.len()
        invariant
            k <= all.len(),
            views == char_views(all@),
            wanted == |l: Seq<char>| !is_comment(l),
            char_views(kept@) == views.take(k as int).filter(wanted),
        decreases all.len() - k,
    {
        let ghost before = char_views(kept@);
        proof {
            assert(views.take(k + 1) =~= views.take(k as int).push(views[k as int]));
            views.take(k as int).lemma_filter_push(views[k as int], wanted);
            assert(views[k as int] == all@[k as int]@);
        }
        let text = trimmed(&all[k]);
        if !(text.len() > 0 && text[0] == '#') {
            assert(all@[k as int]@ =~= all@[k as int]@.subrange(0, all@[k as int]@.len() as int));
            kept.push(subvec(&all[k], 0, all[k].len()));
            assert(char_views(kept@) =~= before.push(views[k as int]));
        }
        k += 1;
    }
    assert(views.take(views.len() as int) =~= views);
    let newline: Vec<char> = vec!['\n'];
    assert(newline@ =~= seq!['\n']);
    from_chars(&join_chars(&kept, &newline))
}

} // verus!
