//! Files of lines.
use crate::text::{
    append_chars, char_views, chars_eq, from_chars, lines, split_lines, to_chars, trim, trimmed,
};
use vstd::prelude::*;

verus! {

/// `rows`, each with a line break behind it, where every row that is
/// `pattern` once it is trimmed has been replaced by `replacement`.
pub open spec fn replaced_rows(
    rows: Seq<Seq<char>>,
    pattern: Seq<char>,
    replacement: Seq<char>,
) -> Seq<char>
    decreases rows.len(),
{
    if rows.len() == 0 {
        Seq::empty()
    } else {
        replaced_rows(rows.drop_last(), pattern, replacement) + if trim(rows.last())
            == pattern {
            replacement
        } else {
            rows.last()
        } + seq!['\n']
    }
}

/// The text of a file in which each line that is `pattern`, but for
/// whitespace around it, is replaced by `replacement`. Every line of the
/// result ends in a line break.
pub fn replace_matching_line(contents: &str, pattern: &str, replacement: &str) -> (r: String)
    ensures
        r@ == replaced_rows(lines(contents@), pattern@, replacement@),
{
    let rows = split_lines(&to_chars(contents));
    let wanted = to_chars(pattern);
    let new = to_chars(replacement);
    let ghost views = char_views(rows@);
    let mut out: Vec<char> = Vec::new();
    let mut k: usize = 0;
    assert(views.take(0) =~= Seq::<Seq<char>>::empty());
    while k < rows.len()
        invariant
            k <= rows.len(),
            views == char_views(rows@),
            wanted@ == pattern@,
            new@ == replacement@,
            out@ == replaced_rows(views.take(k as int), pattern@, replacement@),
        decreases rows.len() - k,
    {
        let ghost before = out@;
        proof {
            assert(views.take(k + 1).drop_last() =~= views.take(k as int));
            assert(views.take(k + 1).last() == rows@[k as int]@);
        }
        if chars_eq(&trimmed(&rows[k]), &wanted) {
            append_chars(&mut out, &new);
        } else {
            append_chars(&mut out, &rows[k]);
        }
        out.push('\n');
        assert(out@ =~= before + if trim(rows@[k as int]@) == pattern@ {
            replacement@
        } else {
            rows@[k as int]@
        } + seq!['\n']);
        k += 1;
    }
    assert(views.take(views.len() as int) =~= views);
    from_chars(&out)
}

} // verus!
