//! Spans and blocks between two marks.
//!
//! A span opens where the opening mark stands and closes at the nearest
//! closing mark after it, provided no line break stands in between. This is
//! how wikilinks (`[[` to `]]`) and embedded images (`![[` to `]]`) are found
//! in a text. A block is the same without the proviso: it may run over
//! lines. This is how pieces of code, from three backticks to three
//! backticks, are found.
use crate::text::{matches_at, occurs_at};
use vstd::prelude::*;

verus! {

/// `close` stands at `e`, and between `from` and `e` there is neither a line
/// break nor an earlier place where `close` stands.
pub open spec fn closes_at(s: Seq<char>, close: Seq<char>, from: int, e: int) -> bool {
    &&& from <= e
    &&& occurs_at(s, close, e)
    &&& forall|j: int|
        #![trigger s[j]]
        #![trigger occurs_at(s, close, j)]
        from <= j < e ==> s[j] != '\n' && !occurs_at(s, close, j)
}

/// Where the span that starts at `from` closes, if it does.
pub open spec fn lazy_close(s: Seq<char>, close: Seq<char>, from: int) -> Option<int> {
    if exists|e: int| closes_at(s, close, from, e) {
        Some(choose|e: int| closes_at(s, close, from, e))
    } else {
        None
    }
}

/// The span that opens at `i`: the indices at which its inside starts and
/// ends. The span itself ends `close.len()` characters later.
pub open spec fn span_at(s: Seq<char>, open: Seq<char>, close: Seq<char>, i: int) -> Option<
    (int, int),
> {
    if occurs_at(s, open, i) {
        match lazy_close(s, close, i + open.len()) {
            Some(e) => Some((i + open.len(), e)),
            None => None,
        }
    } else {
        None
    }
}

/// A span closes at one place only.
pub proof fn lemma_lazy_close(s: Seq<char>, close: Seq<char>, from: int, e: int)
    requires
        closes_at(s, close, from, e),
    ensures
        lazy_close(s, close, from) == Some(e),
{
    let f = choose|f: int| closes_at(s, close, from, f);
    assert(closes_at(s, close, from, f));
    if f < e {
        assert(!occurs_at(s, close, f));
    }
    if e < f {
        assert(!occurs_at(s, close, e));
    }
}

/// What `lazy_close` returns is a place where the span closes.
pub proof fn lemma_lazy_close_some(s: Seq<char>, close: Seq<char>, from: int)
    requires
        lazy_close(s, close, from) is Some,
    ensures
        closes_at(s, close, from, lazy_close(s, close, from)->0),
{
}

/// A span lies inside the text, in order: `i <= a <= b` and the closing mark
/// ends within `s`.
pub proof fn lemma_span_bounds(s: Seq<char>, open: Seq<char>, close: Seq<char>, i: int)
    requires
        span_at(s, open, close, i) is Some,
    ensures
        ({
            let (a, b) = span_at(s, open, close, i)->0;
            &&& 0 <= i
            &&& a == i + open.len()
            &&& a <= b
            &&& b + close.len() <= s.len()
            &&& closes_at(s, close, a, b)
        }),
{
    lemma_lazy_close_some(s, close, i + open.len());
}

/// `close` stands at `e`, and nowhere between `from` and `e`. Line breaks
/// may stand in between.
pub open spec fn follows_at(s: Seq<char>, close: Seq<char>, from: int, e: int) -> bool {
    &&& from <= e
    &&& occurs_at(s, close, e)
    &&& forall|j: int| from <= j < e ==> !#[trigger] occurs_at(s, close, j)
}

/// Where `close` next stands in `s` at or after `from`, if it does.
pub open spec fn next_close(s: Seq<char>, close: Seq<char>, from: int) -> Option<int> {
    if exists|e: int| follows_at(s, close, from, e) {
        Some(choose|e: int| follows_at(s, close, from, e))
    } else {
        None
    }
}

/// The block that opens at `i`: the indices at which its inside starts and
/// ends. A block runs from `open` to the nearest `close` behind it, over as
/// many lines as lie between them; where no `close` follows, there is no
/// block.
pub open spec fn block_at(s: Seq<char>, open: Seq<char>, close: Seq<char>, i: int) -> Option<
    (int, int),
> {
    if occurs_at(s, open, i) {
        match next_close(s, close, i + open.len()) {
            Some(e) => Some((i + open.len(), e)),
            None => None,
        }
    } else {
        None
    }
}

/// `close` next stands at one place only.
pub proof fn lemma_next_close(s: Seq<char>, close: Seq<char>, from: int, e: int)
    requires
        follows_at(s, close, from, e),
    ensures
        next_close(s, close, from) == Some(e),
{
    let f = choose|f: int| follows_at(s, close, from, f);
    assert(follows_at(s, close, from, f));
    if f < e {
        assert(!occurs_at(s, close, f));
    }
    if e < f {
        assert(!occurs_at(s, close, e));
    }
}

/// A block lies inside the text, in order: `i <= a <= b` and the closing mark
/// ends within `s`.
pub proof fn lemma_block_bounds(s: Seq<char>, open: Seq<char>, close: Seq<char>, i: int)
    requires
        block_at(s, open, close, i) is Some,
    ensures
        ({
            let (a, b) = block_at(s, open, close, i)->0;
            &&& 0 <= i
            &&& a == i + open.len()
            &&& a <= b
            &&& b + close.len() <= s.len()
            &&& follows_at(s, close, a, b)
        }),
{
}

/// Where `close` next stands in `s` at or after `from`.
pub fn find_next(s: &Vec<char>, close: &Vec<char>, from: usize) -> (r: Option<usize>)
    requires
        from <= s.len(),
    ensures
        match r {
            Some(e) => next_close(s@, close@, from as int) == Some(e as int) && from <= e && e
                + close.len() <= s.len(),
            None => next_close(s@, close@, from as int) is None,
        },
{
    let mut j: usize = from;
    loop
        invariant
            from <= j <= s.len(),
            forall|k: int| from <= k < j ==> !#[trigger] occurs_at(s@, close@, k),
        decreases s.len() - j,
    {
        if matches_at(s, close, j) {
            proof {
                lemma_next_close(s@, close@, from as int, j as int);
            }
            return Some(j);
        }
        if j >= s.len() {
            proof {
                assert forall|e: int| !follows_at(s@, close@, from as int, e) by {
                    if follows_at(s@, close@, from as int, e) {
                        if e < j {
                            assert(!occurs_at(s@, close@, e));
                        }
                    }
                }
            }
            return None;
        }
        j += 1;
    }
}

/// The block that opens at `i`.
pub fn block_from(s: &Vec<char>, open: &Vec<char>, close: &Vec<char>, i: usize) -> (r: Option<
    (usize, usize),
>)
    ensures
        match r {
            Some((a, b)) => {
                &&& block_at(s@, open@, close@, i as int) == Some((a as int, b as int))
                &&& a == i + open.len()
                &&& a <= b
                &&& b + close.len() <= s.len()
            },
            None => block_at(s@, open@, close@, i as int) is None,
        },
{
    if !matches_at(s, open, i) {
        return None;
    }
    match find_next(s, close, i + open.len()) {
        Some(e) => Some((i + open.len(), e)),
        None => None,
    }
}

/// Whether `inside` can be the inside of a span that closes with `close`: it
/// holds no line break, and `close` does not begin in it, not even with its
/// end in the closing mark that follows.
#[verifier::opaque]
pub open spec fn fits_span(inside: Seq<char>, close: Seq<char>) -> bool {
    &&& forall|j: int| 0 <= j < inside.len() ==> #[trigger] inside[j] != '\n'
    &&& forall|j: int|
        0 <= j < inside.len() ==> !#[trigger] occurs_at(inside + close, close, j)
}

/// A text that is one span: `open`, an inside that fits, and `close`.
pub proof fn lemma_one_span(open: Seq<char>, inside: Seq<char>, close: Seq<char>)
    requires
        fits_span(inside, close),
    ensures
        span_at(open + inside + close, open, close, 0) == Some(
            (open.len() as int, open.len() as int + inside.len()),
        ),
        (open + inside + close).subrange(
            open.len() as int,
            open.len() as int + inside.len(),
        ) == inside,
{
    reveal(fits_span);
    let s = open + inside + close;
    let a = open.len() as int;
    let e = a + inside.len();
    assert(s.subrange(0, a) =~= open);
    assert(s.subrange(e, e + close.len()) =~= close);
    assert(s.subrange(a, e) =~= inside);
    assert forall|j: int| a <= j < e implies #[trigger] s[j] != '\n' by {
        assert(s[j] == inside[j - a]);
    }
    assert forall|j: int| a <= j < e implies !#[trigger] occurs_at(s, close, j) by {
        let t = inside + close;
        if occurs_at(s, close, j) {
            assert(t.subrange(j - a, j - a + close.len()) =~= s.subrange(j, j + close.len()));
            assert(occurs_at(t, close, j - a));
        }
    }
    assert(closes_at(s, close, a, e));
    lemma_lazy_close(s, close, a, e);
}

/// Where the span that starts at `from` closes.
pub fn find_close(s: &Vec<char>, close: &Vec<char>, from: usize) -> (r: Option<usize>)
    requires
        from <= s.len(),
    ensures
        match r {
            Some(e) => lazy_close(s@, close@, from as int) == Some(e as int) && from <= e && e
                + close.len() <= s.len(),
            None => lazy_close(s@, close@, from as int) is None,
        },
{
    let mut j: usize = from;
    loop
        invariant
            from <= j <= s.len(),
            forall|k: int|
                #![trigger s@[k]]
                #![trigger occurs_at(s@, close@, k)]
                from <= k < j ==> s@[k] != '\n' && !occurs_at(s@, close@, k),
        decreases s.len() - j,
    {
        if matches_at(s, close, j) {
            proof {
                lemma_lazy_close(s@, close@, from as int, j as int);
            }
            return Some(j);
        }
        if j >= s.len() || s[j] == '\n' {
            proof {
                assert forall|e: int| !closes_at(s@, close@, from as int, e) by {
                    if closes_at(s@, close@, from as int, e) {
                        if e < j {
                            assert(!occurs_at(s@, close@, e));
                        } else if e > j {
                            if j < s.len() {
                                assert(s@[j as int] != '\n');
                            }
                        }
                    }
                }
            }
            return None;
        }
        j += 1;
    }
}

/// The span that opens at `i`.
pub fn span_from(s: &Vec<char>, open: &Vec<char>, close: &Vec<char>, i: usize) -> (r: Option<
    (usize, usize),
>)
    ensures
        match r {
            Some((a, b)) => {
                &&& span_at(s@, open@, close@, i as int) == Some((a as int, b as int))
                &&& a == i + open.len()
                &&& a <= b
                &&& b + close.len() <= s.len()
            },
            None => span_at(s@, open@, close@, i as int) is None,
        },
{
    if !matches_at(s, open, i) {
        return None;
    }
    match find_close(s, close, i + open.len()) {
        Some(e) => Some((i + open.len(), e)),
        None => None,
    }
}

} // verus!
