//! From notes to a site: which pages are published, who refers to whom, what
//! is added to each page, and what is written where.
use crate::notes::backlinks::{
    is_first_referrer, noted, recorded, referrer_views, referrers_of, BacklinkIndex,
};
use crate::notes::markdown::{
    page_of, Page, PageLoader, PageView, WikiLinkView, WikilinkType,
};
use crate::text::{
    append_chars, chars_eq, decimal, find, find_in, from_chars, push_decimal, subvec, to_chars,
    trim, trimmed,
};
use vstd::prelude::*;

verus! {

/// The views of a sequence of pages.
pub open spec fn page_views(pages: Seq<Page>) -> Seq<PageView> {
    pages.map_values(|p: Page| p@)
}

/// The pages that a sequence of files, each a path with its text, is read as.
pub open spec fn loaded(files: Seq<(String, String)>) -> Seq<PageView> {
    files.map_values(|f: (String, String)| page_of(f.0@, f.1@))
}

/// Reads each file, given as its path and its text, as a page. The pages
/// come in the order of the files.
pub fn get_pages(files: &Vec<(String, String)>) -> (pages: Vec<Page>)
    ensures
        page_views(pages@) == loaded(files@),
{
    let mut pages: Vec<Page> = Vec::new();
    let mut i: usize = 0;
    while i < files.len()
        invariant
            i <= files.len(),
            page_views(pages@) == loaded(files@.take(i as int)),
        decreases files.len() - i,
    {
        let ghost before = page_views(pages@);
        let page = Page::from_path(files[i].0.as_str(), files[i].1.as_str());
        assert(page@ == page_of(files@[i as int].0@, files@[i as int].1@));
        pages.push(page);
        assert(page_views(pages@) =~= before.push(page@));
        assert(files@.take(i + 1) =~= files@.take(i as int).push(files@[i as int]));
        assert(loaded(files@.take(i + 1)) =~= before.push(page@));
        i += 1;
    }
    assert(files@.take(files@.len() as int) =~= files@);
    pages
}

/// The line that marks a page for publishing.
pub open spec fn publish_marker() -> Seq<char> {
    "publish: true"@
}

/// The characters `a..b` of `s` are one of its lines: `a` is the start of
/// the text or follows a line break, `b` is the end of the text or the next
/// line break.
pub open spec fn is_line(s: Seq<char>, a: int, b: int) -> bool {
    &&& 0 <= a <= b <= s.len()
    &&& (a == 0 || s[a - 1] == '\n')
    &&& (b == s.len() || s[b] == '\n')
    &&& forall|k: int| a <= k < b ==> s[k] != '\n'
}

/// Whether some line of `s`, trimmed, is the publish marker.
pub open spec fn is_marked(s: Seq<char>) -> bool {
    exists|a: int, b: int| is_line(s, a, b) && trim(s.subrange(a, b)) == publish_marker()
}

/// The pages of `pages` that are marked for publishing, in their order.
pub open spec fn publishable(pages: Seq<PageView>) -> Seq<PageView> {
    pages.filter(|p: PageView| is_marked(p.contents))
}

/// Whether a text holds the publish marker on a line of its own.
pub fn is_marked_text(contents: &str) -> (r: bool)
    ensures
        r == is_marked(contents@),
{
    let s = to_chars(contents);
    let marker = to_chars("publish: true");
    let mut a: usize = 0;
    loop
        invariant
            a <= s.len(),
            a == 0 || s@[a - 1] == '\n',
            s@ == contents@,
            marker@ == publish_marker(),
            forall|x: int, y: int|
                is_line(s@, x, y) && x < a ==> trim(#[trigger] s@.subrange(x, y))
                    != publish_marker(),
        decreases s.len() - a,
    {
        let mut b: usize = a;
        while b < s.len() && s[b] != '\n'
            invariant
                a <= b <= s.len(),
                forall|k: int| a <= k < b ==> s@[k] != '\n',
            decreases s.len() - b,
        {
            b += 1;
        }
        assert(is_line(s@, a as int, b as int));
        let line = subvec(&s, a, b);
        let text = trimmed(&line);
        if chars_eq(&text, &marker) {
            return true;
        }
        assert forall|x: int, y: int| is_line(s@, x, y) && x < b + 1 implies trim(
            #[trigger] s@.subrange(x, y),
        ) != publish_marker() by {
            if x >= a {
                if x > a {
                    assert(s@[x - 1] == '\n');
                }
                assert(x == a);
                if y < b {
                    assert(s@[y] == '\n');
                }
                if y > b {
                    assert(s@[b as int] != '\n');
                }
                assert(y == b);
            }
        }
        if b == s.len() {
            assert forall|x: int, y: int| is_line(s@, x, y) implies trim(
                #[trigger] s@.subrange(x, y),
            ) != publish_marker() by {}
            return false;
        }
        a = b + 1;
    }
}

/// Keeps the pages that are marked for publishing, in their order.
pub fn publishable_pages(pages: Vec<Page>) -> (kept: Vec<Page>)
    ensures
        page_views(kept@) == publishable(page_views(pages@)),
{
    let ghost all = page_views(pages@);
    let ghost marked = |p: PageView| is_marked(p.contents);
    let mut kept: Vec<Page> = Vec::new();
    assert(all.take(0).filter(marked) =~= Seq::<PageView>::empty()) by {
        assert(all.take(0) =~= Seq::<PageView>::empty());
    }
    assert(page_views(kept@) =~= Seq::<PageView>::empty());
    for page in it: pages
        invariant
            all == page_views(it.seq()),
            marked == |p: PageView| is_marked(p.contents),
            page_views(kept@) == all.take(it.index() as int).filter(marked),
    {
        let ghost before = page_views(kept@);
        let ghost i = it.index() as int;
        proof {
            assert(all.take(i + 1) =~= all.take(i).push(all[i]));
            all.take(i).lemma_filter_push(all[i], marked);
            assert(all[i] == page@);
        }
        if is_marked_text(page.contents.as_str()) {
            kept.push(page);
            assert(page_views(kept@) =~= before.push(all[i]));
        }
    }
    assert(all.take(all.len() as int) =~= all);
    kept
}

/// Whether a wikilink counts as a reference to a page: it is a text link
/// and names a target.
pub open spec fn is_reference(l: WikiLinkView) -> bool {
    l.link_type == WikilinkType::TEXT && l.link.len() > 0
}

/// The index `m` after the links `links` of the page titled `source` have
/// been taken note of, from first to last.
pub open spec fn with_links(
    m: Map<Seq<char>, Seq<(Seq<char>, nat)>>,
    source: Seq<char>,
    links: Seq<WikiLinkView>,
) -> Map<Seq<char>, Seq<(Seq<char>, nat)>>
    decreases links.len(),
{
    if links.len() == 0 {
        m
    } else {
        let rest = with_links(m, source, links.drop_last());
        if is_reference(links.last()) {
            recorded(rest, source, links.last().link)
        } else {
            rest
        }
    }
}

/// The backlink index of `pages`: every reference of every page, taken note
/// of page by page and link by link.
pub open spec fn backlinks_of(pages: Seq<PageView>) -> Map<Seq<char>, Seq<(Seq<char>, nat)>>
    decreases pages.len(),
{
    if pages.len() == 0 {
        Map::empty()
    } else {
        with_links(backlinks_of(pages.drop_last()), pages.last().title, pages.last().wikilinks)
    }
}

/// The number of wikilinks of all `pages` together.
pub open spec fn link_count(pages: Seq<PageView>) -> nat
    decreases pages.len(),
{
    if pages.len() == 0 {
        0
    } else {
        link_count(pages.drop_last()) + pages.last().wikilinks.len()
    }
}

/// No count in `m` is above `n`.
pub open spec fn bounded(m: Map<Seq<char>, Seq<(Seq<char>, nat)>>, n: int) -> bool {
    forall|t: Seq<char>, j: int|
        m.contains_key(t) && 0 <= j < m[t].len() ==> (#[trigger] m[t][j]).1 <= n
}

/// One more reference raises the largest count by one at most.
proof fn lemma_recorded_bounded(
    m: Map<Seq<char>, Seq<(Seq<char>, nat)>>,
    n: int,
    source: Seq<char>,
    target: Seq<char>,
)
    requires
        0 <= n,
        bounded(m, n),
    ensures
        bounded(recorded(m, source, target), n + 1),
{
    let refs = referrers_of(m, target);
    let after = recorded(m, source, target);
    assert forall|t: Seq<char>, j: int| after.contains_key(t) && 0 <= j < after[t].len() implies (
    #[trigger] after[t][j]).1 <= n + 1 by {
        if t == target {
            assert(after[t] == noted(refs, source));
            if exists|k: int| is_first_referrer(refs, source, k) {
                let k = choose|k: int| is_first_referrer(refs, source, k);
                assert(m.contains_key(t));
                assert(m[t][k].1 <= n);
                if j != k {
                    assert(after[t][j] == m[t][j]);
                    assert(m[t][j].1 <= n);
                }
            } else {
                if j < refs.len() {
                    assert(m.contains_key(t));
                    assert(after[t][j] == m[t][j]);
                    assert(m[t][j].1 <= n);
                }
            }
        } else {
            assert(after[t][j] == m[t][j]);
            assert(m[t][j].1 <= n);
        }
    }
}

/// The pages before index `i` hold no more links than all pages.
pub proof fn lemma_link_count_take(pages: Seq<PageView>, i: int)
    requires
        0 <= i <= pages.len(),
    ensures
        link_count(pages.take(i)) <= link_count(pages),
    decreases pages.len() - i,
{
    if i == pages.len() {
        assert(pages.take(i) =~= pages);
    } else {
        lemma_link_count_take(pages, i + 1);
        assert(pages.take(i + 1).drop_last() =~= pages.take(i));
    }
}

/// Builds the backlink index of `pages`: for each title that some page
/// refers to by a text link, the titles of the referring pages, each with the
/// number of its references, in the order in which they are first met.
pub fn build_backlinks(pages: &[Page]) -> (index: BacklinkIndex)
    requires
        link_count(page_views(pages@)) <= usize::MAX,
    ensures
        index.wf(),
        index@ == backlinks_of(page_views(pages@)),
{
    let ghost views = page_views(pages@);
    let mut index = BacklinkIndex::new();
    let mut i: usize = 0;
    assert(views.take(0) =~= Seq::<PageView>::empty());
    while i < pages.len()
        invariant
            i <= pages.len(),
            views == page_views(pages@),
            link_count(views) <= usize::MAX,
            index.wf(),
            index@ == backlinks_of(views.take(i as int)),
            bounded(index@, link_count(views.take(i as int)) as int),
        decreases pages.len() - i,
    {
        let page = &pages[i];
        let ghost links = page@.wikilinks;
        let ghost start = backlinks_of(views.take(i as int));
        let ghost seen = link_count(views.take(i as int));
        proof {
            assert(views.take(i + 1).drop_last() =~= views.take(i as int));
            assert(views.take(i + 1).last() == page@);
            lemma_link_count_take(views, i + 1);
            assert(links.take(0) =~= Seq::<WikiLinkView>::empty());
        }
        let mut k: usize = 0;
        while k < page.wikilinks.len()
            invariant
                k <= page.wikilinks.len(),
                links == page@.wikilinks,
                links.len() == page.wikilinks.len(),
                seen + links.len() <= usize::MAX,
                index.wf(),
                index@ == with_links(start, page.title@, links.take(k as int)),
                bounded(index@, seen + k),
            decreases page.wikilinks.len() - k,
        {
            let link = &page.wikilinks[k];
            proof {
                assert(links.take(k + 1).drop_last() =~= links.take(k as int));
                assert(links.take(k + 1).last() == link@);
            }
            if link.link_type == WikilinkType::TEXT && !link.link.as_str().is_empty() {
                proof {
                    lemma_recorded_bounded(index@, seen + k, page.title@, link.link@);
                }
                index.record(page.title.as_str(), link.link.as_str());
            }
            k += 1;
        }
        proof {
            assert(links.take(links.len() as int) =~= links);
        }
        i += 1;
    }
    assert(views.take(views.len() as int) =~= views);
    index
}

/// `input` with its first occurrence of `from` replaced by `to`; `input`
/// itself where `from` does not occur in it.
pub open spec fn replaced_first(input: Seq<char>, from: Seq<char>, to: Seq<char>) -> Seq<char> {
    match find(input, from) {
        Some(i) => input.take(i) + to + input.skip(i + from.len()),
        None => input,
    }
}

/// Replaces the first occurrence of `from` in `input` by `to`, on characters.
fn replace_first_chars(input: &Vec<char>, from: &Vec<char>, to: &Vec<char>) -> (r: Vec<char>)
    ensures
        r@ == replaced_first(input@, from@, to@),
{
    let mut out: Vec<char> = Vec::new();
    match find_in(input, from) {
        Some(i) => {
            let head = subvec(input, 0, i);
            let tail = subvec(input, i + from.len(), input.len());
            append_chars(&mut out, &head);
            append_chars(&mut out, to);
            append_chars(&mut out, &tail);
            assert(out@ =~= input@.take(i as int) + to@ + input@.skip(i + from@.len()));
        },
        None => {
            append_chars(&mut out, input);
            assert(out@ =~= input@);
        },
    }
    out
}

/// Replaces the first occurrence of `from` in `input` by `to`. Without an
/// occurrence the text comes back as it is.
pub fn replace_first(input: &str, from: &str, to: &str) -> (r: String)
    ensures
        r@ == replaced_first(input@, from@, to@),
{
    let out = replace_first_chars(&to_chars(input), &to_chars(from), &to_chars(to));
    from_chars(&out)
}

/// A title between double quotes.
pub open spec fn quoted(title: Seq<char>) -> Seq<char> {
    seq!['"'] + title + seq!['"']
}

/// What stands between two items of a list.
pub open spec fn separator() -> Seq<char> {
    seq![',', ' ']
}

/// The titles of `refs`, each in double quotes, with `, ` between them.
pub open spec fn titles_list(refs: Seq<(Seq<char>, nat)>) -> Seq<char>
    decreases refs.len(),
{
    if refs.len() == 0 {
        Seq::empty()
    } else if refs.len() == 1 {
        quoted(refs[0].0)
    } else {
        titles_list(refs.drop_last()) + separator() + quoted(refs.last().0)
    }
}

/// The counts of `refs` in decimal digits, with `, ` between them.
pub open spec fn counts_list(refs: Seq<(Seq<char>, nat)>) -> Seq<char>
    decreases refs.len(),
{
    if refs.len() == 0 {
        Seq::empty()
    } else if refs.len() == 1 {
        decimal(refs[0].1)
    } else {
        counts_list(refs.drop_last()) + separator() + decimal(refs.last().1)
    }
}

/// The two lines of front matter that name the referrers `refs` and their
/// counts.
pub open spec fn backlink_lines(refs: Seq<(Seq<char>, nat)>) -> Seq<char> {
    "backlinks: ["@ + titles_list(refs) + "]\n"@ + "backlinks_count: ["@ + counts_list(refs)
        + "]\n"@
}

/// The referrers of `title` in the index `m`, if it holds the title.
pub open spec fn entry_of(m: Map<Seq<char>, Seq<(Seq<char>, nat)>>, title: Seq<char>) -> Option<
    Seq<(Seq<char>, nat)>,
> {
    if m.contains_key(title) {
        Some(m[title])
    } else {
        None
    }
}

/// The text of a page with its backlinks added to the front matter.
///
/// With referrers, their two lines are put in right after the first `---`
/// that ends a line; a text without one cannot take them. Without referrers,
/// the first `---` of the text is followed by a line break and two lines with
/// empty lists; a text without `---` stays as it is.
pub open spec fn annotated(contents: Seq<char>, referrers: Option<Seq<(Seq<char>, nat)>>) -> Option<
    Seq<char>,
> {
    match referrers {
        Some(refs) => match find(contents, "---\n"@) {
            Some(i) => Some(
                contents.take(i + "---\n"@.len()) + backlink_lines(refs) + contents.skip(
                    i + "---\n"@.len(),
                ),
            ),
            None => None,
        },
        None => Some(
            replaced_first(contents, "---"@, "---\nbacklinks: []\nbacklinks_count: []\n"@),
        ),
    }
}

/// Why a page could not be annotated.
#[derive(Debug, PartialEq, Eq, Clone, Copy, Structural)]
pub enum AnnotateError {
    /// The page has referrers, and its text holds no `---` at the end of a
    /// line to put them behind.
    MissingFrontMatter,
}

/// The two lines of front matter for the referrers `refs`, on characters.
fn backlink_lines_chars(refs: &Vec<(String, usize)>) -> (r: Vec<char>)
    ensures
        r@ == backlink_lines(referrer_views(refs@)),
{
    let ghost views = referrer_views(refs@);
    let mut titles: Vec<char> = Vec::new();
    let mut counts: Vec<char> = Vec::new();
    let mut k: usize = 0;
    assert(views.take(0) =~= Seq::<(Seq<char>, nat)>::empty());
    while k < refs.len()
        invariant
            k <= refs.len(),
            views == referrer_views(refs@),
            titles@ == titles_list(views.take(k as int)),
            counts@ == counts_list(views.take(k as int)),
        decreases refs.len() - k,
    {
        let ghost t0 = titles@;
        let ghost c0 = counts@;
        proof {
            assert(views.take(k + 1).drop_last() =~= views.take(k as int));
            assert(views.take(k + 1).last() == views[k as int]);
            assert(views[k as int] == (refs@[k as int].0@, refs@[k as int].1 as nat));
        }
        if k > 0 {
            titles.push(',');
            titles.push(' ');
            counts.push(',');
            counts.push(' ');
        }
        let title = to_chars(refs[k].0.as_str());
        titles.push('"');
        append_chars(&mut titles, &title);
        titles.push('"');
        push_decimal(&mut counts, refs[k].1);
        proof {
            if k > 0 {
                assert(titles@ =~= t0 + separator() + quoted(views[k as int].0));
                assert(counts@ =~= c0 + separator() + decimal(views[k as int].1));
            } else {
                assert(titles@ =~= quoted(views[k as int].0));
                assert(counts@ =~= decimal(views[k as int].1));
                assert(views.take(1)[0] == views[0]);
            }
        }
        k += 1;
    }
    assert(views.take(views.len() as int) =~= views);
    let mut out: Vec<char> = Vec::new();
    let a = to_chars("backlinks: [");
    let b = to_chars("]\n");
    let c = to_chars("backlinks_count: [");
    append_chars(&mut out, &a);
    append_chars(&mut out, &titles);
    append_chars(&mut out, &b);
    append_chars(&mut out, &c);
    append_chars(&mut out, &counts);
    append_chars(&mut out, &b);
    assert(out@ =~= backlink_lines(views));
    out
}

/// Adds to a page's front matter who refers to the page.
///
/// A page that the index holds gets two lines, `backlinks: [..]` with the
/// quoted titles of its referrers and `backlinks_count: [..]` with their
/// counts, right after the first `---` that ends a line; it fails, and the
/// page stays as it is, where its text holds no such `---`. A page that the
/// index does not hold gets a line break and two lines with empty lists
/// after the first `---` of its text, if there is one.
pub fn add_backlinks(page: &mut Page, backlinks: &BacklinkIndex) -> (r: Result<
    (),
    AnnotateError,
>)
    requires
        backlinks.wf(),
    ensures
        final(page).title == old(page).title,
        final(page).path == old(page).path,
        final(page).wikilinks == old(page).wikilinks,
        match r {
            Ok(_) => annotated(old(page).contents@, entry_of(backlinks@, old(page).title@))
                == Some(final(page).contents@),
            Err(e) => {
                &&& annotated(old(page).contents@, entry_of(backlinks@, old(page).title@)) is None
                &&& e == AnnotateError::MissingFrontMatter
                &&& final(page).contents == old(page).contents
            },
        },
{
    let contents = to_chars(page.contents.as_str());
    match backlinks.get(page.title.as_str()) {
        Some(refs) => {
            let mark = to_chars("---\n");
            match find_in(&contents, &mark) {
                Some(i) => {
                    let end = i + mark.len();
                    let lines = backlink_lines_chars(refs);
                    let head = subvec(&contents, 0, end);
                    let tail = subvec(&contents, end, contents.len());
                    let mut out: Vec<char> = Vec::new();
                    append_chars(&mut out, &head);
                    append_chars(&mut out, &lines);
                    append_chars(&mut out, &tail);
                    assert(out@ =~= contents@.take(end as int) + lines@ + contents@.skip(
                        end as int,
                    ));
                    page.contents = from_chars(&out);
                    Ok(())
                },
                None => Err(AnnotateError::MissingFrontMatter),
            }
        },
        None => {
            let rule = to_chars("---");
            let lines = to_chars("---\nbacklinks: []\nbacklinks_count: []\n");
            let out = replace_first_chars(&contents, &rule, &lines);
            page.contents = from_chars(&out);
            Ok(())
        },
    }
}

} // verus!
