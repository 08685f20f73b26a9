//! What holds of every run: of the pages that are kept, of the counts in the
//! backlink index, of the place a page is written to and of the images that
//! are copied.
use crate::notes::backlinks::{is_first_referrer, noted, recorded, referrers_of};
use crate::notes::humble::{
    annotated, backlink_lines, backlinks_of, is_marked, is_reference, publishable, with_links,
};
use crate::text::{lemma_find_first, occurs_at};
use crate::notes::images::{copies_for, embeds_from};
use crate::notes::markdown::{close_mark, embed_mark, PageView, WikiLinkView};
use crate::notes::scan::{fits_span, lemma_one_span, span_at};
use crate::notes::site::output_path;
use crate::paths::join;
use vstd::prelude::*;

verus! {

/// Filtering a sequence whose items all pass keeps the sequence.
proof fn lemma_filter_all<A>(s: Seq<A>, pred: spec_fn(A) -> bool)
    requires
        forall|i: int| 0 <= i < s.len() ==> pred(#[trigger] s[i]),
    ensures
        s.filter(pred) == s,
    decreases s.len(),
{
    reveal(Seq::filter);
    if s.len() > 0 {
        let rest = s.drop_last();
        assert forall|i: int| 0 <= i < rest.len() implies pred(#[trigger] rest[i]) by {
            assert(rest[i] == s[i]);
        }
        lemma_filter_all(rest, pred);
        assert(pred(s[s.len() - 1]));
        assert(rest.push(s.last()) =~= s);
    }
}

/// Only marked pages are published, and publishing what was published
/// changes nothing: every page that `publishable` keeps is marked, a page is
/// kept exactly if it is one of the pages and marked, and the pages kept of
/// the pages kept are the pages kept.
pub proof fn law_publishable(pages: Seq<PageView>)
    ensures
        forall|i: int|
            0 <= i < publishable(pages).len() ==> is_marked(
                (#[trigger] publishable(pages)[i]).contents,
            ),
        forall|p: PageView|
            publishable(pages).contains(p) <==> pages.contains(p) && is_marked(p.contents),
        publishable(publishable(pages)) == publishable(pages),
{
    let marked = |p: PageView| is_marked(p.contents);
    let kept = pages.filter(marked);
    assert forall|i: int| 0 <= i < kept.len() implies is_marked((#[trigger] kept[i]).contents) by {
        pages.lemma_filter_pred(marked, i);
    }
    assert forall|p: PageView| kept.contains(p) <==> pages.contains(p) && is_marked(
        p.contents,
    ) by {
        if kept.contains(p) {
            let i = choose|i: int| 0 <= i < kept.len() && kept[i] == p;
            pages.lemma_filter_pred(marked, i);
            pages.lemma_filter_contains_rev(marked, p);
        }
        if pages.contains(p) && is_marked(p.contents) {
            let i = choose|i: int| 0 <= i < pages.len() && pages[i] == p;
            pages.lemma_filter_contains(marked, i);
        }
    }
    assert forall|i: int| 0 <= i < kept.len() implies marked(#[trigger] kept[i]) by {
        pages.lemma_filter_pred(marked, i);
    }
    lemma_filter_all(kept, marked);
}

/// The number of references to `target` among `links`.
pub open spec fn references_in(links: Seq<WikiLinkView>, target: Seq<char>) -> nat
    decreases links.len(),
{
    if links.len() == 0 {
        0
    } else {
        references_in(links.drop_last(), target) + if is_reference(links.last())
            && links.last().link == target {
            1nat
        } else {
            0nat
        }
    }
}

/// The number of references to `target` in the pages titled `source`.
pub open spec fn references(pages: Seq<PageView>, source: Seq<char>, target: Seq<char>) -> nat
    decreases pages.len(),
{
    if pages.len() == 0 {
        0
    } else {
        references(pages.drop_last(), source, target) + if pages.last().title == source {
            references_in(pages.last().wikilinks, target)
        } else {
            0nat
        }
    }
}

/// The number of references from `source` to `target` in `pages` and in the
/// links `links` of one more page, titled `title`.
pub open spec fn tally(
    pages: Seq<PageView>,
    title: Seq<char>,
    links: Seq<WikiLinkView>,
    source: Seq<char>,
    target: Seq<char>,
) -> nat {
    references(pages, source, target) + if title == source {
        references_in(links, target)
    } else {
        0nat
    }
}

/// No title stands twice among `refs`.
pub open spec fn unique_sources(refs: Seq<(Seq<char>, nat)>) -> bool {
    forall|i: int, j: int|
        0 <= i < j < refs.len() ==> (#[trigger] refs[i]).0 != (#[trigger] refs[j]).0
}

/// Whether `source` stands among `refs`.
pub open spec fn has_source(refs: Seq<(Seq<char>, nat)>, source: Seq<char>) -> bool {
    exists|j: int| 0 <= j < refs.len() && (#[trigger] refs[j]).0 == source
}

/// The index `m` holds exactly the references that were made: under each
/// title, every referring page once, with the number of its references.
pub open spec fn counts_right(
    m: Map<Seq<char>, Seq<(Seq<char>, nat)>>,
    pages: Seq<PageView>,
    title: Seq<char>,
    links: Seq<WikiLinkView>,
) -> bool {
    &&& forall|t: Seq<char>| #[trigger] m.contains_key(t) ==> unique_sources(m[t])
    &&& forall|t: Seq<char>, j: int|
        m.contains_key(t) && 0 <= j < m[t].len() ==> (#[trigger] m[t][j]).1 == tally(
            pages,
            title,
            links,
            m[t][j].0,
            t,
        ) && m[t][j].1 > 0
    &&& forall|s: Seq<char>, t: Seq<char>|
        #[trigger] tally(pages, title, links, s, t) > 0 ==> m.contains_key(t) && has_source(
            m[t],
            s,
        )
}

/// One more reference keeps the counts right.
proof fn lemma_recorded_counts(
    m: Map<Seq<char>, Seq<(Seq<char>, nat)>>,
    pages: Seq<PageView>,
    title: Seq<char>,
    links: Seq<WikiLinkView>,
)
    requires
        links.len() > 0,
        is_reference(links.last()),
        counts_right(m, pages, title, links.drop_last()),
    ensures
        counts_right(recorded(m, title, links.last().link), pages, title, links),
{
    let s0 = title;
    let t0 = links.last().link;
    let before = links.drop_last();
    let refs = referrers_of(m, t0);
    let after = recorded(m, s0, t0);
    let new_refs = noted(refs, s0);
    assert(after[t0] == new_refs);
    assert forall|s: Seq<char>, t: Seq<char>| #[trigger]
        tally(pages, title, links, s, t) == tally(pages, title, before, s, t) + if s == s0 && t
            == t0 {
            1nat
        } else {
            0nat
        } by {}
    // what `noted` did to the referrers of `t0`
    let found = exists|k: int| is_first_referrer(refs, s0, k);
    let at = choose|k: int| is_first_referrer(refs, s0, k);
    if !found {
        assert(!has_source(refs, s0)) by {
            if has_source(refs, s0) {
                lemma_first_source(refs, s0);
            }
        }
        if m.contains_key(t0) {
            assert(tally(pages, title, before, s0, t0) == 0) by {
                if tally(pages, title, before, s0, t0) > 0 {
                    assert(has_source(m[t0], s0));
                }
            }
        } else {
            assert(tally(pages, title, before, s0, t0) == 0);
        }
    } else {
        assert(m.contains_key(t0));
        assert(refs[at] == m[t0][at]);
    }
    assert forall|t: Seq<char>| #[trigger] after.contains_key(t) implies unique_sources(
        after[t],
    ) by {
        if t == t0 {
            if m.contains_key(t0) {
                assert(unique_sources(m[t0]));
            }
            assert forall|i: int, j: int| 0 <= i < j < new_refs.len() implies (
            #[trigger] new_refs[i]).0 != (#[trigger] new_refs[j]).0 by {
                if found {
                    assert(new_refs[i].0 == refs[i].0);
                    assert(new_refs[j].0 == refs[j].0);
                } else {
                    if j < refs.len() {
                        assert(new_refs[i] == refs[i]);
                        assert(new_refs[j] == refs[j]);
                    } else {
                        assert(new_refs[i] == refs[i]);
                        if refs[i].0 == s0 {
                            assert(has_source(refs, s0));
                        }
                    }
                }
            }
        } else {
            assert(m.contains_key(t));
        }
    }
    assert forall|t: Seq<char>, j: int| after.contains_key(t) && 0 <= j < after[t].len() implies (
    #[trigger] after[t][j]).1 == tally(pages, title, links, after[t][j].0, t) && after[t][j].1
        > 0 by {
        if t == t0 {
            if found {
                if j == at {
                    assert(m[t0][at].1 == tally(pages, title, before, m[t0][at].0, t0));
                } else {
                    assert(new_refs[j] == m[t0][j]);
                    assert(m[t0][j].1 == tally(pages, title, before, m[t0][j].0, t0));
                    assert(unique_sources(m[t0]));
                    if j < at {
                        assert(m[t0][j].0 != m[t0][at].0);
                    } else {
                        assert(m[t0][at].0 != m[t0][j].0);
                    }
                }
            } else {
                if j < refs.len() {
                    assert(new_refs[j] == m[t0][j]);
                    assert(m[t0][j].1 == tally(pages, title, before, m[t0][j].0, t0));
                    if m[t0][j].0 == s0 {
                        assert(has_source(refs, s0));
                    }
                }
            }
        } else {
            assert(m.contains_key(t));
            assert(after[t][j] == m[t][j]);
            assert(m[t][j].1 == tally(pages, title, before, m[t][j].0, t));
        }
    }
    assert forall|s: Seq<char>, t: Seq<char>| #[trigger]
        tally(pages, title, links, s, t) > 0 implies after.contains_key(t) && has_source(
        after[t],
        s,
    ) by {
        if t == t0 {
            if s == s0 {
                if found {
                    assert(new_refs[at].0 == s0);
                } else {
                    assert(new_refs[refs.len() as int].0 == s0);
                }
            } else {
                assert(tally(pages, title, before, s, t) > 0);
                assert(has_source(m[t0], s));
                let j = choose|j: int| 0 <= j < refs.len() && (#[trigger] refs[j]).0 == s;
                assert(new_refs[j].0 == s);
            }
        } else {
            assert(tally(pages, title, before, s, t) > 0);
            assert(has_source(m[t], s));
        }
    }
}

/// A title that stands among `refs` stands somewhere first.
proof fn lemma_first_source(refs: Seq<(Seq<char>, nat)>, source: Seq<char>)
    requires
        has_source(refs, source),
    ensures
        exists|k: int| is_first_referrer(refs, source, k),
    decreases refs.len(),
{
    let j = choose|j: int| 0 <= j < refs.len() && (#[trigger] refs[j]).0 == source;
    let rest = refs.take(j);
    if has_source(rest, source) {
        lemma_first_source(rest, source);
        let k = choose|k: int| is_first_referrer(rest, source, k);
        assert(rest[k] == refs[k]);
        assert forall|i: int| 0 <= i < k implies (#[trigger] refs[i]).0 != source by {
            assert(rest[i] == refs[i]);
        }
        assert(is_first_referrer(refs, source, k));
    } else {
        assert forall|i: int| 0 <= i < j implies (#[trigger] refs[i]).0 != source by {
            assert(rest[i] == refs[i]);
            if rest[i].0 == source {
                assert(has_source(rest, source));
            }
        }
        assert(is_first_referrer(refs, source, j));
    }
}

/// The links of one page keep the counts right.
proof fn lemma_with_links_counts(
    m: Map<Seq<char>, Seq<(Seq<char>, nat)>>,
    pages: Seq<PageView>,
    title: Seq<char>,
    links: Seq<WikiLinkView>,
)
    requires
        counts_right(m, pages, title, Seq::empty()),
    ensures
        counts_right(with_links(m, title, links), pages, title, links),
    decreases links.len(),
{
    if links.len() > 0 {
        let rest = links.drop_last();
        lemma_with_links_counts(m, pages, title, rest);
        let mid = with_links(m, title, rest);
        if is_reference(links.last()) {
            lemma_recorded_counts(mid, pages, title, links);
        } else {
            assert forall|s: Seq<char>, t: Seq<char>| #[trigger]
                tally(pages, title, links, s, t) == tally(pages, title, rest, s, t) by {}
            assert forall|t: Seq<char>, j: int| mid.contains_key(t) && 0 <= j < mid[t].len() implies (
            #[trigger] mid[t][j]).1 == tally(pages, title, links, mid[t][j].0, t) && mid[t][j].1
                > 0 by {
                assert(mid[t][j].1 == tally(pages, title, rest, mid[t][j].0, t));
            }
            assert forall|s: Seq<char>, t: Seq<char>| #[trigger]
                tally(pages, title, links, s, t) > 0 implies mid.contains_key(t) && has_source(
                mid[t],
                s,
            ) by {
                assert(tally(pages, title, rest, s, t) > 0);
            }
        }
    } else {
        assert(links =~= Seq::<WikiLinkView>::empty());
    }
}

/// The counts of the backlink index are right after every page.
proof fn lemma_backlinks_counts(pages: Seq<PageView>)
    ensures
        counts_right(backlinks_of(pages), pages, Seq::empty(), Seq::empty()),
    decreases pages.len(),
{
    let none = Seq::<WikiLinkView>::empty();
    if pages.len() == 0 {
        assert forall|s: Seq<char>, t: Seq<char>| #[trigger]
            tally(pages, Seq::empty(), none, s, t) == 0 by {}
    } else {
        let rest = pages.drop_last();
        let last = pages.last();
        lemma_backlinks_counts(rest);
        let m = backlinks_of(rest);
        assert forall|s: Seq<char>, t: Seq<char>| #[trigger]
            tally(rest, last.title, none, s, t) == tally(rest, Seq::empty(), none, s, t) by {}
        assert(counts_right(m, rest, last.title, none));
        lemma_with_links_counts(m, rest, last.title, last.wikilinks);
        assert forall|s: Seq<char>, t: Seq<char>| #[trigger]
            tally(pages, Seq::empty(), none, s, t) == tally(
                rest,
                last.title,
                last.wikilinks,
                s,
                t,
            ) by {}
        let done = backlinks_of(pages);
        assert(counts_right(done, rest, last.title, last.wikilinks));
        assert forall|t: Seq<char>, j: int| done.contains_key(t) && 0 <= j < done[t].len() implies (
        #[trigger] done[t][j]).1 == tally(pages, Seq::empty(), none, done[t][j].0, t)
            && done[t][j].1 > 0 by {
            assert(done[t][j].1 == tally(rest, last.title, last.wikilinks, done[t][j].0, t));
        }
        assert forall|s: Seq<char>, t: Seq<char>| #[trigger]
            tally(pages, Seq::empty(), none, s, t) > 0 implies done.contains_key(t)
            && has_source(done[t], s) by {
            assert(tally(rest, last.title, last.wikilinks, s, t) > 0);
        }
    }
}

/// The backlink index counts every reference once: under each title that it
/// holds, no referring page stands twice; the count of each referring page is
/// the number of text links to that title in the pages of its title, and is
/// not zero; and every page with such a link stands under the title.
pub proof fn law_backlink_counts(pages: Seq<PageView>)
    ensures
        forall|t: Seq<char>| #[trigger]
            backlinks_of(pages).contains_key(t) ==> unique_sources(backlinks_of(pages)[t]),
        forall|t: Seq<char>, j: int|
            backlinks_of(pages).contains_key(t) && 0 <= j < backlinks_of(pages)[t].len() ==> (
            #[trigger] backlinks_of(pages)[t][j]).1 == references(
                pages,
                backlinks_of(pages)[t][j].0,
                t,
            ) && backlinks_of(pages)[t][j].1 > 0,
        forall|s: Seq<char>, t: Seq<char>| #[trigger]
            references(pages, s, t) > 0 ==> backlinks_of(pages).contains_key(t) && has_source(
                backlinks_of(pages)[t],
                s,
            ),
{
    lemma_backlinks_counts(pages);
    let m = backlinks_of(pages);
    let none = Seq::<WikiLinkView>::empty();
    assert forall|s: Seq<char>, t: Seq<char>| #[trigger]
        tally(pages, Seq::empty(), none, s, t) == references(pages, s, t) by {}
    assert forall|t: Seq<char>, j: int| m.contains_key(t) && 0 <= j < m[t].len() implies (
    #[trigger] m[t][j]).1 == references(pages, m[t][j].0, t) && m[t][j].1 > 0 by {
        assert(m[t][j].1 == tally(pages, Seq::empty(), none, m[t][j].0, t));
    }
    assert forall|s: Seq<char>, t: Seq<char>| #[trigger]
        references(pages, s, t) > 0 implies m.contains_key(t) && has_source(m[t], s) by {
        assert(tally(pages, Seq::empty(), none, s, t) > 0);
    }
}

/// Where a page is written: the page titled `Index` lies right below the
/// destination, every other page below its directory `posts`, each in a file
/// named by its title with `.md` behind it.
pub proof fn law_output_path(destination: Seq<char>, title: Seq<char>)
    ensures
        title == "Index"@ ==> output_path(destination, title) == join(destination, "Index.md"@),
        title != "Index"@ ==> output_path(destination, title) == join(
            join(destination, "posts"@),
            title + ".md"@,
        ),
{
    reveal_strlit("Index");
    reveal_strlit(".md");
    reveal_strlit("Index.md");
    assert("Index"@ + ".md"@ =~= "Index.md"@);
}

/// An embedded image is copied exactly if it is found: for a page whose text
/// is `![[name]]`, the one copy is that of the image `name` to `name` below
/// the destination where the images hold `name`, and there is no copy where
/// they do not.
///
/// This is stated of every `name` without a line break in which `]]` does
/// not close the brackets early.
pub proof fn law_embedded_image(
    name: Seq<char>,
    images: Map<Seq<char>, Seq<char>>,
    destination: Seq<char>,
)
    requires
        fits_span(name, close_mark()),
    ensures
        embeds_from(embed_mark() + name + close_mark(), 0) == seq![name],
        copies_for(seq![name], images, destination) == if images.contains_key(name) {
            seq![(images[name], join(destination, name))]
        } else {
            Seq::<(Seq<char>, Seq<char>)>::empty()
        },
{
    lemma_one_span(embed_mark(), name, close_mark());
    lemma_embed_alone(embed_mark() + name + close_mark(), 3 + name.len() as int);
    lemma_one_copy(name, images, destination);
}

/// A text that is one embedded image names that image and no other.
proof fn lemma_embed_alone(s: Seq<char>, e: int)
    requires
        span_at(s, embed_mark(), close_mark(), 0) == Some((3int, e)),
        s.len() == e + 2,
    ensures
        embeds_from(s, 0) == seq![s.subrange(3, e)],
{
    assert(embeds_from(s, e + 2) == Seq::<Seq<char>>::empty());
    assert(seq![s.subrange(3, e)] + Seq::<Seq<char>>::empty() =~= seq![s.subrange(3, e)]);
}

/// The copies for one name: one where the images hold the name, none where
/// they do not.
proof fn lemma_one_copy(
    name: Seq<char>,
    images: Map<Seq<char>, Seq<char>>,
    destination: Seq<char>,
)
    ensures
        copies_for(seq![name], images, destination) == if images.contains_key(name) {
            seq![(images[name], join(destination, name))]
        } else {
            Seq::<(Seq<char>, Seq<char>)>::empty()
        },
{
    let names = seq![name];
    assert(names.drop_last() =~= Seq::<Seq<char>>::empty());
    assert(copies_for(names.drop_last(), images, destination) == Seq::<
        (Seq<char>, Seq<char>),
    >::empty());
    assert(Seq::<(Seq<char>, Seq<char>)>::empty().push((images[name], join(destination, name)))
        =~= seq![(images[name], join(destination, name))]);
}

/// Referrers keep their places: one more reference changes no title among
/// the referrers and takes none away; a page that refers for the first time
/// comes last.
pub proof fn law_referrers_in_order(refs: Seq<(Seq<char>, nat)>, source: Seq<char>)
    ensures
        noted(refs, source).len() >= refs.len(),
        forall|j: int| 0 <= j < refs.len() ==> (#[trigger] noted(refs, source)[j]).0 == refs[j].0,
        has_source(refs, source) ==> noted(refs, source).len() == refs.len(),
        !has_source(refs, source) ==> noted(refs, source) == refs.push((source, 1nat)),
{
    if has_source(refs, source) {
        lemma_first_source(refs, source);
        let k = choose|k: int| is_first_referrer(refs, source, k);
        assert(is_first_referrer(refs, source, k));
    } else {
        assert forall|k: int| !is_first_referrer(refs, source, k) by {
            if is_first_referrer(refs, source, k) {
                assert(refs[k].0 == source);
            }
        }
    }
}

/// What is added to a page that begins with front matter. A page whose text
/// begins with `---` and a line break gets, right behind them, the two lines
/// that name its referrers, where it has referrers; where it has none, it
/// gets two lines with empty lists and an empty line.
pub proof fn law_front_matter(rest: Seq<char>, refs: Seq<(Seq<char>, nat)>)
    ensures
        annotated("---\n"@ + rest, Some(refs)) == Some("---\n"@ + backlink_lines(refs) + rest),
        annotated("---\n"@ + rest, None) == Some(
            "---\nbacklinks: []\nbacklinks_count: []\n"@ + "\n"@ + rest,
        ),
{
    reveal_strlit("---\n");
    reveal_strlit("---");
    reveal_strlit("\n");
    let text = "---\n"@ + rest;
    assert(text.subrange(0, 4) =~= "---\n"@);
    assert(occurs_at(text, "---\n"@, 0));
    lemma_find_first(text, "---\n"@, 0);
    assert(text.take(4) =~= "---\n"@);
    assert(text.skip(4) =~= rest);
    assert(text.subrange(0, 3) =~= "---"@);
    assert(occurs_at(text, "---"@, 0));
    lemma_find_first(text, "---"@, 0);
    assert(text.take(0) =~= Seq::<char>::empty());
    assert(text.skip(3) =~= "\n"@ + rest);
    let lines = "---\nbacklinks: []\nbacklinks_count: []\n"@;
    assert(Seq::<char>::empty() + lines + ("\n"@ + rest) =~= lines + "\n"@ + rest);
}

} // verus!
