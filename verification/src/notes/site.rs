//! The whole run: from the files of a source tree to the files of a site.
//!
//! Nothing here reads or writes a file. `build` takes the text of the notes
//! and the paths of the files that may be images, and returns what is to be
//! written and copied.
use crate::notes::backlinks::BacklinkIndex;
use crate::notes::humble::{
    add_backlinks, annotated, backlinks_of, build_backlinks, entry_of, get_pages,
    lemma_link_count_take, link_count, loaded, page_views, publishable, publishable_pages,
    AnnotateError,
};
use crate::notes::images::{
    copies_for, copy_images_from_page, create_image_map, embeds_from, image_map, pair_views,
    string_views,
};
use crate::notes::markdown::{convert_wikilinks_to_hugo, hugo_from, Page, PageView};
use crate::paths::{join, join_paths};
use crate::text::{append_chars, chars_eq, from_chars, to_chars};
use vstd::prelude::*;

verus! {

/// The directory that the page titled `title` is written to: `destination`
/// itself for the page titled `Index`, its directory `posts` for every other.
pub open spec fn output_dir(destination: Seq<char>, title: Seq<char>) -> Seq<char> {
    if title == "Index"@ {
        destination
    } else {
        join(destination, "posts"@)
    }
}

/// The file that the page titled `title` is written to: `title` with `.md`
/// behind it, in the page's directory.
pub open spec fn output_path(destination: Seq<char>, title: Seq<char>) -> Seq<char> {
    join(output_dir(destination, title), title + ".md"@)
}

/// The file that a page is written as: its path, and its text with the
/// wikilinks rewritten.
pub open spec fn site_file(page: PageView, destination: Seq<char>) -> (Seq<char>, Seq<char>) {
    (output_path(destination, page.title), hugo_from(page.contents, 0))
}

/// The files that `pages` are written as, in the order of the pages.
pub open spec fn site_files(pages: Seq<PageView>, destination: Seq<char>) -> Seq<
    (Seq<char>, Seq<char>),
> {
    pages.map_values(|p: PageView| site_file(p, destination))
}

/// The copies to make for the images that `pages` embed, page by page.
pub open spec fn site_copies(
    pages: Seq<PageView>,
    images: Map<Seq<char>, Seq<char>>,
    destination: Seq<char>,
) -> Seq<(Seq<char>, Seq<char>)>
    decreases pages.len(),
{
    if pages.len() == 0 {
        Seq::empty()
    } else {
        site_copies(pages.drop_last(), images, destination) + copies_for(
            embeds_from(pages.last().contents, 0),
            images,
            destination,
        )
    }
}

/// A page with its backlinks added, where its text can take them.
pub open spec fn annotated_page(page: PageView, index: Map<Seq<char>, Seq<(Seq<char>, nat)>>) -> Option<
    PageView,
> {
    match annotated(page.contents, entry_of(index, page.title)) {
        Some(contents) => Some(
            PageView {
                title: page.title,
                path: page.path,
                contents,
                wikilinks: page.wikilinks,
            },
        ),
        None => None,
    }
}

/// Whether every page of `pages` can take its backlinks.
pub open spec fn all_annotated(
    pages: Seq<PageView>,
    index: Map<Seq<char>, Seq<(Seq<char>, nat)>>,
) -> bool {
    forall|i: int| 0 <= i < pages.len() ==> annotated_page(#[trigger] pages[i], index) is Some
}

/// `pages`, each with its backlinks added.
pub open spec fn annotated_pages(
    pages: Seq<PageView>,
    index: Map<Seq<char>, Seq<(Seq<char>, nat)>>,
) -> Seq<PageView> {
    pages.map_values(|p: PageView| annotated_page(p, index)->0)
}

/// What a run produces.
pub struct Site {
    /// The published pages, with their backlinks in the front matter.
    pub pages: Vec<Page>,
    /// Who refers to whom among the published pages.
    pub backlinks: BacklinkIndex,
    /// The files to write, each as its path and its text.
    pub files: Vec<(String, String)>,
    /// The images to copy, each as the path to copy from and the path to
    /// copy to.
    pub copies: Vec<(String, String)>,
}

/// Why a run produced nothing.
#[derive(Debug, PartialEq, Eq, Clone, Copy, Structural)]
pub enum BuildError {
    /// A published page has referrers and no front matter to name them in.
    MissingFrontMatter,
    /// The published pages hold more wikilinks than can be counted.
    TooManyLinks,
}

/// The path of the file that the page titled `title` is written to.
pub fn output_path_of(destination: &str, title: &str) -> (path: String)
    ensures
        path@ == output_path(destination@, title@),
{
    let dest = to_chars(destination);
    let name = to_chars(title);
    let dir = if chars_eq(&name, &to_chars("Index")) {
        dest
    } else {
        join_paths(&dest, &to_chars("posts"))
    };
    let mut file: Vec<char> = Vec::new();
    append_chars(&mut file, &name);
    append_chars(&mut file, &to_chars(".md"));
    assert(file@ =~= title@ + ".md"@);
    from_chars(&join_paths(&dir, &file))
}

impl Page {
    /// The file that the page is written as below `destination`: its path,
    /// and its text with the wikilinks rewritten.
    pub fn save_to_file(&self, destination: &str) -> (file: (String, String))
        ensures
            (file.0@, file.1@) == site_file(self@, destination@),
    {
        (
            output_path_of(destination, self.title.as_str()),
            convert_wikilinks_to_hugo(self.contents.as_str()),
        )
    }
}

/// The files that `pages` are written as below `destination`. The page
/// titled `Index` goes to `destination` itself, every other page to its
/// directory `posts`.
pub fn save_pages_to_files(pages: &[Page], destination: &str) -> (files: Vec<(String, String)>)
    ensures
        pair_views(files@) == site_files(page_views(pages@), destination@),
{
    let mut files: Vec<(String, String)> = Vec::new();
    let mut i: usize = 0;
    while i < pages.len()
        invariant
            i <= pages.len(),
            pair_views(files@) == site_files(page_views(pages@).take(i as int), destination@),
        decreases pages.len() - i,
    {
        let ghost before = pair_views(files@);
        let file = pages[i].save_to_file(destination);
        files.push(file);
        proof {
            let views = page_views(pages@);
            assert(pair_views(files@) =~= before.push(site_file(pages@[i as int]@, destination@)));
            assert(views.take(i + 1) =~= views.take(i as int).push(views[i as int]));
            assert(site_files(views.take(i + 1), destination@) =~= before.push(
                site_file(views[i as int], destination@),
            ));
        }
        i += 1;
    }
    assert(page_views(pages@).take(pages@.len() as int) =~= page_views(pages@));
    files
}

/// Adds to every page its backlinks. Fails at the first page that cannot
/// take them.
pub fn annotate_pages(pages: Vec<Page>, backlinks: &BacklinkIndex) -> (r: Result<
    Vec<Page>,
    AnnotateError,
>)
    requires
        backlinks.wf(),
    ensures
        match r {
            Ok(done) => {
                &&& all_annotated(page_views(pages@), backlinks@)
                &&& page_views(done@) == annotated_pages(page_views(pages@), backlinks@)
            },
            Err(e) => !all_annotated(page_views(pages@), backlinks@) && e
                == AnnotateError::MissingFrontMatter,
        },
{
    let ghost before = page_views(pages@);
    let mut done = pages;
    let mut i: usize = 0;
    while i < done.len()
        invariant
            i <= done.len(),
            backlinks.wf(),
            before == page_views(pages@),
            done@.len() == before.len(),
            forall|k: int|
                0 <= k < i ==> annotated_page(#[trigger] before[k], backlinks@) == Some(
                    done@[k]@,
                ),
            forall|k: int| i <= k < done@.len() ==> (#[trigger] done@[k])@ == before[k],
        decreases done.len() - i,
    {
        let ghost earlier = done@;
        assert(earlier[i as int]@ == before[i as int]);
        let r = add_backlinks(&mut done[i], backlinks);
        assert(forall|k: int| 0 <= k < done@.len() && k != i ==> done@[k] == earlier[k]);
        match r {
            Ok(_) => {
                assert(annotated_page(before[i as int], backlinks@) == Some(done@[i as int]@));
            },
            Err(e) => {
                assert(annotated_page(before[i as int], backlinks@) is None);
                assert(!all_annotated(before, backlinks@));
                return Err(e);
            },
        }
        i += 1;
    }
    assert(page_views(done@) =~= annotated_pages(before, backlinks@));
    Ok(done)
}

/// The number of wikilinks of all `pages` together, if it can be counted.
pub fn count_links(pages: &[Page]) -> (r: Option<usize>)
    ensures
        match r {
            Some(n) => n == link_count(page_views(pages@)),
            None => link_count(page_views(pages@)) > usize::MAX,
        },
{
    let ghost views = page_views(pages@);
    let mut n: usize = 0;
    let mut i: usize = 0;
    assert(views.take(0) =~= Seq::<PageView>::empty());
    while i < pages.len()
        invariant
            i <= pages.len(),
            views == page_views(pages@),
            n == link_count(views.take(i as int)),
        decreases pages.len() - i,
    {
        proof {
            assert(views.take(i + 1).drop_last() =~= views.take(i as int));
            assert(views.take(i + 1).last() == pages@[i as int]@);
            lemma_link_count_take(views, i + 1);
        }
        let more = pages[i].wikilinks.len();
        if more > usize::MAX - n {
            return None;
        }
        n = n + more;
        i += 1;
    }
    assert(views.take(views.len() as int) =~= views);
    Some(n)
}

/// The copies to make for the images that `pages` embed.
pub fn copy_images(pages: &[Page], files: &[String], destination: &str) -> (copies: Vec<
    (String, String),
>)
    ensures
        pair_views(copies@) == site_copies(
            page_views(pages@),
            image_map(string_views(files@)),
            destination@,
        ),
{
    let ghost views = page_views(pages@);
    let images = create_image_map(files);
    let mut copies: Vec<(String, String)> = Vec::new();
    let mut i: usize = 0;
    assert(views.take(0) =~= Seq::<PageView>::empty());
    assert(pair_views(copies@) =~= Seq::<(Seq<char>, Seq<char>)>::empty());
    while i < pages.len()
        invariant
            i <= pages.len(),
            views == page_views(pages@),
            images@ == image_map(string_views(files@)),
            pair_views(copies@) == site_copies(views.take(i as int), images@, destination@),
        decreases pages.len() - i,
    {
        proof {
            assert(views.take(i + 1).drop_last() =~= views.take(i as int));
            assert(views.take(i + 1).last() == pages@[i as int]@);
        }
        let ghost before = pair_views(copies@);
        let mut more = copy_images_from_page(&pages[i], &images, destination);
        let ghost added = pair_views(more@);
        copies.append(&mut more);
        assert(pair_views(copies@) =~= before + added);
        i += 1;
    }
    assert(views.take(views.len() as int) =~= views);
    copies
}

/// Builds a site from notes.
///
/// `files` are the notes of the source tree, each as its path and its text.
/// `images` are the paths of the files among which the embedded images are
/// looked up by file name. `destination` is where the pages go, `assets`
/// where the images go.
///
/// The notes are read as pages; the pages marked for publishing are kept;
/// their backlink index is built; each page gets its backlinks in the front
/// matter; each page becomes a file with its wikilinks rewritten; each
/// embedded image that is found becomes a copy. The run fails as a whole
/// where a page with referrers has no front matter.
pub fn build(files: &Vec<(String, String)>, images: &[String], destination: &str, assets: &str) -> (r:
    Result<Site, BuildError>)
    ensures
        match r {
            Ok(site) => {
                let kept = publishable(loaded(files@));
                let index = backlinks_of(kept);
                let pages = annotated_pages(kept, index);
                &&& link_count(kept) <= usize::MAX
                &&& all_annotated(kept, index)
                &&& site.backlinks.wf()
                &&& site.backlinks@ == index
                &&& page_views(site.pages@) == pages
                &&& pair_views(site.files@) == site_files(pages, destination@)
                &&& pair_views(site.copies@) == site_copies(
                    pages,
                    image_map(string_views(images@)),
                    assets@,
                )
            },
            Err(BuildError::TooManyLinks) => link_count(publishable(loaded(files@)))
                > usize::MAX,
            Err(BuildError::MissingFrontMatter) => {
                let kept = publishable(loaded(files@));
                link_count(kept) <= usize::MAX && !all_annotated(kept, backlinks_of(kept))
            },
        },
{
    let all = get_pages(files);
    let kept = publishable_pages(all);
    if count_links(kept.as_slice()).is_none() {
        return Err(BuildError::TooManyLinks);
    }
    let backlinks = build_backlinks(kept.as_slice());
    let pages = match annotate_pages(kept, &backlinks) {
        Ok(pages) => pages,
        Err(_) => {
            return Err(BuildError::MissingFrontMatter);
        },
    };
    let files = save_pages_to_files(pages.as_slice(), destination);
    let copies = copy_images(pages.as_slice(), images, assets);
    Ok(Site { pages, backlinks, files, copies })
}

} // verus!
