use valis_core::notes::backlinks::BacklinkIndex;
use valis_core::notes::humble::{
    add_backlinks, build_backlinks, get_pages, is_marked_text, publishable_pages, replace_first,
    AnnotateError,
};
use valis_core::notes::images::{
    copy_images_from_page, create_image_map, embedded_images, ImageMap,
};
use valis_core::notes::markdown::{
    extract_links, parse_wikilink, Page, PageLoader, WikilinkError, WikilinkType,
};
use valis_core::notes::site::{
    annotate_pages, build, count_links, output_path_of, save_pages_to_files, BuildError,
};

fn page(path: &str, contents: &str) -> Page {
    Page::from_path(path, contents)
}

fn referrers(index: &BacklinkIndex, title: &str) -> Option<Vec<(String, usize)>> {
    index.get(title).cloned()
}

fn pair(a: &str, b: &str) -> (String, String) {
    (a.to_string(), b.to_string())
}

#[test]
fn a_page_is_read_from_its_path_and_text() {
    let p = page("notes/deep/My Note.md", "see [[Other]] and ![[pic.png]]");
    assert_eq!(p.title, "My Note");
    assert_eq!(p.path, "notes/deep/My Note.md");
    assert_eq!(p.contents, "see [[Other]] and ![[pic.png]]");
    assert_eq!(p.wikilinks.len(), 2);
    assert_eq!(p.wikilinks[0].link, "Other");
    assert_eq!(p.wikilinks[0].link_type, WikilinkType::TEXT);
    assert_eq!(p.wikilinks[1].link, "pic.png");
    assert_eq!(p.wikilinks[1].link_type, WikilinkType::IMAGE);
}

#[test]
fn titles_are_file_names_without_extension() {
    assert_eq!(Page::title_from_path("a/b/c.md"), "c");
    assert_eq!(Page::title_from_path("c.md"), "c");
    assert_eq!(Page::title_from_path("a.b.md"), "a.b");
    assert_eq!(Page::title_from_path("dir/.hidden"), ".hidden");
    assert_eq!(Page::title_from_path("dir/noext"), "noext");
    assert_eq!(Page::title_from_path(""), "");
    for p in ["a/b/c.md", "c.md", "a.b.md", "dir/.hidden", "dir/noext", "x/y.tar.gz", "/abs/Index.md"] {
        let std_stem = std::path::Path::new(p)
            .file_stem()
            .and_then(|s| s.to_str())
            .unwrap_or("")
            .to_string();
        assert_eq!(Page::title_from_path(p), std_stem, "{:?}", p);
    }
}

#[test]
fn a_link_without_fields_is_no_link() {
    assert_eq!(parse_wikilink("[[]]").err(), Some(WikilinkError::Empty));
    assert_eq!(parse_wikilink("").err(), Some(WikilinkError::Empty));
    assert_eq!(parse_wikilink("[[#]]").err(), Some(WikilinkError::Empty));
    assert_eq!(parse_wikilink("[[|]]").err(), Some(WikilinkError::Empty));
    assert!(parse_wikilink("[[ | ]]").is_ok());
    assert!(extract_links("[[]] and [[#]]").is_empty());
    assert_eq!(extract_links("[[]] and [[x]]").len(), 1);
}

#[test]
fn svg_is_a_text_link_but_an_image_file() {
    let w = parse_wikilink("[[A.svg]]").unwrap();
    assert_eq!(w.link, "A.svg");
    assert_eq!(w.link_type, WikilinkType::TEXT);
    let map = create_image_map(&["assets/A.svg".to_string(), "assets/B.jpeg".to_string()]);
    assert_eq!(map.get("A.svg"), Some(&"assets/A.svg".to_string()));
    assert_eq!(map.get("B.jpeg"), None);
}

#[test]
fn anchor_only_link_with_alias_keeps_the_whole_remainder() {
    let w = parse_wikilink("[[#Sec|Alias]]").unwrap();
    assert_eq!(w.link, "");
    assert_eq!(w.anchor, "Sec|Alias");
    assert_eq!(w.name, "Alias");
}

#[test]
fn publish_marker_must_be_a_line_of_its_own() {
    assert!(is_marked_text("---\npublish: true\n---\n"));
    assert!(is_marked_text("publish: true"));
    assert!(is_marked_text("a\n  publish: true \t\r\nb"));
    assert!(!is_marked_text("publish: true, later"));
    assert!(!is_marked_text("x publish: true"));
    assert!(!is_marked_text("publish:true"));
    assert!(!is_marked_text("publish: false"));
    assert!(!is_marked_text(""));
}

#[test]
fn filtering_keeps_marked_pages_in_order_and_is_idempotent() {
    let pages = vec![
        page("a.md", "publish: true\n[[b]]"),
        page("b.md", "draft"),
        page("c.md", "---\n publish: true\n---"),
        page("d.md", "publish: true!"),
    ];
    let kept = publishable_pages(pages);
    let titles: Vec<&str> = kept.iter().map(|p| p.title.as_str()).collect();
    assert_eq!(titles, vec!["a", "c"]);
    let again = publishable_pages(kept);
    let titles: Vec<&str> = again.iter().map(|p| p.title.as_str()).collect();
    assert_eq!(titles, vec!["a", "c"]);
}

#[test]
fn backlinks_count_references_per_page() {
    let pages = vec![
        page("X.md", "[[Y]] then [[Y]] and once more [[Y]]"),
        page("Z.md", "[[Y]]"),
    ];
    let index = build_backlinks(&pages);
    assert_eq!(
        referrers(&index, "Y"),
        Some(vec![("X".to_string(), 3), ("Z".to_string(), 1)])
    );
    assert_eq!(referrers(&index, "X"), None);
    assert_eq!(index.targets(), vec!["Y".to_string()]);
}

#[test]
fn backlinks_pass_over_images_and_anchors() {
    let pages = vec![
        page("A.md", "[[B]] ![[pic.png]] [[pic.gif]] [[#top]] [[B#sec|shown]] [[C.svg]]"),
        page("B.md", "[[A]] [[b]] [[A|again]]"),
    ];
    let index = build_backlinks(&pages);
    assert_eq!(referrers(&index, "B"), Some(vec![("A".to_string(), 2)]));
    assert_eq!(referrers(&index, "A"), Some(vec![("B".to_string(), 2)]));
    assert_eq!(referrers(&index, "b"), Some(vec![("B".to_string(), 1)]));
    assert_eq!(referrers(&index, "C.svg"), Some(vec![("A".to_string(), 1)]));
    assert_eq!(referrers(&index, "pic.png"), None);
    assert_eq!(referrers(&index, "pic.gif"), None);
    assert_eq!(referrers(&index, ""), None);
    assert_eq!(
        index.targets(),
        vec!["B".to_string(), "C.svg".to_string(), "A".to_string(), "b".to_string()]
    );
}

#[test]
fn pages_of_one_title_share_a_count() {
    let pages = vec![
        page("one/N.md", "[[T]]"),
        page("M.md", "[[T]]"),
        page("two/N.md", "[[T]] [[T]]"),
    ];
    let index = build_backlinks(&pages);
    assert_eq!(
        referrers(&index, "T"),
        Some(vec![("N".to_string(), 3), ("M".to_string(), 1)])
    );
}

#[test]
fn record_adds_and_counts() {
    let mut index = BacklinkIndex::new();
    assert_eq!(referrers(&index, "t"), None);
    index.record("a", "t");
    index.record("b", "t");
    index.record("a", "t");
    index.record("a", "u");
    assert_eq!(
        referrers(&index, "t"),
        Some(vec![("a".to_string(), 2), ("b".to_string(), 1)])
    );
    assert_eq!(referrers(&index, "u"), Some(vec![("a".to_string(), 1)]));
}

#[test]
fn replace_first_replaces_the_first_occurrence_only() {
    assert_eq!(replace_first("a-b-c", "-", "+"), "a+b-c");
    assert_eq!(replace_first("abc", "x", "y"), "abc");
    assert_eq!(replace_first("aaa", "aa", "b"), "ba");
    assert_eq!(replace_first("abc", "", "x"), "xabc");
    assert_eq!(replace_first("", "", "x"), "x");
    assert_eq!(replace_first("\u{e9}t\u{e9}", "t", "T"), "\u{e9}T\u{e9}");
}

#[test]
fn a_page_without_referrers_gets_empty_lists() {
    let index = BacklinkIndex::new();
    let mut p = page("Lonely.md", "---\ntitle: Lonely\n---\nbody");
    assert_eq!(add_backlinks(&mut p, &index), Ok(()));
    assert_eq!(
        p.contents,
        "---\nbacklinks: []\nbacklinks_count: []\n\ntitle: Lonely\n---\nbody"
    );
    let mut q = page("Bare.md", "no front matter");
    assert_eq!(add_backlinks(&mut q, &index), Ok(()));
    assert_eq!(q.contents, "no front matter");
    let mut r = page("Inline.md", "text --- more");
    assert_eq!(add_backlinks(&mut r, &index), Ok(()));
    assert_eq!(r.contents, "text ---\nbacklinks: []\nbacklinks_count: []\n more");
}

#[test]
fn a_page_with_referrers_gets_their_titles_and_counts() {
    let pages = vec![
        page("X.md", "[[Y]] [[Y]] [[Y]] [[Y]] [[Y]] [[Y]] [[Y]] [[Y]] [[Y]] [[Y]] [[Y]] [[Y]]"),
        page("Z.md", "[[Y]]"),
        page("Y.md", "---\npublish: true\n---\nbody"),
    ];
    let index = build_backlinks(&pages);
    let mut y = page("Y.md", "---\npublish: true\n---\nbody");
    assert_eq!(add_backlinks(&mut y, &index), Ok(()));
    assert_eq!(
        y.contents,
        "---\nbacklinks: [\"X\", \"Z\"]\nbacklinks_count: [12, 1]\npublish: true\n---\nbody"
    );
    assert_eq!(y.title, "Y");
    assert_eq!(y.path, "Y.md");
}

#[test]
fn referrers_need_front_matter() {
    let pages = vec![page("X.md", "[[Y]]")];
    let index = build_backlinks(&pages);
    let mut y = page("Y.md", "--- not at the end of a line");
    assert_eq!(add_backlinks(&mut y, &index), Err(AnnotateError::MissingFrontMatter));
    assert_eq!(y.contents, "--- not at the end of a line");
    let done = annotate_pages(vec![page("Y.md", "nothing")], &index);
    assert_eq!(done.err(), Some(AnnotateError::MissingFrontMatter));
}

#[test]
fn index_lands_at_the_root_and_others_under_posts() {
    assert_eq!(output_path_of("out", "Index"), "out/Index.md");
    assert_eq!(output_path_of("out", "Other"), "out/posts/Other.md");
    assert_eq!(output_path_of("out/", "index"), "out/posts/index.md");
    assert_eq!(output_path_of("/srv/site", "A b"), "/srv/site/posts/A b.md");
    assert_eq!(output_path_of("", "Index"), "Index.md");
    let pages = vec![page("Index.md", "[[A|a]]"), page("A.md", "![[p.png]] [[Index]]")];
    assert_eq!(
        save_pages_to_files(&pages, "site"),
        vec![
            pair("site/Index.md", "[a]({{< ref \"A\" >}})"),
            pair(
                "site/posts/A.md",
                "{{< figure src=\"/assets/p.png\" alt=\"p.png\" >}} [Index]({{< ref \"Index\" >}})"
            ),
        ]
    );
}

#[test]
fn image_map_keeps_the_later_of_two_names() {
    let files = vec![
        "src/a/pic.png".to_string(),
        "src/notes.md".to_string(),
        "src/b/pic.png".to_string(),
        "src/c/photo.JPG".to_string(),
        "src/c/draw.svg".to_string(),
        "src/.png".to_string(),
        "src/png".to_string(),
    ];
    let map = create_image_map(&files);
    assert_eq!(map.get("pic.png"), Some(&"src/b/pic.png".to_string()));
    assert_eq!(map.get("draw.svg"), Some(&"src/c/draw.svg".to_string()));
    assert_eq!(map.get("photo.JPG"), None);
    assert_eq!(map.get("notes.md"), None);
    assert_eq!(map.get(".png"), None);
    assert_eq!(map.get("png"), None);
    let mut own = ImageMap::new();
    own.insert("x".to_string(), "1".to_string());
    own.insert("x".to_string(), "2".to_string());
    assert_eq!(own.get("x"), Some(&"2".to_string()));
    assert_eq!(own.get("y"), None);
}

#[test]
fn found_images_are_copied_and_missing_ones_passed_over() {
    let map = create_image_map(&["tree/deep/pic.png".to_string()]);
    let p = page("P.md", "![[pic.png]] ![[gone.png]] [[pic.png]] ![[pic.png]]");
    assert_eq!(
        embedded_images(&p.contents),
        vec!["pic.png".to_string(), "gone.png".to_string(), "pic.png".to_string()]
    );
    assert_eq!(
        copy_images_from_page(&p, &map, "out/assets"),
        vec![
            pair("tree/deep/pic.png", "out/assets/pic.png"),
            pair("tree/deep/pic.png", "out/assets/pic.png"),
        ]
    );
    let q = page("Q.md", "![[gone.png]]");
    assert!(copy_images_from_page(&q, &map, "out/assets").is_empty());
}

#[test]
fn links_are_counted() {
    let pages = vec![page("a.md", "[[x]] [[y]]"), page("b.md", ""), page("c.md", "![[z.png]]")];
    assert_eq!(count_links(&pages), Some(3));
    assert_eq!(count_links(&[]), Some(0));
}

#[test]
fn a_site_is_built_from_notes() {
    let files = vec![
        pair("src/Index.md", "---\npublish: true\n---\nStart at [[First]] or [[Second|two]].\n"),
        pair("src/First.md", "---\npublish: true\n---\nSee [[Second]] and ![[pic.png]] and ![[lost.png]].\n"),
        pair("src/Second.md", "---\npublish: true\n---\nBack to [[First]], [[First#top]].\n"),
        pair("src/Draft.md", "---\npublish: false\n---\n[[First]] [[Second]]\n"),
    ];
    let images = vec!["src/img/pic.png".to_string(), "src/Index.md".to_string()];
    let site = build(&files, &images, "site/content", "site/static/assets").unwrap();
    let titles: Vec<&str> = site.pages.iter().map(|p| p.title.as_str()).collect();
    assert_eq!(titles, vec!["Index", "First", "Second"]);
    assert_eq!(
        referrers(&site.backlinks, "First"),
        Some(vec![("Index".to_string(), 1), ("Second".to_string(), 2)])
    );
    assert_eq!(
        referrers(&site.backlinks, "Second"),
        Some(vec![("Index".to_string(), 1), ("First".to_string(), 1)])
    );
    assert_eq!(referrers(&site.backlinks, "Index"), None);
    assert_eq!(
        site.pages[0].contents,
        "---\nbacklinks: []\nbacklinks_count: []\n\npublish: true\n---\nStart at [[First]] or [[Second|two]].\n"
    );
    assert_eq!(
        site.files,
        vec![
            pair(
                "site/content/Index.md",
                "---\nbacklinks: []\nbacklinks_count: []\n\npublish: true\n---\nStart at [First]({{< ref \"First\" >}}) or [two]({{< ref \"Second\" >}}).\n"
            ),
            pair(
                "site/content/posts/First.md",
                "---\nbacklinks: [\"Index\", \"Second\"]\nbacklinks_count: [1, 2]\npublish: true\n---\nSee [Second]({{< ref \"Second\" >}}) and {{< figure src=\"/assets/pic.png\" alt=\"pic.png\" >}} and {{< figure src=\"/assets/lost.png\" alt=\"lost.png\" >}}.\n"
            ),
            pair(
                "site/content/posts/Second.md",
                "---\nbacklinks: [\"Index\", \"First\"]\nbacklinks_count: [1, 1]\npublish: true\n---\nBack to [First]({{< ref \"First\" >}}), [First#top]({{< ref \"First#top\" >}}).\n"
            ),
        ]
    );
    assert_eq!(site.copies, vec![pair("src/img/pic.png", "site/static/assets/pic.png")]);
}

#[test]
fn a_run_fails_where_front_matter_is_missing() {
    let files = vec![
        pair("A.md", "publish: true\n[[B]]"),
        pair("B.md", "publish: true\nno rule here"),
    ];
    assert_eq!(build(&files, &[], "out", "assets").err(), Some(BuildError::MissingFrontMatter));
    let none: Vec<(String, String)> = vec![];
    let site = build(&none, &[], "out", "assets").unwrap();
    assert!(site.pages.is_empty() && site.files.is_empty() && site.copies.is_empty());
}

#[test]
fn pages_come_in_the_order_of_the_files() {
    let files = vec![pair("b.md", "[[a]]"), pair("a.md", ""), pair("d/c.md", "[[a]] [[b]]")];
    let pages = get_pages(&files);
    let titles: Vec<&str> = pages.iter().map(|p| p.title.as_str()).collect();
    assert_eq!(titles, vec!["b", "a", "c"]);
    assert_eq!(pages[2].wikilinks.len(), 2);
    assert_eq!(pages[2].path, "d/c.md");
}
