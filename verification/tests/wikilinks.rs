use valis_core::notes::markdown::{filename_type, parse_wikilink, WikilinkType};

#[test]
fn markdown_test_simple() {
    let wikilink = parse_wikilink("[[Test]]").unwrap();
    assert_eq!(wikilink.name, "Test");
    assert_eq!(wikilink.link, "Test");
    assert_eq!(wikilink.anchor, "");
    assert_eq!(wikilink.link_type, WikilinkType::TEXT);
}

#[test]
fn markdown_test_alternate_name() {
    let wikilink = parse_wikilink("[[Test|Another]]").unwrap();
    assert_eq!(wikilink.name, "Another");
    assert_eq!(wikilink.link, "Test");
    assert_eq!(wikilink.anchor, "");
    assert_eq!(wikilink.link_type, WikilinkType::TEXT);
}

#[test]
fn markdown_test_anchor() {
    let wikilink = parse_wikilink("[[Test#Anchor]]").unwrap();
    assert_eq!(wikilink.name, "Test");
    assert_eq!(wikilink.link, "Test");
    assert_eq!(wikilink.anchor, "Anchor");
    assert_eq!(wikilink.link_type, WikilinkType::TEXT);
}

#[test]
fn markdown_test_just_anchor() {
    let wikilink = parse_wikilink("[[#Anchor Test]]").unwrap();
    assert_eq!(wikilink.name, "");
    assert_eq!(wikilink.link, "");
    assert_eq!(wikilink.anchor, "Anchor Test");
    assert_eq!(wikilink.link_type, WikilinkType::TEXT);
}

#[test]
fn markdown_test_anchor_and_name() {
    let wikilink = parse_wikilink("[[Test#Anchor2|Another]]").unwrap();
    assert_eq!(wikilink.name, "Another");
    assert_eq!(wikilink.link, "Test");
    assert_eq!(wikilink.anchor, "Anchor2");
    assert_eq!(wikilink.link_type, WikilinkType::TEXT);
}

#[test]
fn markdown_test_image() {
    let wikilink = parse_wikilink("[[Test.jpg]]").unwrap();
    assert_eq!(wikilink.name, "Test.jpg");
    assert_eq!(wikilink.link, "Test.jpg");
    assert_eq!(wikilink.anchor, "");
    assert_eq!(wikilink.link_type, WikilinkType::IMAGE);
}

#[test]
fn markdown_test_image_name() {
    let wikilink = parse_wikilink("[[Test.png|Another]]").unwrap();
    assert_eq!(wikilink.name, "Another");
    assert_eq!(wikilink.link, "Test.png");
    assert_eq!(wikilink.anchor, "");
    assert_eq!(wikilink.link_type, WikilinkType::IMAGE);
}

#[test]
fn markdown_test_extension_jpg() {
    let filename = "foo.jpg";
    assert_eq!(filename_type(filename), WikilinkType::IMAGE);
    let filename2 = "FOO.JPG";
    assert_eq!(filename_type(filename2), WikilinkType::IMAGE);
}

#[test]
fn markdown_test_extension_png() {
    let filename = "foo.png";
    assert_eq!(filename_type(filename), WikilinkType::IMAGE);
    let filename2 = "FOO.PNG";
    assert_eq!(filename_type(filename2), WikilinkType::IMAGE);
}

#[test]
fn markdown_test_extension_gif() {
    let filename = "foo.gif";
    assert_eq!(filename_type(filename), WikilinkType::IMAGE);
    let filename2 = "FOO.GIF";
    assert_eq!(filename_type(filename2), WikilinkType::IMAGE);
}

#[test]
fn code_over_lines_is_passed_over() {
    let links = valis_core::notes::markdown::extract_links("```\n[[A]]\n```\n[[B]]");
    assert_eq!(links.len(), 1);
    assert_eq!(links[0].link, "B");
    assert_eq!(
        valis_core::notes::markdown::remove_code_blocks("a\n```rust\nlet x = [[1]];\n```\nb"),
        "a\n\nb"
    );
    assert_eq!(
        valis_core::notes::markdown::remove_code_blocks("x ```one``` y ```two\nthree``` z"),
        "x  y  z"
    );
}

#[test]
fn a_fence_that_is_not_closed_strips_nothing() {
    let text = "[[A]]\n```\n[[B]]\nno end";
    assert_eq!(valis_core::notes::markdown::remove_code_blocks(text), text);
    let links = valis_core::notes::markdown::extract_links(text);
    assert_eq!(links.len(), 2);
    assert_eq!(links[0].link, "A");
    assert_eq!(links[1].link, "B");
    assert_eq!(
        valis_core::notes::markdown::remove_code_blocks("```a``` b ``` c"),
        " b ``` c"
    );
}

#[test]
fn a_name_without_a_dot_is_text() {
    for name in ["png", "gif", "JPEG", "jpg", "", "note", "dir/png"] {
        assert_eq!(filename_type(name), WikilinkType::TEXT, "{:?}", name);
    }
    for name in [".png", "a.png", "a.b.GIF", "png.jpeg"] {
        assert_eq!(filename_type(name), WikilinkType::IMAGE, "{:?}", name);
    }
    for name in ["png.", "a.png.txt", "a.svg", "a.pngx"] {
        assert_eq!(filename_type(name), WikilinkType::TEXT, "{:?}", name);
    }
    let wikilink = parse_wikilink("[[png]]").unwrap();
    assert_eq!(wikilink.link, "png");
    assert_eq!(wikilink.link_type, WikilinkType::TEXT);
}

#[test]
fn a_note_named_like_an_extension_keeps_its_backlinks() {
    let pages = vec![
        valis_core::notes::markdown::PageLoader::from_path("A.md", "[[gif]] and [[png|shown]]"),
        valis_core::notes::markdown::PageLoader::from_path("gif.md", "[[A]]"),
    ];
    let index = valis_core::notes::humble::build_backlinks(&pages);
    assert_eq!(index.get("gif").cloned(), Some(vec![("A".to_string(), 1)]));
    assert_eq!(index.get("png").cloned(), Some(vec![("A".to_string(), 1)]));
}

#[test]
fn wikilinks_are_parsed_from_strings() {
    let wikilink: valis_core::notes::markdown::WikiLink = "[[Test#Anchor|Shown]]".parse().unwrap();
    assert_eq!(wikilink.link, "Test");
    assert_eq!(wikilink.anchor, "Anchor");
    assert_eq!(wikilink.name, "Shown");
    assert_eq!(wikilink.link_type, WikilinkType::TEXT);
    let none: Result<valis_core::notes::markdown::WikiLink, _> = "[[]]".parse();
    assert_eq!(none.err(), Some(valis_core::notes::markdown::WikilinkError::Empty));
}
