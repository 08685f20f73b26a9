use regex::Regex;
use valis_core::notes::images::embedded_images;
use valis_core::notes::markdown::{
    convert_wikilinks_to_hugo, extract_links, filename_type, parse_wikilink, remove_code_blocks,
    WikilinkType,
};
use valis_core::text::char_is_whitespace;

fn samples() -> Vec<&'static str> {
    vec![
        "",
        "plain text",
        "[[A]]",
        "see [[A]] and [[B|bee]] and ![[pic.png]]",
        "[[A#sec]] [[#top]] [[A#sec|shown]]",
        "[[unclosed",
        "[[broken\nacross]] [[ok]]",
        "![[a\n]] [[b]]",
        "[[[nested]]]",
        "[[a]]]]",
        "[[]]",
        "[[|]] [[#]] [[ | ]]",
        "!x[[a]] !![[b]] ![[c]]![[d]]",
        "```[[hidden]]``` [[shown]]",
        "```rust\n[[hidden]]\n```",
        "```\n[[A]]\n```\n[[B]]",
        "before [[a]]\n```\ncode\n``` between [[b]] ```\nmore [[c]]\n```\nafter [[d]]",
        "[[a]] ``` unclosed [[b]]\n[[c]]",
        "```one``` [[a]] ```two\n[[b]]",
        "a ``` b ``` c ``` d",
        "``````[[x]]",
        "````[[x]]````",
        "[[a|b|c]] [[a||b]]",
        "[[ spaced | name ]]",
        "[[\u{e9}t\u{e9}.PNG|\u{4e2d}\u{6587}]] and ![[\u{1f600}.gif]]",
        "[[a]\n]] ]] [[",
        "[ [a]] [[b] ]",
        "text ]] before [[c]]",
        "[[x.jpeg]] [[x.JPG]] [[x.svg]] [[x.tar.gz]] [[jpg]]",
        "---\npublish: true\n---\n[[One]] [[Two|2]] ![[img/three.png]]\n",
    ]
}

fn pattern_links(contents: &str) -> Vec<String> {
    let code = Regex::new(r"(?s)```.*?```").unwrap();
    let stripped = code.replace_all(contents, "").to_string();
    let wikilink = Regex::new(r"(!)?\[\[(.*?)\]\]").unwrap();
    wikilink
        .captures_iter(&stripped)
        .map(|c| c.get(2).unwrap().as_str().to_string())
        .collect()
}

fn pattern_hugo(contents: &str) -> String {
    let re = Regex::new(r"(!?)\[\[(.*?)\]\]").unwrap();
    rewritten(&re, contents)
}

fn rewritten(re: &Regex, contents: &str) -> String {
    let replace = |caps: &regex::Captures| {
        let is_image = &caps[1] == "!";
        let link_and_name = &caps[2];
        if is_image {
            format!(
                "{{{{< figure src=\"/assets/{}\" alt=\"{}\" >}}}}",
                link_and_name, link_and_name
            )
        } else if let Some(pipe_index) = link_and_name.find('|') {
            let (link, name) = link_and_name.split_at(pipe_index);
            let name = &name[1..];
            format!("[{}]({{{{< ref \"{}\" >}}}})", name, link)
        } else {
            format!("[{}]({{{{< ref \"{}\" >}}}})", link_and_name, link_and_name)
        }
    };
    re.replace_all(contents, replace).into_owned()
}

fn type_by_extension(name: &str) -> WikilinkType {
    match name.rsplit_once('.') {
        Some((_, ext)) => match ext.to_lowercase().as_str() {
            "jpg" | "jpeg" | "png" | "gif" => WikilinkType::IMAGE,
            _ => WikilinkType::TEXT,
        },
        None => WikilinkType::TEXT,
    }
}

fn std_fields(s: &str) -> (String, String, String, WikilinkType) {
    let link_contents = s.trim_start_matches("[[").trim_end_matches("]]");
    let (link, name) = if let Some(pipe_pos) = link_contents.find('|') {
        let (link, name) = link_contents.split_at(pipe_pos);
        (link.trim(), name.trim_start_matches('|'))
    } else {
        (link_contents, link_contents)
    };
    let (link_without_anchor, anchor) = if let Some(anchor_pos) = link.find('#') {
        let (link, anchor) = link.split_at(anchor_pos);
        (link.trim(), anchor.trim_start_matches('#'))
    } else {
        (link, "")
    };
    let is_just_anchor = link.starts_with('#');
    let final_link = if is_just_anchor { "" } else { link_without_anchor };
    let final_anchor = if is_just_anchor {
        link_contents.trim_start_matches('#')
    } else {
        anchor
    };
    let final_name = if name == link {
        final_link.to_string()
    } else {
        name.to_string()
    };
    let link_type = type_by_extension(final_link);
    (
        final_name,
        final_link.to_string(),
        final_anchor.to_string(),
        link_type,
    )
}

#[test]
fn code_is_removed_as_the_pattern_removes_it() {
    let code = Regex::new(r"(?s)```.*?```").unwrap();
    for s in samples() {
        assert_eq!(remove_code_blocks(s), code.replace_all(s, "").to_string(), "{:?}", s);
    }
}

#[test]
fn links_are_found_where_the_pattern_finds_them() {
    for s in samples() {
        let expected: Vec<(String, String, String, WikilinkType)> = pattern_links(s)
            .iter()
            .map(|inner| std_fields(inner))
            .filter(|f| !(f.0.is_empty() && f.1.is_empty() && f.2.is_empty()))
            .collect();
        let found: Vec<(String, String, String, WikilinkType)> = extract_links(s)
            .into_iter()
            .map(|w| (w.name, w.link, w.anchor, w.link_type))
            .collect();
        assert_eq!(found, expected, "{:?}", s);
    }
}

#[test]
fn links_are_rewritten_as_the_pattern_rewrites_them() {
    for s in samples() {
        assert_eq!(convert_wikilinks_to_hugo(s), pattern_hugo(s), "{:?}", s);
    }
}

#[test]
fn embedded_images_are_found_where_the_pattern_finds_them() {
    let re = Regex::new(r"!\[\[(.*?)\]\]").unwrap();
    for s in samples() {
        let expected: Vec<String> = re
            .captures_iter(s)
            .filter_map(|cap| cap.get(1))
            .map(|m| m.as_str().to_string())
            .collect();
        assert_eq!(embedded_images(s), expected, "{:?}", s);
    }
}

#[test]
fn fields_agree_with_the_string_functions_of_std() {
    let inputs = vec![
        "[[Test]]",
        "Test",
        "[[[[Test]]]]",
        "[[[Test]]]",
        "[[a|b]]",
        "[[ a | b ]]",
        "[[a||b]]",
        "[[a|b|c]]",
        "[[a#b#c]]",
        "[[a##b]]",
        "[[ a # b ]]",
        "[[#only]]",
        "[[##only]]",
        "[[#Sec|Alias]]",
        "[[ #a|b]]",
        "[[a|a]]",
        "[[a#x|a#x]]",
        "[[\u{a0}nbsp\u{a0}|x]]",
        "[[\u{3000}wide\u{2003}#y]]",
        "[[pic.PnG#frag|shown]]",
        "[[dir/pic.gif]]",
        "[[a.b.jpeg|x]]",
        "[[.png]]",
        "[[png]]",
        "[[x.g\u{130}f]]",
        "[[x.\u{212a}pg]]",
        "[[x.JPEG ]]",
        "x]]]]",
        "]]",
        "[[",
    ];
    for s in inputs {
        let (name, link, anchor, link_type) = std_fields(s);
        match parse_wikilink(s) {
            Ok(w) => {
                assert_eq!((w.name, w.link, w.anchor, w.link_type), (name, link, anchor, link_type), "{:?}", s)
            }
            Err(_) => assert!(name.is_empty() && link.is_empty() && anchor.is_empty(), "{:?}", s),
        }
    }
}

#[test]
fn file_types_agree_with_lower_casing_of_std() {
    let names = vec![
        "a.jpg", "a.JPG", "a.Jpeg", "a.png", "a.GIF", "a.svg", "a.bmp", "a", "", ".", "a.",
        "gif", "a.jpg.txt", "a.txt.jpg", "a.g\u{130}f", "a.\u{212a}pg", "a.jp\u{a0}g", "a.ＪＰＧ",
    ];
    for n in names {
        assert_eq!(filename_type(n), type_by_extension(n), "{:?}", n);
    }
}

#[test]
fn whitespace_is_what_std_calls_whitespace() {
    let mut c = 0u32;
    while c <= 0x10FFFF {
        if let Some(ch) = char::from_u32(c) {
            assert_eq!(char_is_whitespace(ch), ch.is_whitespace(), "{:x}", c);
        }
        c += 1;
    }
}

fn generated(count: usize) -> Vec<String> {
    let alphabet: Vec<char> = "[[]]!|#``\n a.png\u{e9}".chars().collect();
    let mut state: u64 = 0x2545F4914F6CDD1D;
    let mut next = move || {
        state ^= state << 13;
        state ^= state >> 7;
        state ^= state << 17;
        state
    };
    let mut out = Vec::new();
    for _ in 0..count {
        let len = (next() % 14) as usize;
        let mut s = String::new();
        for _ in 0..len {
            s.push(alphabet[(next() % alphabet.len() as u64) as usize]);
        }
        out.push(s);
    }
    out
}

#[test]
fn generated_texts_are_scanned_as_the_patterns_scan_them() {
    let code = Regex::new(r"(?s)```.*?```").unwrap();
    let wikilink = Regex::new(r"(!)?\[\[(.*?)\]\]").unwrap();
    let embed = Regex::new(r"!\[\[(.*?)\]\]").unwrap();
    let rewrite = Regex::new(r"(!?)\[\[(.*?)\]\]").unwrap();
    for s in generated(4000) {
        let stripped = code.replace_all(&s, "").to_string();
        assert_eq!(remove_code_blocks(&s), stripped, "{:?}", s);
        let expected: Vec<(String, String, String, WikilinkType)> = wikilink
            .captures_iter(&stripped)
            .map(|c| std_fields(c.get(2).unwrap().as_str()))
            .filter(|f| !(f.0.is_empty() && f.1.is_empty() && f.2.is_empty()))
            .collect();
        let found: Vec<(String, String, String, WikilinkType)> = extract_links(&s)
            .into_iter()
            .map(|w| (w.name, w.link, w.anchor, w.link_type))
            .collect();
        assert_eq!(found, expected, "{:?}", s);
        assert_eq!(convert_wikilinks_to_hugo(&s), rewritten(&rewrite, &s), "{:?}", s);
        let names: Vec<String> = embed
            .captures_iter(&s)
            .filter_map(|cap| cap.get(1))
            .map(|m| m.as_str().to_string())
            .collect();
        assert_eq!(embedded_images(&s), names, "{:?}", s);
    }
}

#[test]
fn generated_links_are_parsed_as_std_parses_them() {
    for s in generated(30000) {
        let (name, link, anchor, link_type) = std_fields(&s);
        match parse_wikilink(&s) {
            Ok(w) => assert_eq!(
                (w.name, w.link, w.anchor, w.link_type),
                (name, link, anchor, link_type),
                "{:?}",
                s
            ),
            Err(_) => assert!(name.is_empty() && link.is_empty() && anchor.is_empty(), "{:?}", s),
        }
    }
}
