//! Wikilinks and pages: the records that a note is parsed into.
//!
//! A wikilink is written `[[link]]`, `[[link|name]]`, `[[link#anchor]]` or
//! `[[#anchor]]`. `parse_fields` is the grammar of what stands between the
//! brackets; `parse_wikilink` is its executable form.
use crate::notes::scan::{
    block_at, block_from, lemma_block_bounds, lemma_span_bounds, span_at, span_from,
};
use crate::paths::{file_name, file_name_of, file_stem, file_stem_of};
use crate::text::{
    append_chars, chars_eq, find_char, first_index, from_chars, last_index, rfind_char,
    strip_prefixes, strip_suffixes, subvec, to_chars, trim, trimmed, without_prefixes,
    without_suffixes,
};
use vstd::prelude::*;

verus! {

/// What a wikilink points at, told by the extension of its target.
#[allow(non_camel_case_types)]
#[derive(Debug, PartialEq, Eq, Clone, Copy, Structural)]
pub enum WikilinkType {
    IMAGE,
    TEXT,
}

/// One link found in the text of a page.
#[derive(Debug, Clone)]
pub struct WikiLink {
    /// The text to show: the alias if one is given, else the target.
    pub name: String,
    /// The title of the page referred to; empty for a link into the same page.
    pub link: String,
    /// The anchor inside the page referred to; empty if there is none.
    pub anchor: String,
    pub link_type: WikilinkType,
}

/// A `WikiLink` as a mathematical value.
pub struct WikiLinkView {
    pub name: Seq<char>,
    pub link: Seq<char>,
    pub anchor: Seq<char>,
    pub link_type: WikilinkType,
}

impl View for WikiLink {
    type V = WikiLinkView;

    open spec fn view(&self) -> WikiLinkView {
        WikiLinkView {
            name: self.name@,
            link: self.link@,
            anchor: self.anchor@,
            link_type: self.link_type,
        }
    }
}

/// Why a piece of text is no wikilink.
#[derive(Debug, PartialEq, Eq, Clone, Copy, Structural)]
pub enum WikilinkError {
    /// Target, anchor and name are all empty.
    Empty,
}

/// The opening brackets of a wikilink.
pub open spec fn open_mark() -> Seq<char> {
    seq!['[', '[']
}

/// The closing brackets of a wikilink.
pub open spec fn close_mark() -> Seq<char> {
    seq![']', ']']
}

/// An upper-case ASCII letter as its lower-case letter, any other character as
/// itself.
pub open spec fn ascii_lower(c: char) -> char {
    if 'A' <= c && c <= 'Z' {
        ((c as u8) + 32) as char
    } else {
        c
    }
}

/// `s` with its ASCII letters in lower case.
pub open spec fn lowered(s: Seq<char>) -> Seq<char> {
    Seq::new(s.len(), |i: int| ascii_lower(s[i]))
}

/// The extension of `name`: what follows its last `.`. A name that holds no
/// `.` has no extension.
pub open spec fn extension(name: Seq<char>) -> Option<Seq<char>> {
    match last_index(name, '.') {
        Some(i) => Some(name.skip(i + 1)),
        None => None,
    }
}

/// Whether `ext`, in lower case, is `jpg`, `jpeg`, `png` or `gif`.
///
/// No letter outside ASCII has one of the letters of these four words as its
/// lower case, so lowering the ASCII letters decides.
pub open spec fn is_image_extension(ext: Seq<char>) -> bool {
    let l = lowered(ext);
    ||| l == seq!['j', 'p', 'g']
    ||| l == seq!['j', 'p', 'e', 'g']
    ||| l == seq!['p', 'n', 'g']
    ||| l == seq!['g', 'i', 'f']
}

/// The type of a link whose target is `target`: an image where the target
/// has an extension and that extension is one of an image, text where it has
/// another extension or none.
pub open spec fn link_type_of(target: Seq<char>) -> WikilinkType {
    match extension(target) {
        Some(ext) => if is_image_extension(ext) {
            WikilinkType::IMAGE
        } else {
            WikilinkType::TEXT
        },
        None => WikilinkType::TEXT,
    }
}

/// The fields that the text of a wikilink stands for.
///
/// Brackets around the text are taken off. The text up to the first `|` is
/// the link, trimmed, and what follows the `|` is the name; without a `|` the
/// whole text is both. The link up to its first `#` is the target, trimmed, and
/// what follows the `#` is the anchor. A link that begins with `#` has no
/// target, and its anchor is all of the text after the leading `#`. A name
/// that equals the link is replaced by the target.
pub open spec fn parse_fields(s: Seq<char>) -> WikiLinkView {
    let body = strip_suffixes(strip_prefixes(s, open_mark()), close_mark());
    let (link, name) = match first_index(body, '|') {
        Some(p) => (trim(body.take(p)), strip_prefixes(body.skip(p), seq!['|'])),
        None => (body, body),
    };
    let (target, anchor) = match first_index(link, '#') {
        Some(a) => (trim(link.take(a)), strip_prefixes(link.skip(a), seq!['#'])),
        None => (link, Seq::<char>::empty()),
    };
    let only_anchor = link.len() > 0 && link[0] == '#';
    let final_link = if only_anchor {
        Seq::<char>::empty()
    } else {
        target
    };
    let final_anchor = if only_anchor {
        strip_prefixes(body, seq!['#'])
    } else {
        anchor
    };
    let final_name = if name == link {
        final_link
    } else {
        name
    };
    WikiLinkView {
        name: final_name,
        link: final_link,
        anchor: final_anchor,
        link_type: link_type_of(final_link),
    }
}

/// Whether a record has nothing in it: no target, no anchor and no name.
pub open spec fn is_blank(w: WikiLinkView) -> bool {
    w.name.len() == 0 && w.link.len() == 0 && w.anchor.len() == 0
}

/// The wikilink that `s` stands for; none where its fields are all empty.
pub open spec fn parse_spec(s: Seq<char>) -> Option<WikiLinkView> {
    let w = parse_fields(s);
    if is_blank(w) {
        None
    } else {
        Some(w)
    }
}

/// `c` with an ASCII letter in lower case.
fn lower_char(c: char) -> (r: char)
    ensures
        r == ascii_lower(c),
{
    if 'A' <= c && c <= 'Z' {
        let n: u8 = c as u8;
        (n + 32) as char
    } else {
        c
    }
}

/// Whether `ext`, in lower case, is `word`.
fn lowered_is(ext: &Vec<char>, word: &Vec<char>) -> (r: bool)
    ensures
        r == (lowered(ext@) == word@),
{
    if ext.len() != word.len() {
        return false;
    }
    let mut i: usize = 0;
    while i < ext.len()
        invariant
            i <= ext.len(),
            ext.len() == word.len(),
            forall|j: int| 0 <= j < i ==> ascii_lower(ext@[j]) == word@[j],
        decreases ext.len() - i,
    {
        if lower_char(ext[i]) != word[i] {
            assert(lowered(ext@)[i as int] != word@[i as int]);
            return false;
        }
        i += 1;
    }
    assert(lowered(ext@) =~= word@);
    true
}

/// The type of a link to `target`, with `target` given as characters.
pub fn type_of_chars(target: &Vec<char>) -> (r: WikilinkType)
    ensures
        r == link_type_of(target@),
{
    let ext: Vec<char> = match rfind_char(target, '.') {
        Some(i) => {
            assert(target@.skip(i + 1) =~= target@.subrange(i + 1, target@.len() as int));
            subvec(target, i + 1, target.len())
        },
        None => {
            return WikilinkType::TEXT;
        },
    };
    let jpg: Vec<char> = vec!['j', 'p', 'g'];
    let jpeg: Vec<char> = vec!['j', 'p', 'e', 'g'];
    let png: Vec<char> = vec!['p', 'n', 'g'];
    let gif: Vec<char> = vec!['g', 'i', 'f'];
    assert(jpg@ =~= seq!['j', 'p', 'g']);
    assert(jpeg@ =~= seq!['j', 'p', 'e', 'g']);
    assert(png@ =~= seq!['p', 'n', 'g']);
    assert(gif@ =~= seq!['g', 'i', 'f']);
    if lowered_is(&ext, &jpg) || lowered_is(&ext, &jpeg) || lowered_is(&ext, &png) || lowered_is(
        &ext,
        &gif,
    ) {
        WikilinkType::IMAGE
    } else {
        WikilinkType::TEXT
    }
}

/// Classifies a file name by its extension, which is what follows its last
/// `.`: `IMAGE` for `jpg`, `jpeg`, `png` and `gif` in any case of letters,
/// `TEXT` for every other extension and for a name without one.
pub fn filename_type(filename: &str) -> (r: WikilinkType)
    ensures
        r == link_type_of(filename@),
{
    let chars = to_chars(filename);
    type_of_chars(&chars)
}

/// Parses the text of a wikilink, given as characters.
pub fn parse_chars(s: &Vec<char>) -> (r: Result<WikiLink, WikilinkError>)
    ensures
        match r {
            Ok(w) => parse_spec(s@) == Some(w@),
            Err(e) => parse_spec(s@) is None && e == WikilinkError::Empty,
        },
{
    let open: Vec<char> = vec!['[', '['];
    let close: Vec<char> = vec![']', ']'];
    let bar: Vec<char> = vec!['|'];
    let hash: Vec<char> = vec!['#'];
    assert(open@ =~= open_mark());
    assert(close@ =~= close_mark());
    assert(bar@ =~= seq!['|']);
    assert(hash@ =~= seq!['#']);
    let unopened = without_prefixes(s, &open);
    let body = without_suffixes(&unopened, &close);
    let (link, name) = match find_char(&body, '|') {
        Some(p) => {
            assert(body@.take(p as int) =~= body@.subrange(0, p as int));
            assert(body@.skip(p as int) =~= body@.subrange(p as int, body@.len() as int));
            let head = subvec(&body, 0, p);
            let tail = subvec(&body, p, body.len());
            (trimmed(&head), without_prefixes(&tail, &bar))
        },
        None => {
            assert(body@ =~= body@.subrange(0, body@.len() as int));
            (subvec(&body, 0, body.len()), subvec(&body, 0, body.len()))
        },
    };
    let (target, anchor) = match find_char(&link, '#') {
        Some(a) => {
            assert(link@.take(a as int) =~= link@.subrange(0, a as int));
            assert(link@.skip(a as int) =~= link@.subrange(a as int, link@.len() as int));
            let head = subvec(&link, 0, a);
            let tail = subvec(&link, a, link.len());
            (trimmed(&head), without_prefixes(&tail, &hash))
        },
        None => {
            assert(link@ =~= link@.subrange(0, link@.len() as int));
            (subvec(&link, 0, link.len()), Vec::new())
        },
    };
    let only_anchor = link.len() > 0 && link[0] == '#';
    let final_link: Vec<char> = if only_anchor {
        Vec::new()
    } else {
        target
    };
    let final_anchor: Vec<char> = if only_anchor {
        without_prefixes(&body, &hash)
    } else {
        anchor
    };
    let final_name: Vec<char> = if chars_eq(&name, &link) {
        assert(final_link@ =~= final_link@.subrange(0, final_link@.len() as int));
        subvec(&final_link, 0, final_link.len())
    } else {
        name
    };
    if final_name.len() == 0 && final_link.len() == 0 && final_anchor.len() == 0 {
        return Err(WikilinkError::Empty);
    }
    let link_type = type_of_chars(&final_link);
    Ok(
        WikiLink {
            name: from_chars(&final_name),
            link: from_chars(&final_link),
            anchor: from_chars(&final_anchor),
            link_type,
        },
    )
}

/// Parses one wikilink, with or without its brackets.
///
/// Fails exactly when the text names no target, no anchor and no name.
pub fn parse_wikilink(s: &str) -> (r: Result<WikiLink, WikilinkError>)
    ensures
        match r {
            Ok(w) => parse_spec(s@) == Some(w@),
            Err(e) => parse_spec(s@) is None && e == WikilinkError::Empty,
        },
{
    let chars = to_chars(s);
    parse_chars(&chars)
}

impl std::str::FromStr for WikiLink {
    type Err = WikilinkError;

    /// Parses one wikilink, as `parse_wikilink` does.
    fn from_str(s: &str) -> (r: Result<WikiLink, WikilinkError>)
        ensures
            match r {
                Ok(w) => parse_spec(s@) == Some(w@),
                Err(e) => parse_spec(s@) is None && e == WikilinkError::Empty,
            },
    {
        parse_wikilink(s)
    }
}

/// The mark that opens and closes a piece of code.
pub open spec fn fence() -> Seq<char> {
    seq!['`', '`', '`']
}

/// The opening brackets of an embedded image.
pub open spec fn embed_mark() -> Seq<char> {
    seq!['!', '[', '[']
}

/// `s` from index `i` on, without the pieces of code in it: each block from
/// a fence to the nearest fence behind it is left out, fences included,
/// however many lines it runs over. A fence that no fence follows opens no
/// block and stays.
pub open spec fn without_code_from(s: Seq<char>, i: int) -> Seq<char>
    decreases s.len() - i,
{
    if i < 0 || i >= s.len() {
        Seq::empty()
    } else {
        match block_at(s, fence(), fence(), i) {
            Some((a, b)) => {
                proof {
                    lemma_block_bounds(s, fence(), fence(), i);
                }
                without_code_from(s, b + 3)
            },
            None => seq![s[i]] + without_code_from(s, i + 1),
        }
    }
}

/// `s` without the pieces of code in it.
pub open spec fn without_code(s: Seq<char>) -> Seq<char> {
    without_code_from(s, 0)
}

/// A wikilink found in a text: whether a `!` stands before its brackets, and
/// where its inside starts and ends. The closing brackets follow the inside.
pub struct LinkSpan {
    pub embed: bool,
    pub start: int,
    pub end: int,
}

/// The wikilink that starts at index `i` of `s`: an optional `!`, the opening
/// brackets, and the nearest closing brackets on the same line.
pub open spec fn wikilink_at(s: Seq<char>, i: int) -> Option<LinkSpan> {
    match span_at(s, embed_mark(), close_mark(), i) {
        Some((a, b)) => Some(LinkSpan { embed: true, start: a, end: b }),
        None => match span_at(s, open_mark(), close_mark(), i) {
            Some((a, b)) => Some(LinkSpan { embed: false, start: a, end: b }),
            None => None,
        },
    }
}

/// A wikilink lies inside the text and ends after it starts.
pub proof fn lemma_wikilink_bounds(s: Seq<char>, i: int)
    requires
        wikilink_at(s, i) is Some,
    ensures
        ({
            let m = wikilink_at(s, i)->0;
            0 <= i < m.start <= m.end && m.end + 2 <= s.len()
        }),
{
    if span_at(s, embed_mark(), close_mark(), i) is Some {
        lemma_span_bounds(s, embed_mark(), close_mark(), i);
    } else {
        lemma_span_bounds(s, open_mark(), close_mark(), i);
    }
}

/// The sequence that holds `w` if there is one.
pub open spec fn found(w: Option<WikiLinkView>) -> Seq<WikiLinkView> {
    match w {
        Some(w) => seq![w],
        None => Seq::empty(),
    }
}

/// The wikilinks of `s` from index `i` on, from left to right. After a
/// wikilink the search goes on behind its closing brackets. A wikilink whose
/// fields are all empty is left out.
pub open spec fn links_from(s: Seq<char>, i: int) -> Seq<WikiLinkView>
    decreases s.len() - i,
{
    if i < 0 || i >= s.len() {
        Seq::empty()
    } else {
        match wikilink_at(s, i) {
            Some(m) => {
                proof {
                    lemma_wikilink_bounds(s, i);
                }
                found(parse_spec(s.subrange(m.start, m.end))) + links_from(s, m.end + 2)
            },
            None => links_from(s, i + 1),
        }
    }
}

/// The wikilinks of a text: those of the text without its pieces of code.
pub open spec fn extracted(contents: Seq<char>) -> Seq<WikiLinkView> {
    links_from(without_code(contents), 0)
}

/// The views of a sequence of wikilinks.
pub open spec fn link_views(links: Seq<WikiLink>) -> Seq<WikiLinkView> {
    links.map_values(|w: WikiLink| w@)
}

/// What a wikilink is rewritten to for the published site. An embedded image
/// becomes a figure under `/assets/`. A link with a `|` becomes a markdown
/// link that shows what follows the first `|` and refers to what stands
/// before it; a link without one shows and refers to its whole inside.
pub open spec fn hugo_link(embed: bool, inner: Seq<char>) -> Seq<char> {
    if embed {
        "{{< figure src=\"/assets/"@ + inner + "\" alt=\""@ + inner + "\" >}}"@
    } else {
        match first_index(inner, '|') {
            Some(p) => "["@ + inner.skip(p + 1) + "]({{< ref \""@ + inner.take(p) + "\" >}})"@,
            None => "["@ + inner + "]({{< ref \""@ + inner + "\" >}})"@,
        }
    }
}

/// `s` from index `i` on, with every wikilink rewritten.
pub open spec fn hugo_from(s: Seq<char>, i: int) -> Seq<char>
    decreases s.len() - i,
{
    if i < 0 || i >= s.len() {
        Seq::empty()
    } else {
        match wikilink_at(s, i) {
            Some(m) => {
                proof {
                    lemma_wikilink_bounds(s, i);
                }
                hugo_link(m.embed, s.subrange(m.start, m.end)) + hugo_from(s, m.end + 2)
            },
            None => seq![s[i]] + hugo_from(s, i + 1),
        }
    }
}

/// The marks of the grammar, as characters.
pub struct Marks {
    open: Vec<char>,
    embed: Vec<char>,
    close: Vec<char>,
    fence: Vec<char>,
}

impl Marks {
    /// Each field holds the mark that it is named after.
    pub closed spec fn wf(&self) -> bool {
        &&& self.open@ == open_mark()
        &&& self.embed@ == embed_mark()
        &&& self.close@ == close_mark()
        &&& self.fence@ == fence()
    }

    pub fn new() -> (m: Marks)
        ensures
            m.wf(),
    {
        let m = Marks {
            open: vec!['[', '['],
            embed: vec!['!', '[', '['],
            close: vec![']', ']'],
            fence: vec!['`', '`', '`'],
        };
        assert(m.open@ =~= open_mark());
        assert(m.embed@ =~= embed_mark());
        assert(m.close@ =~= close_mark());
        assert(m.fence@ =~= fence());
        m
    }

    /// The wikilink that starts at index `i` of `s`: whether it is an
    /// embedded image, and where its inside starts and ends.
    pub fn wikilink_from(&self, s: &Vec<char>, i: usize) -> (r: Option<(bool, usize, usize)>)
        requires
            self.wf(),
        ensures
            match r {
                Some((embed, a, b)) => {
                    &&& wikilink_at(s@, i as int) == Some(
                        LinkSpan { embed, start: a as int, end: b as int },
                    )
                    &&& i < a <= b
                    &&& b + 2 <= s.len()
                },
                None => wikilink_at(s@, i as int) is None,
            },
    {
        match span_from(s, &self.embed, &self.close, i) {
            Some((a, b)) => Some((true, a, b)),
            None => match span_from(s, &self.open, &self.close, i) {
                Some((a, b)) => Some((false, a, b)),
                None => None,
            },
        }
    }

    /// The embedded image that starts at index `i` of `s`.
    pub fn embed_from(&self, s: &Vec<char>, i: usize) -> (r: Option<(usize, usize)>)
        requires
            self.wf(),
        ensures
            match r {
                Some((a, b)) => {
                    &&& span_at(s@, embed_mark(), close_mark(), i as int) == Some(
                        (a as int, b as int),
                    )
                    &&& i < a <= b
                    &&& b + 2 <= s.len()
                },
                None => span_at(s@, embed_mark(), close_mark(), i as int) is None,
            },
    {
        span_from(s, &self.embed, &self.close, i)
    }

    /// The piece of code that starts at index `i` of `s`.
    pub fn code_from(&self, s: &Vec<char>, i: usize) -> (r: Option<(usize, usize)>)
        requires
            self.wf(),
        ensures
            match r {
                Some((a, b)) => {
                    &&& block_at(s@, fence(), fence(), i as int) == Some((a as int, b as int))
                    &&& i < a <= b
                    &&& b + 3 <= s.len()
                },
                None => block_at(s@, fence(), fence(), i as int) is None,
            },
    {
        block_from(s, &self.fence, &self.fence, i)
    }
}

/// `s` without the pieces of code in it, on characters.
pub fn strip_code(marks: &Marks, s: &Vec<char>) -> (r: Vec<char>)
    requires
        marks.wf(),
    ensures
        r@ == without_code(s@),
{
    let mut out: Vec<char> = Vec::new();
    let mut i: usize = 0;
    while i < s.len()
        invariant
            marks.wf(),
            i <= s.len(),
            out@ + without_code_from(s@, i as int) == without_code(s@),
        decreases s.len() - i,
    {
        match marks.code_from(s, i) {
            Some((a, b)) => {
                i = b + 3;
            },
            None => {
                assert(out@.push(s@[i as int]) + without_code_from(s@, i + 1) =~= out@ + (
                seq![s@[i as int]] + without_code_from(s@, i + 1)));
                out.push(s[i]);
                i += 1;
            },
        }
    }
    assert(out@ + Seq::<char>::empty() =~= out@);
    out
}

/// Removes the pieces of code from a text: every block from three backticks
/// to the nearest three backticks behind them, backticks included, over as
/// many lines as it runs. Three backticks that none follow stay, and so does
/// the text behind them.
pub fn remove_code_blocks(s: &str) -> (r: String)
    ensures
        r@ == without_code(s@),
{
    let marks = Marks::new();
    let chars = to_chars(s);
    let stripped = strip_code(&marks, &chars);
    from_chars(&stripped)
}

/// The wikilinks of a text, in the order in which they stand in it. Pieces of
/// code are passed over, and so is a wikilink whose fields are all empty.
pub fn extract_links(contents: &str) -> (r: Vec<WikiLink>)
    ensures
        link_views(r@) == extracted(contents@),
{
    let marks = Marks::new();
    let chars = to_chars(contents);
    let text = strip_code(&marks, &chars);
    let mut out: Vec<WikiLink> = Vec::new();
    let mut i: usize = 0;
    assert(link_views(out@) =~= Seq::<WikiLinkView>::empty());
    while i < text.len()
        invariant
            marks.wf(),
            i <= text.len(),
            link_views(out@) + links_from(text@, i as int) == links_from(text@, 0),
        decreases text.len() - i,
    {
        match marks.wikilink_from(&text, i) {
            Some((_, a, b)) => {
                let inner = subvec(&text, a, b);
                let ghost before = out@;
                let ghost rest = links_from(text@, b + 2);
                match parse_chars(&inner) {
                    Ok(w) => {
                        out.push(w);
                        assert(link_views(out@) =~= link_views(before).push(w@));
                        assert(link_views(out@) + rest =~= link_views(before) + (seq![w@] + rest));
                    },
                    Err(_) => {
                        assert(link_views(before) + rest =~= link_views(before) + (
                        Seq::<WikiLinkView>::empty() + rest));
                    },
                }
                i = b + 2;
            },
            None => {
                i += 1;
            },
        }
    }
    assert(link_views(out@) + Seq::<WikiLinkView>::empty() =~= link_views(out@));
    out
}

/// The text of a wikilink for the published site, on characters.
fn push_hugo_link(out: &mut Vec<char>, embed: bool, inner: &Vec<char>)
    ensures
        final(out)@ == old(out)@ + hugo_link(embed, inner@),
{
    if embed {
        let a = to_chars("{{< figure src=\"/assets/");
        let b = to_chars("\" alt=\"");
        let c = to_chars("\" >}}");
        append_chars(out, &a);
        append_chars(out, inner);
        append_chars(out, &b);
        append_chars(out, inner);
        append_chars(out, &c);
        assert(out@ =~= old(out)@ + hugo_link(embed, inner@));
    } else {
        let a = to_chars("[");
        let b = to_chars("]({{< ref \"");
        let c = to_chars("\" >}})");
        match find_char(inner, '|') {
            Some(p) => {
                let link = subvec(inner, 0, p);
                let name = subvec(inner, p + 1, inner.len());
                assert(link@ =~= inner@.take(p as int));
                assert(name@ =~= inner@.skip(p + 1));
                append_chars(out, &a);
                append_chars(out, &name);
                append_chars(out, &b);
                append_chars(out, &link);
                append_chars(out, &c);
            },
            None => {
                append_chars(out, &a);
                append_chars(out, inner);
                append_chars(out, &b);
                append_chars(out, inner);
                append_chars(out, &c);
            },
        }
        assert(out@ =~= old(out)@ + hugo_link(embed, inner@));
    }
}

/// Rewrites every wikilink of a text for the published site and leaves the
/// rest of the text as it is.
pub fn convert_wikilinks_to_hugo(contents: &str) -> (r: String)
    ensures
        r@ == hugo_from(contents@, 0),
{
    let marks = Marks::new();
    let s = to_chars(contents);
    let mut out: Vec<char> = Vec::new();
    let mut i: usize = 0;
    while i < s.len()
        invariant
            marks.wf(),
            i <= s.len(),
            out@ + hugo_from(s@, i as int) == hugo_from(s@, 0),
        decreases s.len() - i,
    {
        let ghost before = out@;
        match marks.wikilink_from(&s, i) {
            Some((embed, a, b)) => {
                let inner = subvec(&s, a, b);
                push_hugo_link(&mut out, embed, &inner);
                assert(out@ + hugo_from(s@, b + 2) =~= before + (hugo_link(embed, inner@)
                    + hugo_from(s@, b + 2)));
                i = b + 2;
            },
            None => {
                out.push(s[i]);
                assert(out@ + hugo_from(s@, i + 1) =~= before + (seq![s@[i as int]] + hugo_from(
                    s@,
                    i + 1,
                )));
                i += 1;
            },
        }
    }
    assert(out@ + Seq::<char>::empty() =~= out@);
    from_chars(&out)
}

/// One note: a file of the source tree, read and parsed.
#[derive(Debug, Clone)]
pub struct Page {
    /// The name of the file without its extension; other notes refer to this
    /// one by it.
    pub title: String,
    /// Where the file lies.
    pub path: String,
    /// The text of the file, and later that text with what was added to it.
    pub contents: String,
    /// The wikilinks found in the text when the file was read.
    pub wikilinks: Vec<WikiLink>,
}

/// A `Page` as a mathematical value.
pub struct PageView {
    pub title: Seq<char>,
    pub path: Seq<char>,
    pub contents: Seq<char>,
    pub wikilinks: Seq<WikiLinkView>,
}

impl View for Page {
    type V = PageView;

    open spec fn view(&self) -> PageView {
        PageView {
            title: self.title@,
            path: self.path@,
            contents: self.contents@,
            wikilinks: link_views(self.wikilinks@),
        }
    }
}

/// The title of the note at `path`: its file name without the extension.
pub open spec fn title_of(path: Seq<char>) -> Seq<char> {
    file_stem(file_name(path))
}

/// The page that a file at `path` with the text `contents` is read as.
pub open spec fn page_of(path: Seq<char>, contents: Seq<char>) -> PageView {
    PageView { title: title_of(path), path, contents, wikilinks: extracted(contents) }
}

/// Making a value from a file of notes.
pub trait PageLoader: Sized {
    /// The value for the file at `path` whose text is `contents`.
    fn from_path(path: &str, contents: &str) -> Self;

    /// The title of the note at `path`.
    fn title_from_path(path: &str) -> String;
}

impl PageLoader for Page {
    fn from_path(path: &str, contents: &str) -> (page: Page)
        ensures
            page@ == page_of(path@, contents@),
    {
        Page {
            title: Self::title_from_path(path),
            path: path.to_owned(),
            contents: contents.to_owned(),
            wikilinks: extract_links(contents),
        }
    }

    fn title_from_path(path: &str) -> (title: String)
        ensures
            title@ == title_of(path@),
    {
        let chars = to_chars(path);
        let name = file_name_of(&chars);
        let stem = file_stem_of(&name);
        from_chars(&stem)
    }
}

} // verus!
