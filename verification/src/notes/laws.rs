//! What holds of every wikilink of a given shape: which fields it has, what
//! type it is of, and that a text made of it yields it.
use crate::notes::markdown::{
    ascii_lower, close_mark, embed_mark, extension, extracted, fence, found, is_image_extension,
    link_type_of, links_from, lowered, open_mark, parse_fields, parse_spec, wikilink_at,
    without_code, without_code_from, LinkSpan, WikiLinkView, WikilinkType,
};
use crate::notes::scan::{
    block_at, fits_span, follows_at, lemma_next_close, lemma_one_span, span_at,
};
use crate::text::{
    first_index, is_first_index, is_last_index, is_whitespace, last_index, lemma_first_index,
    lemma_last_index, occurs_at, strip_prefixes, strip_suffixes, trim, trim_end, trim_start,
};
use vstd::prelude::*;

verus! {

/// Text between the brackets comes out as it went in, unless it begins with
/// opening brackets or ends with closing ones.
pub proof fn lemma_unbracket(body: Seq<char>)
    requires
        !occurs_at(body, open_mark(), 0),
        !occurs_at(body, close_mark(), body.len() - 2),
    ensures
        strip_suffixes(strip_prefixes(open_mark() + body + close_mark(), open_mark()), close_mark())
            == body,
{
    let s = open_mark() + body + close_mark();
    let t = body + close_mark();
    assert(s.subrange(0, 2) =~= open_mark());
    assert(s.skip(2) =~= t);
    assert(!occurs_at(t, open_mark(), 0)) by {
        if occurs_at(t, open_mark(), 0) {
            assert(t.subrange(0, 2)[0] == '[');
            assert(t.subrange(0, 2)[1] == '[');
            if body.len() >= 2 {
                assert(body.subrange(0, 2) =~= t.subrange(0, 2));
            }
        }
    }
    assert(strip_prefixes(t, open_mark()) == t);
    assert(strip_prefixes(s, open_mark()) == strip_prefixes(s.skip(2), open_mark()));
    assert(t.subrange(t.len() - 2, t.len() as int) =~= close_mark());
    assert(t.take(t.len() - 2) =~= body);
    assert(strip_suffixes(body, close_mark()) == body);
    assert(strip_suffixes(t, close_mark()) == strip_suffixes(
        t.take(t.len() - 2),
        close_mark(),
    ));
}

/// A text without `c` has no first `c`.
pub proof fn lemma_no_first_index(s: Seq<char>, c: char)
    requires
        !s.contains(c),
    ensures
        first_index(s, c) is None,
{
    assert forall|i: int| !is_first_index(s, c, i) by {
        if is_first_index(s, c, i) {
            assert(s.contains(c));
        }
    }
}

/// In `a`, `c`, `b` the first `c` is the one in the middle, where `a` holds
/// none.
pub proof fn lemma_first_index_middle(a: Seq<char>, c: char, b: Seq<char>)
    requires
        !a.contains(c),
    ensures
        first_index(a + seq![c] + b, c) == Some(a.len() as int),
        (a + seq![c] + b).take(a.len() as int) == a,
        (a + seq![c] + b).skip(a.len() as int) == seq![c] + b,
        (a + seq![c] + b).skip(a.len() as int + 1) == b,
{
    let s = a + seq![c] + b;
    assert forall|j: int| 0 <= j < a.len() implies s[j] != c by {
        assert(s[j] == a[j]);
        if a[j] == c {
            assert(a.contains(c));
        }
    }
    assert(s[a.len() as int] == c);
    lemma_first_index(s, c, a.len() as int);
    assert(s.take(a.len() as int) =~= a);
    assert(s.skip(a.len() as int) =~= seq![c] + b);
    assert(s.skip(a.len() as int + 1) =~= b);
}

/// One leading `c` is all that is taken off `c`, `b` where `b` does not
/// begin with `c`.
pub proof fn lemma_strip_one(c: char, b: Seq<char>)
    requires
        b.len() == 0 || b[0] != c,
    ensures
        strip_prefixes(seq![c] + b, seq![c]) == b,
{
    let s = seq![c] + b;
    assert(s.subrange(0, 1) =~= seq![c]);
    assert(s.skip(1) =~= b);
    if b.len() > 0 {
        assert(b.subrange(0, 1)[0] == b[0]);
    }
    assert(!occurs_at(b, seq![c], 0));
    assert(strip_prefixes(b, seq![c]) == b);
    assert(strip_prefixes(s, seq![c]) == strip_prefixes(s.skip(1), seq![c]));
}

/// The empty text is no image.
pub proof fn lemma_empty_is_text()
    ensures
        link_type_of(Seq::<char>::empty()) == WikilinkType::TEXT,
{
    law_no_extension(Seq::<char>::empty());
}

/// A target without an extension is no image: a name that holds no `.` is a
/// text link, whatever it is made of, `png` and `GIF` among them.
pub proof fn law_no_extension(name: Seq<char>)
    requires
        !name.contains('.'),
    ensures
        extension(name) is None,
        link_type_of(name) == WikilinkType::TEXT,
{
    assert forall|i: int| !is_last_index(name, '.', i) by {
        if is_last_index(name, '.', i) {
            assert(name.contains('.'));
        }
    }
}

/// A wikilink with nothing but a target: `[[A]]` names `A`, shows `A` and
/// has no anchor.
///
/// This is stated of every `A` that is not empty, holds neither `|` nor `#`,
/// does not begin with `[[` or end with `]]`, and is no image by its
/// extension; of no other `A` is it true.
pub proof fn law_plain_link(a: Seq<char>)
    requires
        a.len() > 0,
        !a.contains('|'),
        !a.contains('#'),
        !occurs_at(a, open_mark(), 0),
        !occurs_at(a, close_mark(), a.len() - 2),
        link_type_of(a) == WikilinkType::TEXT,
    ensures
        parse_spec(open_mark() + a + close_mark()) == Some(
            WikiLinkView {
                name: a,
                link: a,
                anchor: Seq::empty(),
                link_type: WikilinkType::TEXT,
            },
        ),
{
    lemma_unbracket(a);
    lemma_no_first_index(a, '|');
    lemma_no_first_index(a, '#');
    if a[0] == '#' {
        assert(a.contains('#'));
    }
}

/// A wikilink with a name: `[[A|B]]` names `A` and shows `B`.
///
/// This is stated of every `A` that holds neither `|` nor `#`, has no
/// whitespace at its ends and does not begin with `[[`, and of every `B` that
/// does not begin with `|` or end with `]]`, unless both are empty.
pub proof fn law_named_link(a: Seq<char>, b: Seq<char>)
    requires
        a.len() + b.len() > 0,
        !a.contains('|'),
        !a.contains('#'),
        trim(a) == a,
        !occurs_at(a, open_mark(), 0),
        b.len() == 0 || b[0] != '|',
        !occurs_at(b, close_mark(), b.len() - 2),
    ensures
        parse_spec(open_mark() + (a + seq!['|'] + b) + close_mark()) == Some(
            WikiLinkView { name: b, link: a, anchor: Seq::empty(), link_type: link_type_of(a) },
        ),
{
    let body = a + seq!['|'] + b;
    assert(!occurs_at(body, open_mark(), 0)) by {
        if occurs_at(body, open_mark(), 0) {
            assert(body.subrange(0, 2)[0] == '[');
            assert(body.subrange(0, 2)[1] == '[');
            if a.len() >= 2 {
                assert(a.subrange(0, 2) =~= body.subrange(0, 2));
            }
        }
    }
    assert(!occurs_at(body, close_mark(), body.len() - 2)) by {
        if occurs_at(body, close_mark(), body.len() - 2) {
            let tail = body.subrange(body.len() - 2, body.len() as int);
            assert(tail[0] == ']');
            assert(tail[1] == ']');
            if b.len() >= 2 {
                assert(b.subrange(b.len() - 2, b.len() as int) =~= tail);
            }
        }
    }
    lemma_unbracket(body);
    lemma_first_index_middle(a, '|', b);
    lemma_strip_one('|', b);
    lemma_no_first_index(a, '#');
    if a.len() > 0 && a[0] == '#' {
        assert(a.contains('#'));
    }
}

/// A wikilink with an anchor: `[[A#C]]` names `A`, shows `A` and has the
/// anchor `C`.
///
/// This is stated of every `A` that holds neither `|` nor `#`, has no
/// whitespace at its ends and does not begin with `[[`, and of every `C` that
/// holds no `|` and does not begin with `#` or end with `]]`, unless both are
/// empty.
pub proof fn law_anchored_link(a: Seq<char>, c: Seq<char>)
    requires
        a.len() + c.len() > 0,
        !a.contains('|'),
        !a.contains('#'),
        trim(a) == a,
        !occurs_at(a, open_mark(), 0),
        !c.contains('|'),
        c.len() == 0 || c[0] != '#',
        !occurs_at(c, close_mark(), c.len() - 2),
    ensures
        parse_spec(open_mark() + (a + seq!['#'] + c) + close_mark()) == Some(
            WikiLinkView { name: a, link: a, anchor: c, link_type: link_type_of(a) },
        ),
{
    let body = a + seq!['#'] + c;
    assert(!occurs_at(body, open_mark(), 0)) by {
        if occurs_at(body, open_mark(), 0) {
            assert(body.subrange(0, 2)[0] == '[');
            assert(body.subrange(0, 2)[1] == '[');
            if a.len() >= 2 {
                assert(a.subrange(0, 2) =~= body.subrange(0, 2));
            }
        }
    }
    assert(!occurs_at(body, close_mark(), body.len() - 2)) by {
        if occurs_at(body, close_mark(), body.len() - 2) {
            let tail = body.subrange(body.len() - 2, body.len() as int);
            assert(tail[0] == ']');
            assert(tail[1] == ']');
            if c.len() >= 2 {
                assert(c.subrange(c.len() - 2, c.len() as int) =~= tail);
            }
        }
    }
    lemma_unbracket(body);
    assert(!body.contains('|')) by {
        if body.contains('|') {
            let i = choose|i: int| 0 <= i < body.len() && body[i] == '|';
            if i < a.len() {
                assert(a[i] == '|');
                assert(a.contains('|'));
            } else if i > a.len() {
                assert(c[i - a.len() - 1] == '|');
                assert(c.contains('|'));
            }
        }
    }
    lemma_no_first_index(body, '|');
    lemma_first_index_middle(a, '#', c);
    lemma_strip_one('#', c);
    if a.len() == 0 {
        assert(body =~= seq!['#'] + c);
        assert(trim(Seq::<char>::empty()) == Seq::<char>::empty());
        assert(a =~= Seq::<char>::empty());
        lemma_empty_is_text();
    } else {
        assert(body[0] == a[0]);
        if a[0] == '#' {
            assert(a.contains('#'));
        }
    }
}

/// A wikilink into the same page: `[[#C]]` names no page, shows nothing and
/// has the anchor `C`.
///
/// This is stated of every `C` that is not empty, holds no `|` and does not
/// begin with `#` or end with `]]`.
pub proof fn law_anchor_only(c: Seq<char>)
    requires
        c.len() > 0,
        !c.contains('|'),
        c[0] != '#',
        !occurs_at(c, close_mark(), c.len() - 2),
    ensures
        parse_spec(open_mark() + (seq!['#'] + c) + close_mark()) == Some(
            WikiLinkView {
                name: Seq::empty(),
                link: Seq::empty(),
                anchor: c,
                link_type: WikilinkType::TEXT,
            },
        ),
{
    let a = Seq::<char>::empty();
    assert(a + seq!['#'] + c =~= seq!['#'] + c);
    assert(trim(a) == a);
    assert(!occurs_at(a, open_mark(), 0));
    law_anchored_link(a, c);
    lemma_empty_is_text();
}

/// Whether `c` is a letter of the ASCII alphabet.
pub open spec fn is_letter(c: char) -> bool {
    ('a' <= c && c <= 'z') || ('A' <= c && c <= 'Z')
}

/// Whether `e` is made of ASCII letters, and of one at least.
pub open spec fn is_letters(e: Seq<char>) -> bool {
    e.len() > 0 && forall|i: int| 0 <= i < e.len() ==> is_letter(#[trigger] e[i])
}

/// The type that the extension `e` stands for.
pub open spec fn type_of_extension(e: Seq<char>) -> WikilinkType {
    if is_image_extension(e) {
        WikilinkType::IMAGE
    } else {
        WikilinkType::TEXT
    }
}

/// The extensions of images are made of letters.
pub proof fn lemma_image_extension_letters(e: Seq<char>)
    requires
        is_image_extension(e),
    ensures
        is_letters(e),
{
    let l = lowered(e);
    assert(l.len() == e.len());
    assert forall|i: int| 0 <= i < e.len() implies is_letter(#[trigger] e[i]) by {
        assert(l[i] == ascii_lower(e[i]));
        assert(is_letter(l[i])) by {
            if l == seq!['j', 'p', 'g'] {
                assert(l[i] == seq!['j', 'p', 'g'][i]);
            } else if l == seq!['j', 'p', 'e', 'g'] {
                assert(l[i] == seq!['j', 'p', 'e', 'g'][i]);
            } else if l == seq!['p', 'n', 'g'] {
                assert(l[i] == seq!['p', 'n', 'g'][i]);
            } else {
                assert(l[i] == seq!['g', 'i', 'f'][i]);
            }
        }
    }
    assert(e.len() > 0) by {
        if l == seq!['j', 'p', 'g'] {
            assert(seq!['j', 'p', 'g'].len() == 3);
        } else if l == seq!['j', 'p', 'e', 'g'] {
            assert(seq!['j', 'p', 'e', 'g'].len() == 4);
        } else if l == seq!['p', 'n', 'g'] {
            assert(seq!['p', 'n', 'g'].len() == 3);
        } else {
            assert(seq!['g', 'i', 'f'].len() == 3);
        }
    }
}

/// Opening brackets are taken off the front only: what follows the first
/// character that is no `[` stays.
pub proof fn lemma_strip_prefixes_before(x: Seq<char>, y: Seq<char>)
    requires
        y.len() > 0,
        y[0] != '[',
    ensures
        strip_prefixes(x + y, open_mark()) == strip_prefixes(x, open_mark()) + y,
    decreases x.len(),
{
    let s = x + y;
    if occurs_at(x, open_mark(), 0) {
        assert(s.subrange(0, 2) =~= x.subrange(0, 2));
        assert(s.skip(2) =~= x.skip(2) + y);
        lemma_strip_prefixes_before(x.skip(2), y);
    } else {
        if occurs_at(s, open_mark(), 0) {
            assert(s.subrange(0, 2)[0] == '[');
            assert(s.subrange(0, 2)[1] == '[');
            if x.len() >= 2 {
                assert(x.subrange(0, 2) =~= s.subrange(0, 2));
            }
        }
    }
}

/// Closing brackets are taken off the end only: what stands before the last
/// character that is no `]` stays.
pub proof fn lemma_strip_suffixes_after(x: Seq<char>, y: Seq<char>)
    requires
        x.len() > 0,
        x.last() != ']',
    ensures
        strip_suffixes(x + y, close_mark()) == x + strip_suffixes(y, close_mark()),
    decreases y.len(),
{
    let s = x + y;
    if occurs_at(y, close_mark(), y.len() - 2) {
        assert(s.subrange(s.len() - 2, s.len() as int) =~= y.subrange(
            y.len() - 2,
            y.len() as int,
        ));
        assert(s.take(s.len() - 2) =~= x + y.take(y.len() - 2));
        lemma_strip_suffixes_after(x, y.take(y.len() - 2));
    } else {
        if occurs_at(s, close_mark(), s.len() - 2) {
            let tail = s.subrange(s.len() - 2, s.len() as int);
            assert(tail[0] == ']');
            assert(tail[1] == ']');
            if y.len() >= 2 {
                assert(y.subrange(y.len() - 2, y.len() as int) =~= tail);
            }
        }
    }
}

/// Whitespace is taken off the front only: what follows the first character
/// that is no whitespace stays.
pub proof fn lemma_trim_start_before(x: Seq<char>, y: Seq<char>)
    requires
        y.len() > 0,
        !is_whitespace(y[0]),
    ensures
        trim_start(x + y) == trim_start(x) + y,
    decreases x.len(),
{
    let s = x + y;
    if x.len() > 0 && is_whitespace(x[0]) {
        assert(s.drop_first() =~= x.drop_first() + y);
        lemma_trim_start_before(x.drop_first(), y);
    } else {
        if x.len() == 0 {
            assert(s =~= y);
            assert(trim_start(x) + y =~= y);
        }
    }
}

/// What is left of a text after brackets or whitespace are taken off its
/// front holds no character that the text did not hold.
pub proof fn lemma_front_kept(x: Seq<char>, c: char)
    requires
        !x.contains(c),
    ensures
        !strip_prefixes(x, open_mark()).contains(c),
        !trim_start(x).contains(c),
    decreases x.len(),
{
    if occurs_at(x, open_mark(), 0) {
        let r = x.skip(2);
        assert(!r.contains(c)) by {
            if r.contains(c) {
                let i = choose|i: int| 0 <= i < r.len() && r[i] == c;
                assert(x[i + 2] == c);
                assert(x.contains(c));
            }
        }
        lemma_front_kept(r, c);
    }
    if x.len() > 0 && is_whitespace(x[0]) {
        let r = x.drop_first();
        assert(!r.contains(c)) by {
            if r.contains(c) {
                let i = choose|i: int| 0 <= i < r.len() && r[i] == c;
                assert(x[i + 1] == c);
                assert(x.contains(c));
            }
        }
        lemma_front_kept(r, c);
    }
}

/// A text made of parts that do not hold `c` does not hold `c`.
pub proof fn lemma_not_in_parts(a: Seq<char>, d: char, e: Seq<char>, c: char)
    requires
        !a.contains(c),
        !e.contains(c),
        d != c,
    ensures
        !(a + seq![d] + e).contains(c),
{
    let s = a + seq![d] + e;
    if s.contains(c) {
        let i = choose|i: int| 0 <= i < s.len() && s[i] == c;
        if i < a.len() {
            assert(a[i] == c);
            assert(a.contains(c));
        } else if i > a.len() {
            assert(e[i - a.len() - 1] == c);
            assert(e.contains(c));
        }
    }
}

/// Letters hold no mark of the grammar.
pub proof fn lemma_letters_plain(e: Seq<char>, c: char)
    requires
        is_letters(e),
        !is_letter(c),
    ensures
        !e.contains(c),
{
    if e.contains(c) {
        let i = choose|i: int| 0 <= i < e.len() && e[i] == c;
        assert(is_letter(e[i]));
    }
}

/// The extension of `a`, `.`, `e` is `e`, where `e` is made of letters.
pub proof fn lemma_extension_of(a: Seq<char>, e: Seq<char>)
    requires
        is_letters(e),
    ensures
        extension(a + seq!['.'] + e) == Some(e),
        link_type_of(a + seq!['.'] + e) == type_of_extension(e),
{
    let s = a + seq!['.'] + e;
    assert(s[a.len() as int] == '.');
    assert forall|j: int| a.len() < j < s.len() implies s[j] != '.' by {
        assert(s[j] == e[j - a.len() - 1]);
        assert(is_letter(e[j - a.len() - 1]));
    }
    lemma_last_index(s, '.', a.len() as int);
    assert(s.skip(a.len() as int + 1) =~= e);
}

/// The target of `[[A.E]]` has the extension `E`, so `E` decides the type of
/// the link.
///
/// This is stated of every `A` that holds neither `|` nor `#` and of every
/// `E` made of letters.
pub proof fn law_extension_decides(a: Seq<char>, e: Seq<char>)
    requires
        !a.contains('|'),
        !a.contains('#'),
        is_letters(e),
    ensures
        parse_spec(open_mark() + (a + seq!['.'] + e) + close_mark()) is Some,
        parse_fields(open_mark() + (a + seq!['.'] + e) + close_mark()).link_type
            == type_of_extension(e),
{
    let s = open_mark() + (a + seq!['.'] + e) + close_mark();
    let x1 = open_mark() + a;
    let y1 = seq!['.'] + e + close_mark();
    assert(s =~= x1 + y1);
    lemma_strip_prefixes_before(x1, y1);
    let a1 = strip_prefixes(x1, open_mark());
    assert(!x1.contains('|') && !x1.contains('#')) by {
        if x1.contains('|') {
            let i = choose|i: int| 0 <= i < x1.len() && x1[i] == '|';
            if i >= 2 {
                assert(a[i - 2] == '|');
                assert(a.contains('|'));
            }
        }
        if x1.contains('#') {
            let i = choose|i: int| 0 <= i < x1.len() && x1[i] == '#';
            if i >= 2 {
                assert(a[i - 2] == '#');
                assert(a.contains('#'));
            }
        }
    }
    lemma_front_kept(x1, '|');
    lemma_front_kept(x1, '#');
    let body = a1 + seq!['.'] + e;
    assert(a1 + y1 =~= body + close_mark());
    assert(body.last() == e.last());
    assert(is_letter(e[e.len() - 1]));
    lemma_strip_suffixes_after(body, close_mark());
    assert(strip_suffixes(close_mark(), close_mark()) == Seq::<char>::empty()) by {
        assert(close_mark().subrange(0, 2) =~= close_mark());
        assert(close_mark().take(0) =~= Seq::<char>::empty());
        assert(strip_suffixes(Seq::<char>::empty(), close_mark()) == Seq::<char>::empty());
    }
    assert(body + Seq::<char>::empty() =~= body);
    assert(strip_suffixes(strip_prefixes(s, open_mark()), close_mark()) == body);
    lemma_letters_plain(e, '|');
    lemma_letters_plain(e, '#');
    lemma_not_in_parts(a1, '.', e, '|');
    lemma_not_in_parts(a1, '.', e, '#');
    lemma_no_first_index(body, '|');
    lemma_no_first_index(body, '#');
    if body[0] == '#' {
        assert(body.contains('#'));
    }
    lemma_extension_of(a1, e);
}

/// The target of `[[A.E|B]]` has the extension `E`, so `E` decides the type
/// of the link, whatever the name `B` is.
///
/// This is stated of every `A` that holds neither `|` nor `#`, of every `E`
/// made of letters and of every `B`.
pub proof fn law_extension_decides_named(a: Seq<char>, e: Seq<char>, b: Seq<char>)
    requires
        !a.contains('|'),
        !a.contains('#'),
        is_letters(e),
    ensures
        parse_spec(open_mark() + (a + seq!['.'] + e + seq!['|'] + b) + close_mark()) is Some,
        parse_fields(
            open_mark() + (a + seq!['.'] + e + seq!['|'] + b) + close_mark(),
        ).link_type == type_of_extension(e),
{
    let s = open_mark() + (a + seq!['.'] + e + seq!['|'] + b) + close_mark();
    let x1 = open_mark() + a;
    let y1 = seq!['.'] + e + seq!['|'] + b + close_mark();
    assert(s =~= x1 + y1);
    lemma_strip_prefixes_before(x1, y1);
    let a1 = strip_prefixes(x1, open_mark());
    assert(!x1.contains('|') && !x1.contains('#')) by {
        if x1.contains('|') {
            let i = choose|i: int| 0 <= i < x1.len() && x1[i] == '|';
            if i >= 2 {
                assert(a[i - 2] == '|');
                assert(a.contains('|'));
            }
        }
        if x1.contains('#') {
            let i = choose|i: int| 0 <= i < x1.len() && x1[i] == '#';
            if i >= 2 {
                assert(a[i - 2] == '#');
                assert(a.contains('#'));
            }
        }
    }
    lemma_front_kept(x1, '|');
    lemma_front_kept(x1, '#');
    let l = a1 + seq!['.'] + e;
    let x2 = l + seq!['|'];
    let y2 = b + close_mark();
    assert(a1 + y1 =~= x2 + y2);
    assert(x2.last() == '|');
    lemma_strip_suffixes_after(x2, y2);
    let b1 = strip_suffixes(y2, close_mark());
    let body = l + seq!['|'] + b1;
    assert(x2 + b1 =~= body);
    assert(strip_suffixes(strip_prefixes(s, open_mark()), close_mark()) == body);
    lemma_letters_plain(e, '|');
    lemma_letters_plain(e, '#');
    lemma_not_in_parts(a1, '.', e, '|');
    lemma_not_in_parts(a1, '.', e, '#');
    lemma_first_index_middle(l, '|', b1);
    let y3 = seq!['.'] + e;
    assert(l =~= a1 + y3);
    lemma_trim_start_before(a1, y3);
    let a2 = trim_start(a1);
    lemma_front_kept(a1, '|');
    lemma_front_kept(a1, '#');
    let link = a2 + seq!['.'] + e;
    assert(a2 + y3 =~= link);
    assert(link.last() == e.last());
    assert(is_letter(e[e.len() - 1]));
    assert(trim_end(link) == link);
    assert(trim(l) == link);
    lemma_not_in_parts(a2, '.', e, '#');
    lemma_no_first_index(link, '#');
    if link[0] == '#' {
        assert(link.contains('#'));
    }
    lemma_extension_of(a2, e);
}

/// A wikilink to an image: `[[A.jpg]]` and `[[A.png|B]]` are image links, and
/// so is every link whose target ends in `.jpg`, `.jpeg`, `.png` or `.gif`,
/// in any case of letters.
///
/// This is stated of every `A` that holds neither `|` nor `#`.
pub proof fn law_image_link(a: Seq<char>, e: Seq<char>, b: Seq<char>)
    requires
        !a.contains('|'),
        !a.contains('#'),
        is_image_extension(e),
    ensures
        parse_fields(open_mark() + (a + seq!['.'] + e) + close_mark()).link_type
            == WikilinkType::IMAGE,
        parse_fields(
            open_mark() + (a + seq!['.'] + e + seq!['|'] + b) + close_mark(),
        ).link_type == WikilinkType::IMAGE,
{
    lemma_image_extension_letters(e);
    law_extension_decides(a, e);
    law_extension_decides_named(a, e, b);
}

/// A wikilink to a drawing: `[[A.svg]]` is a text link, though a file with
/// that extension counts as an image where images are collected.
///
/// This is stated of every `A` that holds neither `|` nor `#`.
pub proof fn law_svg_link(a: Seq<char>)
    requires
        !a.contains('|'),
        !a.contains('#'),
    ensures
        parse_fields(open_mark() + (a + seq!['.'] + seq!['s', 'v', 'g']) + close_mark()).link_type
            == WikilinkType::TEXT,
{
    let e = seq!['s', 'v', 'g'];
    assert(is_letters(e));
    assert(!is_image_extension(e)) by {
        let l = lowered(e);
        assert(l[0] == 's');
        assert(seq!['j', 'p', 'g'][0] == 'j');
        assert(seq!['j', 'p', 'e', 'g'][0] == 'j');
        assert(seq!['p', 'n', 'g'][0] == 'p');
        assert(seq!['g', 'i', 'f'][0] == 'g');
    }
    law_extension_decides(a, e);
}

/// No block of code opens at a character that is no backtick.
proof fn lemma_no_fence(s: Seq<char>, i: int)
    requires
        0 <= i < s.len(),
        s[i] != '`',
    ensures
        !occurs_at(s, fence(), i),
        without_code_from(s, i) == seq![s[i]] + without_code_from(s, i + 1),
{
    if occurs_at(s, fence(), i) {
        assert(s.subrange(i, i + 3)[0] == '`');
    }
}

/// Where no backtick stands from `i` on, there is no piece of code from `i`
/// on.
pub proof fn lemma_no_code_behind(s: Seq<char>, i: int)
    requires
        0 <= i <= s.len(),
        forall|j: int| i <= j < s.len() ==> #[trigger] s[j] != '`',
    ensures
        without_code_from(s, i) == s.skip(i),
    decreases s.len() - i,
{
    if i < s.len() {
        lemma_no_fence(s, i);
        lemma_no_code_behind(s, i + 1);
        assert(seq![s[i]] + s.skip(i + 1) =~= s.skip(i));
    } else {
        assert(s.skip(i) =~= Seq::<char>::empty());
    }
}

/// A text without a backtick holds no piece of code.
pub proof fn lemma_no_code(s: Seq<char>, i: int)
    requires
        !s.contains('`'),
        0 <= i <= s.len(),
    ensures
        without_code_from(s, i) == s.skip(i),
{
    assert forall|j: int| i <= j < s.len() implies #[trigger] s[j] != '`' by {
        if s[j] == '`' {
            assert(s.contains('`'));
        }
    }
    lemma_no_code_behind(s, i);
}

/// Whether `code` can be the inside of a block of code: no fence begins in
/// it, not even with its end in the fence that follows. Line breaks may
/// stand in it.
#[verifier::opaque]
pub open spec fn fits_block(code: Seq<char>) -> bool {
    forall|j: int| 0 <= j < code.len() ==> !#[trigger] occurs_at(code + fence(), fence(), j)
}

/// The block of code that stands at `i`: a fence, `code`, a fence.
proof fn lemma_block_in(s: Seq<char>, i: int, code: Seq<char>)
    requires
        0 <= i,
        i + 6 + code.len() <= s.len(),
        s.subrange(i, i + 3 + code.len() + 3) == fence() + code + fence(),
        fits_block(code),
    ensures
        block_at(s, fence(), fence(), i) == Some((i + 3, i + 3 + code.len())),
{
    reveal(fits_block);
    let whole = fence() + code + fence();
    let a = i + 3;
    let e = a + code.len();
    assert(s.subrange(i, i + 3) =~= whole.subrange(0, 3));
    assert(whole.subrange(0, 3) =~= fence());
    assert(s.subrange(e, e + 3) =~= whole.subrange(e - i, e - i + 3));
    assert(whole.subrange(e - i, e - i + 3) =~= fence());
    assert forall|j: int| a <= j < e implies !#[trigger] occurs_at(s, fence(), j) by {
        let t = code + fence();
        if occurs_at(s, fence(), j) {
            assert(s.subrange(j, j + 3) =~= whole.subrange(j - i, j - i + 3));
            assert(t.subrange(j - a, j - a + 3) =~= whole.subrange(j - i, j - i + 3));
            assert(occurs_at(t, fence(), j - a));
        }
    }
    assert(follows_at(s, fence(), a, e));
    lemma_next_close(s, fence(), a, e);
}

/// What stands before the first backtick stays.
proof fn lemma_code_behind(s: Seq<char>, n: int, i: int)
    requires
        0 <= i <= n <= s.len(),
        forall|j: int| 0 <= j < n ==> #[trigger] s[j] != '`',
    ensures
        without_code_from(s, i) == s.subrange(i, n) + without_code_from(s, n),
    decreases n - i,
{
    if i < n {
        lemma_no_fence(s, i);
        lemma_code_behind(s, n, i + 1);
        assert(seq![s[i]] + (s.subrange(i + 1, n) + without_code_from(s, n)) =~= s.subrange(i, n)
            + without_code_from(s, n));
    } else {
        assert(s.subrange(i, n) + without_code_from(s, n) =~= without_code_from(s, n));
    }
}

/// A block of code is left out with all its lines: of a text made of
/// `before`, a fence, `code`, a fence and `after`, what stays is `before`
/// and `after`, and the links of the text are the links of these two.
///
/// This is stated of every `before` and `after` without a backtick and of
/// every `code` in which no fence begins; line breaks may stand anywhere.
pub proof fn law_code_block(before: Seq<char>, code: Seq<char>, after: Seq<char>)
    requires
        !before.contains('`'),
        !after.contains('`'),
        fits_block(code),
    ensures
        without_code(before + fence() + code + fence() + after) == before + after,
        extracted(before + fence() + code + fence() + after) == links_from(before + after, 0),
{
    let s = before + fence() + code + fence() + after;
    let n = before.len() as int;
    let e = n + 3 + code.len();
    assert forall|j: int| 0 <= j < n implies #[trigger] s[j] != '`' by {
        assert(s[j] == before[j]);
        if before[j] == '`' {
            assert(before.contains('`'));
        }
    }
    assert forall|j: int| e + 3 <= j < s.len() implies #[trigger] s[j] != '`' by {
        assert(s[j] == after[j - e - 3]);
        if after[j - e - 3] == '`' {
            assert(after.contains('`'));
        }
    }
    assert(s.subrange(n, n + 3 + code.len() + 3) =~= fence() + code + fence());
    lemma_code_behind(s, n, 0);
    lemma_block_in(s, n, code);
    lemma_code_after_block(s, n, code.len() as int);
    lemma_no_code_behind(s, e + 3);
    assert(s.subrange(0, n) =~= before);
    assert(s.skip(e + 3) =~= after);
}

/// Behind a block of code the text goes on behind its closing fence.
proof fn lemma_code_after_block(s: Seq<char>, i: int, len: int)
    requires
        0 <= i < s.len(),
        block_at(s, fence(), fence(), i) == Some((i + 3, i + 3 + len)),
    ensures
        without_code_from(s, i) == without_code_from(s, i + 3 + len + 3),
{
}

/// A text that is one wikilink yields that link, or nothing where the link
/// has empty fields only: the links found in `[[inside]]` are what `inside`
/// is parsed as.
///
/// This is stated of every `inside` without backtick and line break in which
/// `]]` does not close the brackets early.
pub proof fn law_one_link(inside: Seq<char>)
    requires
        !inside.contains('`'),
        fits_span(inside, close_mark()),
    ensures
        extracted(open_mark() + inside + close_mark()) == found(parse_spec(inside)),
{
    lemma_is_one_link(inside);
    lemma_link_alone(open_mark() + inside + close_mark(), inside);
}

/// `s` is a text made of one wikilink, around `inside`.
#[verifier::opaque]
spec fn is_one_link(s: Seq<char>, inside: Seq<char>) -> bool {
    &&& !occurs_at(s, embed_mark(), 0)
    &&& span_at(s, open_mark(), close_mark(), 0) == Some((2int, 2 + inside.len() as int))
    &&& s.len() == inside.len() + 4
    &&& s.subrange(2, 2 + inside.len() as int) == inside
    &&& without_code(s) == s
}

/// `[[inside]]` is a text made of one wikilink where `inside` fits.
proof fn lemma_is_one_link(inside: Seq<char>)
    requires
        !inside.contains('`'),
        fits_span(inside, close_mark()),
    ensures
        is_one_link(open_mark() + inside + close_mark(), inside),
{
    reveal(is_one_link);
    lemma_bracketed_plain(inside);
    lemma_one_span(open_mark(), inside, close_mark());
    assert(open_mark().len() == 2);
    assert(close_mark().len() == 2);
}

/// `[[inside]]` holds no piece of code where `inside` holds no backtick, and
/// it does not begin like an embedded image.
proof fn lemma_bracketed_plain(inside: Seq<char>)
    requires
        !inside.contains('`'),
    ensures
        without_code(open_mark() + inside + close_mark()) == open_mark() + inside
            + close_mark(),
        !occurs_at(open_mark() + inside + close_mark(), embed_mark(), 0),
{
    let s = open_mark() + inside + close_mark();
    assert(!s.contains('`')) by {
        if s.contains('`') {
            let i = choose|i: int| 0 <= i < s.len() && s[i] == '`';
            if 2 <= i < 2 + inside.len() {
                assert(inside[i - 2] == '`');
                assert(inside.contains('`'));
            }
        }
    }
    lemma_no_code(s, 0);
    assert(s.skip(0) =~= s);
    if occurs_at(s, embed_mark(), 0) {
        assert(s.subrange(0, 3)[0] == '!');
    }
}

/// A text that is one wikilink holds that link and no other.
proof fn lemma_link_alone(s: Seq<char>, inside: Seq<char>)
    requires
        is_one_link(s, inside),
    ensures
        extracted(s) == found(parse_spec(inside)),
{
    reveal(is_one_link);
    let e = 2 + inside.len() as int;
    assert(wikilink_at(s, 0) == Some(LinkSpan { embed: false, start: 2, end: e }));
    assert(links_from(s, e + 2) == Seq::<WikiLinkView>::empty());
    assert(found(parse_spec(s.subrange(2, e))) + Seq::<WikiLinkView>::empty() =~= found(
        parse_spec(s.subrange(2, e)),
    ));
}

/// What stands between the brackets is parsed as the whole is: `inside` and
/// `[[inside]]` stand for the same link, unless `inside` begins with `[[` or
/// ends with `]]`.
pub proof fn law_brackets_optional(inside: Seq<char>)
    requires
        !occurs_at(inside, open_mark(), 0),
        !occurs_at(inside, close_mark(), inside.len() - 2),
    ensures
        parse_spec(open_mark() + inside + close_mark()) == parse_spec(inside),
{
    lemma_unbracket(inside);
    assert(strip_prefixes(inside, open_mark()) == inside);
    assert(strip_suffixes(inside, close_mark()) == inside);
}

} // verus!
