//! Documents of nested mappings, and the text at the end of a path of keys.
use crate::text::{
    append_chars, char_views, chars_eq, from_chars, split, split_chars, to_chars,
};
use vstd::prelude::*;

verus! {

/// A value of a document.
#[derive(Debug)]
pub enum YamlNode {
    Null,
    Bool(bool),
    /// A number, as it is written.
    Number(String),
    Text(String),
    Sequence(Vec<YamlNode>),
    /// The entries of a mapping, each a key with its value.
    Mapping(Vec<(YamlNode, YamlNode)>),
    /// A value with a tag before it.
    Tagged(String, Box<YamlNode>),
}

/// A `YamlNode` as a mathematical value.
pub enum YamlView {
    Null,
    Bool(bool),
    Number(Seq<char>),
    Text(Seq<char>),
    Sequence(Seq<YamlView>),
    Mapping(Seq<(YamlView, YamlView)>),
    Tagged(Seq<char>, Box<YamlView>),
}

/// The view of a node.
pub open spec fn node_view(node: YamlNode) -> YamlView
    decreases node,
{
    match node {
        YamlNode::Null => YamlView::Null,
        YamlNode::Bool(b) => YamlView::Bool(b),
        YamlNode::Number(n) => YamlView::Number(n@),
        YamlNode::Text(t) => YamlView::Text(t@),
        YamlNode::Sequence(items) => YamlView::Sequence(
            Seq::new(
                items@.len(),
                |i: int|
                    if 0 <= i < items@.len() {
                        node_view(items@[i])
                    } else {
                        YamlView::Null
                    },
            ),
        ),
        YamlNode::Mapping(entries) => YamlView::Mapping(entry_views(entries@)),
        YamlNode::Tagged(tag, inner) => YamlView::Tagged(tag@, Box::new(node_view(*inner))),
    }
}

/// The views of the entries of a mapping.
pub open spec fn entry_views(entries: Seq<(YamlNode, YamlNode)>) -> Seq<(YamlView, YamlView)>
    decreases entries,
{
    Seq::new(
        entries.len(),
        |i: int|
            if 0 <= i < entries.len() {
                (node_view(entries[i].0), node_view(entries[i].1))
            } else {
                (YamlView::Null, YamlView::Null)
            },
    )
}

/// Why a path leads to no text.
#[derive(Debug, PartialEq, Eq, Clone, Copy, Structural)]
pub enum YamlError {
    /// The key at this place of the path is not in the mapping that the
    /// path has led to.
    KeyNotFound(usize),
    /// The path has led, before its key at this place, to a value that is no
    /// mapping.
    NotAMapping(usize),
    /// The path leads to a value that is no text.
    NotAString,
    /// The key at this place of the path leads nowhere: it is not in the
    /// mapping, or there is no mapping.
    InvalidSegment(usize),
}

/// The entry at `k` is the first whose key is the text `key`.
pub open spec fn is_entry(entries: Seq<(YamlView, YamlView)>, key: Seq<char>, k: int) -> bool {
    &&& 0 <= k < entries.len()
    &&& entries[k].0 == YamlView::Text(key)
    &&& forall|j: int| 0 <= j < k ==> (#[trigger] entries[j]).0 != YamlView::Text(key)
}

/// Where the entry for the text `key` stands, if there is one.
pub open spec fn entry_index(entries: Seq<(YamlView, YamlView)>, key: Seq<char>) -> Option<int> {
    if exists|k: int| is_entry(entries, key, k) {
        Some(choose|k: int| is_entry(entries, key, k))
    } else {
        None
    }
}

/// The first entry for a key is the entry for that key.
pub proof fn lemma_entry_index(entries: Seq<(YamlView, YamlView)>, key: Seq<char>, k: int)
    requires
        is_entry(entries, key, k),
    ensures
        entry_index(entries, key) == Some(k),
{
    let j = choose|j: int| is_entry(entries, key, j);
    assert(is_entry(entries, key, j));
    if j < k {
        assert(entries[j].0 != YamlView::Text(key));
    }
    if k < j {
        assert(entries[k].0 != YamlView::Text(key));
    }
}

/// Where the keys `keys`, from the one at `i` on, lead from `node`: from a
/// mapping each key leads to the value of its entry.
pub open spec fn walk(node: YamlView, keys: Seq<Seq<char>>, i: int) -> Result<YamlView, YamlError>
    decreases keys.len() - i,
{
    if i < 0 || i >= keys.len() {
        Ok(node)
    } else {
        match node {
            YamlView::Mapping(entries) => match entry_index(entries, keys[i]) {
                Some(k) => walk(entries[k].1, keys, i + 1),
                None => Err(YamlError::KeyNotFound(i as usize)),
            },
            _ => Err(YamlError::NotAMapping(i as usize)),
        }
    }
}

/// The text that the path `path` leads to in `doc`. The keys of the path
/// stand between its dots.
pub open spec fn text_at(doc: YamlView, path: Seq<char>) -> Result<Seq<char>, YamlError> {
    match walk(doc, split(path, '.'), 0) {
        Ok(YamlView::Text(t)) => Ok(t),
        Ok(_) => Err(YamlError::NotAString),
        Err(e) => Err(e),
    }
}

/// `node` with the text `value` in place of what the keys `keys`, from the
/// one at `i` on, lead to.
pub open spec fn with_text(node: YamlView, keys: Seq<Seq<char>>, i: int, value: Seq<char>) -> Result<
    YamlView,
    YamlError,
>
    decreases keys.len() - i,
{
    if i < 0 || i >= keys.len() {
        Ok(YamlView::Text(value))
    } else {
        match node {
            YamlView::Mapping(entries) => match entry_index(entries, keys[i]) {
                Some(k) => match with_text(entries[k].1, keys, i + 1, value) {
                    Ok(v) => Ok(YamlView::Mapping(entries.update(k, (entries[k].0, v)))),
                    Err(e) => Err(e),
                },
                None => Err(YamlError::InvalidSegment(i as usize)),
            },
            _ => Err(YamlError::InvalidSegment(i as usize)),
        }
    }
}

/// Where the entry for `key` stands among `entries`.
fn find_entry(entries: &Vec<(YamlNode, YamlNode)>, key: &Vec<char>) -> (r: Option<usize>)
    ensures
        match r {
            Some(k) => k < entries.len() && entry_index(entry_views(entries@), key@) == Some(
                k as int,
            ),
            None => entry_index(entry_views(entries@), key@) is None,
        },
{
    let ghost views = entry_views(entries@);
    let mut k: usize = 0;
    while k < entries.len()
        invariant
            k <= entries.len(),
            views == entry_views(entries@),
            forall|j: int| 0 <= j < k ==> (#[trigger] views[j]).0 != YamlView::Text(key@),
        decreases entries.len() - k,
    {
        assert(views[k as int].0 == node_view(entries@[k as int].0));
        let hit = match &entries[k].0 {
            YamlNode::Text(t) => chars_eq(&to_chars(t.as_str()), key),
            _ => false,
        };
        if hit {
            proof {
                lemma_entry_index(views, key@, k as int);
            }
            return Some(k);
        }
        k += 1;
    }
    assert forall|j: int| !is_entry(views, key@, j) by {
        if 0 <= j < views.len() {
            assert(views[j].0 != YamlView::Text(key@));
        }
    }
    None
}

/// The text that the dot-separated path `yaml_key_path` leads to in `doc`.
///
/// Fails with the place of the first key that is not found, or of the first
/// key that would have to be looked up in a value that is no mapping, or
/// because the path ends at a value that is no text.
pub fn get_yaml_value(doc: &YamlNode, yaml_key_path: &str) -> (r: Result<String, YamlError>)
    ensures
        match r {
            Ok(text) => text_at(node_view(*doc), yaml_key_path@) == Ok::<Seq<char>, YamlError>(
                text@,
            ),
            Err(e) => text_at(node_view(*doc), yaml_key_path@) == Err::<Seq<char>, YamlError>(e),
        },
{
    let keys = split_chars(&to_chars(yaml_key_path), '.');
    let ghost names = char_views(keys@);
    let mut current: &YamlNode = doc;
    let mut i: usize = 0;
    while i < keys.len()
        invariant
            i <= keys.len(),
            names == char_views(keys@),
            names == split(yaml_key_path@, '.'),
            walk(node_view(*doc), names, 0) == walk(node_view(*current), names, i as int),
        decreases keys.len() - i,
    {
        assert(names[i as int] == keys@[i as int]@);
        match current {
            YamlNode::Mapping(entries) => {
                match find_entry(entries, &keys[i]) {
                    Some(k) => {
                        assert(entry_views(entries@)[k as int].1 == node_view(
                            entries@[k as int].1,
                        ));
                        current = &entries[k].1;
                    },
                    None => {
                        return Err(YamlError::KeyNotFound(i));
                    },
                }
            },
            _ => {
                return Err(YamlError::NotAMapping(i));
            },
        }
        i += 1;
    }
    match current {
        YamlNode::Text(t) => Ok(t.clone()),
        _ => Err(YamlError::NotAString),
    }
}

/// Puts the text `value` in place of what the keys `keys`, from the one at
/// `i` on, lead to in `node`.
fn set_text(node: &mut YamlNode, keys: &Vec<Vec<char>>, i: usize, value: &str) -> (r: Result<
    (),
    YamlError,
>)
    requires
        i <= keys.len(),
    ensures
        match r {
            Ok(_) => with_text(node_view(*old(node)), char_views(keys@), i as int, value@) == Ok::<
                YamlView,
                YamlError,
            >(node_view(*final(node))),
            Err(e) => {
                &&& with_text(node_view(*old(node)), char_views(keys@), i as int, value@) == Err::<
                    YamlView,
                    YamlError,
                >(e)
                &&& node_view(*final(node)) == node_view(*old(node))
            },
        },
    decreases keys.len() - i,
{
    if i == keys.len() {
        *node = YamlNode::Text(value.to_owned());
        return Ok(());
    }
    let ghost names = char_views(keys@);
    assert(names[i as int] == keys@[i as int]@);
    match node {
        YamlNode::Mapping(entries) => {
            let ghost before = entries@;
            match find_entry(entries, &keys[i]) {
                Some(k) => {
                    let ghost views = entry_views(before);
                    assert(views[k as int] == (
                        node_view(before[k as int].0),
                        node_view(before[k as int].1),
                    ));
                    let r = set_text(&mut entries[k].1, keys, i + 1, value);
                    proof {
                        let after = entries@;
                        assert(after.len() == before.len());
                        assert(after[k as int].0 == before[k as int].0);
                        assert(forall|j: int|
                            0 <= j < after.len() && j != k ==> after[j] == before[j]);
                        match r {
                            Ok(_) => {
                                assert(entry_views(after) =~= views.update(
                                    k as int,
                                    (views[k as int].0, node_view(after[k as int].1)),
                                ));
                            },
                            Err(_) => {
                                assert(entry_views(after) =~= views);
                            },
                        }
                    }
                    r
                },
                None => Err(YamlError::InvalidSegment(i)),
            }
        },
        _ => Err(YamlError::InvalidSegment(i)),
    }
}

/// Puts the text `new_value` in place of what the dot-separated path `path`
/// leads to in `doc`.
///
/// Fails, and leaves the document as it is, with the place of the first key
/// that leads nowhere.
pub fn update_yaml_value_in_place(doc: &mut YamlNode, path: &str, new_value: &str) -> (r: Result<
    (),
    YamlError,
>)
    ensures
        match r {
            Ok(_) => with_text(node_view(*old(doc)), split(path@, '.'), 0, new_value@) == Ok::<
                YamlView,
                YamlError,
            >(node_view(*final(doc))),
            Err(e) => {
                &&& with_text(node_view(*old(doc)), split(path@, '.'), 0, new_value@) == Err::<
                    YamlView,
                    YamlError,
                >(e)
                &&& node_view(*final(doc)) == node_view(*old(doc))
            },
        },
{
    let keys = split_chars(&to_chars(path), '.');
    set_text(doc, &keys, 0, new_value)
}

/// The key at the place `place` of the dot-separated path `path`.
pub open spec fn key_at(path: Seq<char>, place: int) -> Seq<char> {
    if 0 <= place < split(path, '.').len() {
        split(path, '.')[place]
    } else {
        Seq::empty()
    }
}

/// What went wrong on the path `path`, in words.
pub open spec fn message(error: YamlError, path: Seq<char>) -> Seq<char> {
    match error {
        YamlError::KeyNotFound(place) => "Key '"@ + key_at(path, place as int)
            + "' not found in YAML key path: "@ + path,
        YamlError::NotAMapping(_) => "Invalid YAML key path: "@ + path,
        YamlError::NotAString => "The retrieved YAML value is not a string."@,
        YamlError::InvalidSegment(place) => "Invalid path segment: "@ + key_at(
            path,
            place as int,
        ),
    }
}

/// Says in words what went wrong on the path `path`.
pub fn describe(error: YamlError, path: &str) -> (text: String)
    ensures
        text@ == message(error, path@),
{
    let whole = to_chars(path);
    let keys = split_chars(&whole, '.');
    let ghost names = char_views(keys@);
    let mut out: Vec<char> = Vec::new();
    match error {
        YamlError::KeyNotFound(place) => {
            append_chars(&mut out, &to_chars("Key '"));
            if place < keys.len() {
                assert(names[place as int] == keys@[place as int]@);
                append_chars(&mut out, &keys[place]);
            }
            append_chars(&mut out, &to_chars("' not found in YAML key path: "));
            append_chars(&mut out, &whole);
        },
        YamlError::NotAMapping(_) => {
            append_chars(&mut out, &to_chars("Invalid YAML key path: "));
            append_chars(&mut out, &whole);
        },
        YamlError::NotAString => {
            append_chars(&mut out, &to_chars("The retrieved YAML value is not a string."));
        },
        YamlError::InvalidSegment(place) => {
            append_chars(&mut out, &to_chars("Invalid path segment: "));
            if place < keys.len() {
                assert(names[place as int] == keys@[place as int]@);
                append_chars(&mut out, &keys[place]);
            }
        },
    }
    assert(out@ =~= message(error, path@));
    from_chars(&out)
}

} // verus!
