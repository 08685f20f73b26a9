//! The images of a site: which files are images, which of them a page
//! embeds, and where each one is copied to.
use crate::notes::markdown::{close_mark, embed_mark, Marks, Page};
use crate::notes::scan::{lemma_span_bounds, span_at};
use crate::paths::{file_name, file_name_of, join, join_paths, path_extension, path_extension_of};
use crate::text::{chars_eq, from_chars, subvec, to_chars};
use vstd::prelude::*;

verus! {

/// Whether the file at `path` is an image: its extension is `png`, `jpg`,
/// `gif` or `svg`, in exactly these letters.
pub open spec fn is_image_file(path: Seq<char>) -> bool {
    match path_extension(path) {
        Some(e) => e == "png"@ || e == "jpg"@ || e == "gif"@ || e == "svg"@,
        None => false,
    }
}

/// The map from the file names of the images among `files` to their paths.
/// Of two images with one file name the later one stays.
pub open spec fn image_map(files: Seq<Seq<char>>) -> Map<Seq<char>, Seq<char>>
    decreases files.len(),
{
    if files.len() == 0 {
        Map::empty()
    } else {
        let rest = image_map(files.drop_last());
        if is_image_file(files.last()) {
            rest.insert(file_name(files.last()), files.last())
        } else {
            rest
        }
    }
}

/// The views of a sequence of strings.
pub open spec fn string_views(v: Seq<String>) -> Seq<Seq<char>> {
    v.map_values(|s: String| s@)
}

/// The views of a sequence of pairs of strings.
pub open spec fn pair_views(v: Seq<(String, String)>) -> Seq<(Seq<char>, Seq<char>)> {
    v.map_values(|p: (String, String)| (p.0@, p.1@))
}

/// The map that a list of names and paths stands for, later pairs before
/// earlier ones.
spec fn map_of(entries: Seq<(String, String)>) -> Map<Seq<char>, Seq<char>>
    decreases entries.len(),
{
    if entries.len() == 0 {
        Map::empty()
    } else {
        map_of(entries.drop_last()).insert(entries.last().0@, entries.last().1@)
    }
}

/// A name that stands at `i` and nowhere behind maps to the path at `i`.
proof fn lemma_last_entry(entries: Seq<(String, String)>, name: Seq<char>, i: int)
    requires
        0 <= i < entries.len(),
        entries[i].0@ == name,
        forall|k: int| i < k < entries.len() ==> (#[trigger] entries[k]).0@ != name,
    ensures
        map_of(entries).contains_key(name),
        map_of(entries)[name] == entries[i].1@,
    decreases entries.len(),
{
    if i < entries.len() - 1 {
        let rest = entries.drop_last();
        assert(entries[entries.len() - 1].0@ != name);
        assert forall|k: int| i < k < rest.len() implies (#[trigger] rest[k]).0@ != name by {
            assert(rest[k] == entries[k]);
        }
        lemma_last_entry(rest, name, i);
    }
}

/// A name that stands nowhere is not in the map.
proof fn lemma_no_entry(entries: Seq<(String, String)>, name: Seq<char>)
    requires
        forall|k: int| 0 <= k < entries.len() ==> (#[trigger] entries[k]).0@ != name,
    ensures
        !map_of(entries).contains_key(name),
    decreases entries.len(),
{
    if entries.len() > 0 {
        let rest = entries.drop_last();
        assert(entries[entries.len() - 1].0@ != name);
        assert forall|k: int| 0 <= k < rest.len() implies (#[trigger] rest[k]).0@ != name by {
            assert(rest[k] == entries[k]);
        }
        lemma_no_entry(rest, name);
    }
}

/// A map from the file name of an image to the path of the image.
pub struct ImageMap {
    entries: Vec<(String, String)>,
}

impl ImageMap {
    /// The map from file names to paths.
    pub closed spec fn view(&self) -> Map<Seq<char>, Seq<char>> {
        map_of(self.entries@)
    }

    /// A map that holds no image.
    pub fn new() -> (r: ImageMap)
        ensures
            r@ == Map::<Seq<char>, Seq<char>>::empty(),
    {
        ImageMap { entries: Vec::new() }
    }

    /// Puts the image `name` at `path` into the map, in place of any image
    /// of that name.
    pub fn insert(&mut self, name: String, path: String)
        ensures
            final(self)@ == old(self)@.insert(name@, path@),
    {
        let ghost before = self.entries@;
        self.entries.push((name, path));
        assert(self.entries@.drop_last() =~= before);
    }

    /// The path of the image `name`, if the map holds it.
    pub fn get(&self, name: &str) -> (r: Option<&String>)
        ensures
            match r {
                Some(path) => self@.contains_key(name@) && self@[name@] == path@,
                None => !self@.contains_key(name@),
            },
    {
        let key = name.to_owned();
        let mut i: usize = self.entries.len();
        while i > 0
            invariant
                i <= self.entries.len(),
                key@ == name@,
                forall|k: int| i <= k < self.entries.len() ==> (#[trigger] self.entries@[k]).0@
                    != name@,
            decreases i,
        {
            i -= 1;
            if self.entries[i].0 == key {
                proof {
                    lemma_last_entry(self.entries@, name@, i as int);
                }
                return Some(&self.entries[i].1);
            }
        }
        proof {
            lemma_no_entry(self.entries@, name@);
        }
        None
    }
}

/// Whether the file at `path` is an image.
pub fn is_image_path(path: &Vec<char>) -> (r: bool)
    ensures
        r == is_image_file(path@),
{
    match path_extension_of(path) {
        Some(e) => {
            let png = to_chars("png");
            let jpg = to_chars("jpg");
            let gif = to_chars("gif");
            let svg = to_chars("svg");
            chars_eq(&e, &png) || chars_eq(&e, &jpg) || chars_eq(&e, &gif) || chars_eq(&e, &svg)
        },
        None => false,
    }
}

/// The images among `files`, by file name. The files are taken in their
/// order, so of two images with one file name the later one stays.
pub fn create_image_map(files: &[String]) -> (map: ImageMap)
    ensures
        map@ == image_map(string_views(files@)),
{
    let ghost views = string_views(files@);
    let mut map = ImageMap::new();
    let mut i: usize = 0;
    assert(views.take(0) =~= Seq::<Seq<char>>::empty());
    while i < files.len()
        invariant
            i <= files.len(),
            views == string_views(files@),
            map@ == image_map(views.take(i as int)),
        decreases files.len() - i,
    {
        proof {
            assert(views.take(i + 1).drop_last() =~= views.take(i as int));
            assert(views.take(i + 1).last() == files@[i as int]@);
        }
        let path = to_chars(files[i].as_str());
        if is_image_path(&path) {
            let name = file_name_of(&path);
            map.insert(from_chars(&name), files[i].clone());
        }
        i += 1;
    }
    assert(views.take(views.len() as int) =~= views);
    map
}

/// The names of the images embedded in `s` from index `i` on: what stands
/// between `![[` and the nearest `]]` on the same line, from left to right.
pub open spec fn embeds_from(s: Seq<char>, i: int) -> Seq<Seq<char>>
    decreases s.len() - i,
{
    if i < 0 || i >= s.len() {
        Seq::empty()
    } else {
        match span_at(s, embed_mark(), close_mark(), i) {
            Some((a, b)) => {
                proof {
                    lemma_span_bounds(s, embed_mark(), close_mark(), i);
                }
                seq![s.subrange(a, b)] + embeds_from(s, b + 2)
            },
            None => embeds_from(s, i + 1),
        }
    }
}

/// The copies to make for the embedded images `names`: each name that the
/// map holds, in order, as the path of its image and the path below
/// `destination` that it is copied to. A name that the map does not hold is
/// passed over.
pub open spec fn copies_for(
    names: Seq<Seq<char>>,
    images: Map<Seq<char>, Seq<char>>,
    destination: Seq<char>,
) -> Seq<(Seq<char>, Seq<char>)>
    decreases names.len(),
{
    if names.len() == 0 {
        Seq::empty()
    } else {
        let rest = copies_for(names.drop_last(), images, destination);
        let name = names.last();
        if images.contains_key(name) {
            rest.push((images[name], join(destination, name)))
        } else {
            rest
        }
    }
}

/// The names of the images that a text embeds.
pub fn embedded_images(contents: &str) -> (names: Vec<String>)
    ensures
        string_views(names@) == embeds_from(contents@, 0),
{
    let marks = Marks::new();
    let s = to_chars(contents);
    let mut names: Vec<String> = Vec::new();
    let mut i: usize = 0;
    assert(string_views(names@) =~= Seq::<Seq<char>>::empty());
    while i < s.len()
        invariant
            marks.wf(),
            i <= s.len(),
            s@ == contents@,
            string_views(names@) + embeds_from(s@, i as int) == embeds_from(s@, 0),
        decreases s.len() - i,
    {
        match marks.embed_from(&s, i) {
            Some((a, b)) => {
                let ghost before = string_views(names@);
                let name = from_chars(&subvec(&s, a, b));
                names.push(name);
                assert(string_views(names@) =~= before.push(name@));
                assert(string_views(names@) + embeds_from(s@, b + 2) =~= before + (seq![name@]
                    + embeds_from(s@, b + 2)));
                i = b + 2;
            },
            None => {
                i += 1;
            },
        }
    }
    assert(string_views(names@) + Seq::<Seq<char>>::empty() =~= string_views(names@));
    names
}

/// The copies to make for a page: for each image that the page embeds and
/// the map holds, the path of the image and the path below `destination` to
/// copy it to. An embedded image that the map does not hold is passed over.
pub fn copy_images_from_page(page: &Page, image_map: &ImageMap, destination: &str) -> (copies: Vec<
    (String, String),
>)
    ensures
        pair_views(copies@) == copies_for(
            embeds_from(page.contents@, 0),
            image_map@,
            destination@,
        ),
{
    let names = embedded_images(page.contents.as_str());
    let ghost all = string_views(names@);
    let base = to_chars(destination);
    let mut copies: Vec<(String, String)> = Vec::new();
    let mut i: usize = 0;
    assert(all.take(0) =~= Seq::<Seq<char>>::empty());
    assert(pair_views(copies@) =~= Seq::<(Seq<char>, Seq<char>)>::empty());
    while i < names.len()
        invariant
            i <= names.len(),
            all == string_views(names@),
            base@ == destination@,
            pair_views(copies@) == copies_for(all.take(i as int), image_map@, destination@),
        decreases names.len() - i,
    {
        proof {
            assert(all.take(i + 1).drop_last() =~= all.take(i as int));
            assert(all.take(i + 1).last() == names@[i as int]@);
        }
        match image_map.get(names[i].as_str()) {
            Some(path) => {
                let ghost before = pair_views(copies@);
                let target = join_paths(&base, &to_chars(names[i].as_str()));
                let copy = (path.clone(), from_chars(&target));
                copies.push(copy);
                assert(pair_views(copies@) =~= before.push((path@, target@)));
            },
            None => {},
        }
        i += 1;
    }
    assert(all.take(all.len() as int) =~= all);
    copies
}

} // verus!
