//! The backlink index: for each title, the pages that refer to it and how
//! often each of them does.
use vstd::prelude::*;

verus! {

/// The referrers of one title as a mathematical value: the titles of the
/// referring pages, each with the number of its references, in the order in
/// which they were first seen.
pub open spec fn referrer_views(v: Seq<(String, usize)>) -> Seq<(Seq<char>, nat)> {
    v.map_values(|e: (String, usize)| (e.0@, e.1 as nat))
}

/// `source` stands at index `j` of `refs` and nowhere before.
pub open spec fn is_first_referrer(refs: Seq<(Seq<char>, nat)>, source: Seq<char>, j: int) -> bool {
    &&& 0 <= j < refs.len()
    &&& refs[j].0 == source
    &&& forall|k: int| 0 <= k < j ==> (#[trigger] refs[k]).0 != source
}

/// `refs` after one more reference from `source`: its count goes up by one,
/// or it is added at the end with the count 1.
pub open spec fn noted(refs: Seq<(Seq<char>, nat)>, source: Seq<char>) -> Seq<(Seq<char>, nat)> {
    if exists|j: int| is_first_referrer(refs, source, j) {
        let j = choose|j: int| is_first_referrer(refs, source, j);
        refs.update(j, (source, refs[j].1 + 1))
    } else {
        refs.push((source, 1))
    }
}

/// The referrers of `target` in `m`; none where `m` does not hold it.
pub open spec fn referrers_of(
    m: Map<Seq<char>, Seq<(Seq<char>, nat)>>,
    target: Seq<char>,
) -> Seq<(Seq<char>, nat)> {
    if m.contains_key(target) {
        m[target]
    } else {
        Seq::empty()
    }
}

/// `m` after one more reference from `source` to `target`.
pub open spec fn recorded(
    m: Map<Seq<char>, Seq<(Seq<char>, nat)>>,
    source: Seq<char>,
    target: Seq<char>,
) -> Map<Seq<char>, Seq<(Seq<char>, nat)>> {
    m.insert(target, noted(referrers_of(m, target), source))
}

/// The first referrer is unique, so `noted` raises its count.
pub proof fn lemma_noted_found(refs: Seq<(Seq<char>, nat)>, source: Seq<char>, j: int)
    requires
        is_first_referrer(refs, source, j),
    ensures
        noted(refs, source) == refs.update(j, (source, refs[j].1 + 1)),
{
    let k = choose|k: int| is_first_referrer(refs, source, k);
    assert(is_first_referrer(refs, source, k));
    if k < j {
        assert(refs[k].0 != source);
    }
    if j < k {
        assert(refs[j].0 != source);
    }
}

/// The pages that refer to one title.
struct Backlinks {
    target: String,
    referrers: Vec<(String, usize)>,
}

/// A map from the title of a page to the pages that refer to it, each with
/// the number of its references.
pub struct BacklinkIndex {
    entries: Vec<Backlinks>,
}

/// Whether some entry of `entries` is for `target`.
spec fn holds(entries: Seq<Backlinks>, target: Seq<char>) -> bool {
    exists|i: int| 0 <= i < entries.len() && (#[trigger] entries[i]).target@ == target
}

/// The index of an entry for `target`.
spec fn slot(entries: Seq<Backlinks>, target: Seq<char>) -> int {
    choose|i: int| 0 <= i < entries.len() && (#[trigger] entries[i]).target@ == target
}

/// No two entries are for the same title.
spec fn distinct(entries: Seq<Backlinks>) -> bool {
    forall|i: int, j: int|
        0 <= i < j < entries.len() ==> (#[trigger] entries[i]).target@ != (
        #[trigger] entries[j]).target@
}

/// The map that `entries` stand for.
spec fn map_of(entries: Seq<Backlinks>) -> Map<Seq<char>, Seq<(Seq<char>, nat)>> {
    Map::new(
        |t: Seq<char>| holds(entries, t),
        |t: Seq<char>| referrer_views(entries[slot(entries, t)].referrers@),
    )
}

/// With distinct titles, the entry for a title is the one at its slot.
proof fn lemma_slot(entries: Seq<Backlinks>, i: int)
    requires
        distinct(entries),
        0 <= i < entries.len(),
    ensures
        holds(entries, entries[i].target@),
        slot(entries, entries[i].target@) == i,
{
    let t = entries[i].target@;
    let k = slot(entries, t);
    assert(0 <= k < entries.len() && entries[k].target@ == t);
    if k < i {
        assert(entries[k].target@ != entries[i].target@);
    }
    if i < k {
        assert(entries[i].target@ != entries[k].target@);
    }
}

/// Where `source` first stands among `refs`.
fn referrer_position(refs: &Vec<(String, usize)>, source: &String) -> (r: Option<usize>)
    ensures
        match r {
            Some(j) => j < refs.len() && is_first_referrer(
                referrer_views(refs@),
                source@,
                j as int,
            ),
            None => forall|k: int| !is_first_referrer(referrer_views(refs@), source@, k),
        },
{
    let ghost views = referrer_views(refs@);
    let mut j: usize = 0;
    while j < refs.len()
        invariant
            j <= refs.len(),
            views == referrer_views(refs@),
            forall|k: int| 0 <= k < j ==> (#[trigger] views[k]).0 != source@,
        decreases refs.len() - j,
    {
        assert(views[j as int].0 == refs@[j as int].0@);
        if refs[j].0 == *source {
            return Some(j);
        }
        j += 1;
    }
    assert forall|k: int| !is_first_referrer(views, source@, k) by {
        if 0 <= k < views.len() {
            assert(views[k].0 != source@);
        }
    }
    None
}

impl BacklinkIndex {
    /// No title has two entries.
    pub closed spec fn wf(&self) -> bool {
        distinct(self.entries@)
    }

    /// The index as a map from titles to referrers.
    pub closed spec fn view(&self) -> Map<Seq<char>, Seq<(Seq<char>, nat)>> {
        map_of(self.entries@)
    }

    /// An index that holds no title.
    pub fn new() -> (r: BacklinkIndex)
        ensures
            r.wf(),
            r@ == Map::<Seq<char>, Seq<(Seq<char>, nat)>>::empty(),
    {
        let r = BacklinkIndex { entries: Vec::new() };
        assert(r@ =~= Map::<Seq<char>, Seq<(Seq<char>, nat)>>::empty());
        r
    }

    /// Where the entry for `title` stands.
    fn position(&self, title: &String) -> (r: Option<usize>)
        ensures
            match r {
                Some(i) => i < self.entries.len() && self.entries@[i as int].target@ == title@,
                None => !holds(self.entries@, title@),
            },
    {
        let mut i: usize = 0;
        while i < self.entries.len()
            invariant
                i <= self.entries.len(),
                forall|k: int| 0 <= k < i ==> (#[trigger] self.entries@[k]).target@ != title@,
            decreases self.entries.len() - i,
        {
            if self.entries[i].target == *title {
                return Some(i);
            }
            i += 1;
        }
        None
    }

    /// The pages that refer to `title`, if any does.
    pub fn get(&self, title: &str) -> (r: Option<&Vec<(String, usize)>>)
        requires
            self.wf(),
        ensures
            match r {
                Some(v) => self@.contains_key(title@) && self@[title@] == referrer_views(v@),
                None => !self@.contains_key(title@),
            },
    {
        let key = title.to_owned();
        match self.position(&key) {
            Some(i) => {
                proof {
                    lemma_slot(self.entries@, i as int);
                }
                Some(&self.entries[i].referrers)
            },
            None => None,
        }
    }

    /// The titles that the index holds, each once.
    pub fn targets(&self) -> (r: Vec<String>)
        requires
            self.wf(),
        ensures
            r@.len() == self@.dom().len(),
            forall|i: int| 0 <= i < r@.len() ==> self@.contains_key(#[trigger] r@[i]@),
            forall|t: Seq<char>|
                self@.contains_key(t) ==> exists|i: int| 0 <= i < r@.len() && (#[trigger] r@[i])@ == t,
    {
        let mut out: Vec<String> = Vec::new();
        let mut i: usize = 0;
        while i < self.entries.len()
            invariant
                i <= self.entries.len(),
                out@.len() == i,
                forall|k: int| 0 <= k < i ==> (#[trigger] out@[k])@ == self.entries@[k].target@,
            decreases self.entries.len() - i,
        {
            out.push(self.entries[i].target.clone());
            i += 1;
        }
        proof {
            lemma_dom_len(self.entries@);
            assert forall|k: int| 0 <= k < out@.len() implies self@.contains_key(
                #[trigger] out@[k]@,
            ) by {
                lemma_slot(self.entries@, k);
            }
            assert forall|t: Seq<char>| self@.contains_key(t) implies exists|k: int|
                0 <= k < out@.len() && (#[trigger] out@[k])@ == t by {
                let k = slot(self.entries@, t);
                assert(out@[k]@ == t);
            }
        }
        out
    }

    /// Takes note of one reference from the page `source` to the title
    /// `target`.
    pub fn record(&mut self, source: &str, target: &str)
        requires
            old(self).wf(),
            forall|j: int|
                0 <= j < referrers_of(old(self)@, target@).len() ==> (#[trigger] referrers_of(
                    old(self)@,
                    target@,
                )[j]).1 < usize::MAX,
        ensures
            final(self).wf(),
            final(self)@ == recorded(old(self)@, source@, target@),
    {
        let ghost before = self.entries@;
        let source_key = source.to_owned();
        let target_key = target.to_owned();
        match self.position(&target_key) {
            Some(i) => {
                proof {
                    lemma_slot(before, i as int);
                }
                let ghost refs = referrer_views(before[i as int].referrers@);
                assert(refs == referrers_of(old(self)@, target@));
                match referrer_position(&self.entries[i].referrers, &source_key) {
                    Some(j) => {
                        proof {
                            lemma_noted_found(refs, source@, j as int);
                        }
                        assert(refs[j as int].1 < usize::MAX);
                        let e = &mut self.entries[i].referrers[j];
                        e.1 = e.1 + 1;
                        assert(referrer_views(self.entries@[i as int].referrers@) =~= noted(
                            refs,
                            source@,
                        ));
                    },
                    None => {
                        self.entries[i].referrers.push((source_key, 1));
                        assert(referrer_views(self.entries@[i as int].referrers@) =~= noted(
                            refs,
                            source@,
                        ));
                    },
                }
                proof {
                    let after = self.entries@;
                    assert(after.len() == before.len());
                    assert(forall|k: int|
                        0 <= k < after.len() ==> (#[trigger] after[k]).target@
                            == before[k].target@);
                    assert(forall|k: int|
                        0 <= k < after.len() && k != i ==> (#[trigger] after[k]) == before[k]);
                    lemma_changed_entry(before, after, i as int);
                }
            },
            None => {
                self.entries.push(
                    Backlinks { target: target_key, referrers: vec![(source_key, 1)] },
                );
                proof {
                    let after = self.entries@;
                    let refs = referrer_views(after[before.len() as int].referrers@);
                    assert(refs =~= seq![(source@, 1nat)]);
                    assert(noted(Seq::<(Seq<char>, nat)>::empty(), source@) =~= seq![
                        (source@, 1nat),
                    ]);
                    lemma_new_entry(before, after);
                }
            },
        }
    }
}

/// An index holds as many titles as it has entries.
proof fn lemma_dom_len(entries: Seq<Backlinks>)
    requires
        distinct(entries),
    ensures
        map_of(entries).dom().finite(),
        map_of(entries).dom().len() == entries.len(),
    decreases entries.len(),
{
    if entries.len() == 0 {
        assert(map_of(entries).dom() =~= Set::<Seq<char>>::empty());
    } else {
        let rest = entries.drop_last();
        let last = entries.last();
        assert(distinct(rest)) by {
            assert forall|i: int, j: int| 0 <= i < j < rest.len() implies (#[trigger] rest[i]).target@
                != (#[trigger] rest[j]).target@ by {
                assert(rest[i] == entries[i]);
                assert(rest[j] == entries[j]);
            }
        }
        lemma_dom_len(rest);
        assert(!holds(rest, last.target@)) by {
            if holds(rest, last.target@) {
                let k = slot(rest, last.target@);
                assert(rest[k] == entries[k]);
                assert(entries[k].target@ != entries[entries.len() - 1].target@);
            }
        }
        assert(map_of(entries).dom() =~= map_of(rest).dom().insert(last.target@)) by {
            assert forall|t: Seq<char>| holds(entries, t) <==> (holds(rest, t) || t
                == last.target@) by {
                if holds(entries, t) {
                    let k = slot(entries, t);
                    if k < rest.len() {
                        assert(rest[k] == entries[k]);
                    }
                }
                if holds(rest, t) {
                    let k = slot(rest, t);
                    assert(rest[k] == entries[k]);
                }
                if t == last.target@ {
                    assert(entries[entries.len() - 1].target@ == t);
                }
            }
        }
    }
}

/// Changing the referrers of one entry changes the map at its title only.
proof fn lemma_changed_entry(before: Seq<Backlinks>, after: Seq<Backlinks>, i: int)
    requires
        distinct(before),
        0 <= i < before.len(),
        after.len() == before.len(),
        forall|k: int| 0 <= k < after.len() ==> (#[trigger] after[k]).target@ == before[k].target@,
        forall|k: int| 0 <= k < after.len() && k != i ==> (#[trigger] after[k]) == before[k],
    ensures
        distinct(after),
        map_of(after) == map_of(before).insert(
            before[i].target@,
            referrer_views(after[i].referrers@),
        ),
{
    assert(distinct(after)) by {
        assert forall|a: int, b: int| 0 <= a < b < after.len() implies (#[trigger] after[a]).target@
            != (#[trigger] after[b]).target@ by {
            assert(before[a].target@ != before[b].target@);
        }
    }
    let m = map_of(before).insert(before[i].target@, referrer_views(after[i].referrers@));
    assert forall|t: Seq<char>| map_of(after).contains_key(t) <==> m.contains_key(t) by {
        if holds(after, t) {
            let k = slot(after, t);
            assert(before[k].target@ == t);
        }
        if holds(before, t) {
            let k = slot(before, t);
            assert(after[k].target@ == t);
        }
        if t == before[i].target@ {
            assert(after[i].target@ == t);
        }
    }
    assert forall|t: Seq<char>| map_of(after).contains_key(t) implies map_of(after)[t] == m[t] by {
        let k = slot(after, t);
        lemma_slot(after, k);
        lemma_slot(before, k);
        if k != i {
            assert(after[k] == before[k]);
        }
    }
    assert(map_of(after) =~= m);
}

/// A new entry for a title that the index does not hold adds that title.
proof fn lemma_new_entry(before: Seq<Backlinks>, after: Seq<Backlinks>)
    requires
        distinct(before),
        after.len() == before.len() + 1,
        forall|k: int| 0 <= k < before.len() ==> (#[trigger] after[k]) == before[k],
        !holds(before, after[before.len() as int].target@),
    ensures
        distinct(after),
        map_of(after) == map_of(before).insert(
            after[before.len() as int].target@,
            referrer_views(after[before.len() as int].referrers@),
        ),
{
    let n = before.len() as int;
    assert(distinct(after)) by {
        assert forall|a: int, b: int| 0 <= a < b < after.len() implies (#[trigger] after[a]).target@
            != (#[trigger] after[b]).target@ by {
            if b < n {
                assert(before[a].target@ != before[b].target@);
            } else {
                assert(before[a].target@ == after[a].target@);
                if after[a].target@ == after[b].target@ {
                    assert(holds(before, after[n].target@));
                }
            }
        }
    }
    let m = map_of(before).insert(after[n].target@, referrer_views(after[n].referrers@));
    assert forall|t: Seq<char>| map_of(after).contains_key(t) <==> m.contains_key(t) by {
        if holds(after, t) {
            let k = slot(after, t);
            if k < n {
                assert(before[k].target@ == t);
            }
        }
        if holds(before, t) {
            let k = slot(before, t);
            assert(after[k].target@ == t);
        }
        if t == after[n].target@ {
            assert(after[n].target@ == t);
        }
    }
    assert forall|t: Seq<char>| map_of(after).contains_key(t) implies map_of(after)[t] == m[t] by {
        let k = slot(after, t);
        lemma_slot(after, k);
        if k < n {
            assert(after[k] == before[k]);
            lemma_slot(before, k);
        }
    }
    assert(map_of(after) =~= m);
}

} // verus!
