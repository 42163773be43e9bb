//! The outcome of a layout: a rectangle for every leaf name.

use vstd::prelude::*;
use vstd::utf8::encode_utf8_decode_utf8;
use vstd::string::StringSliceAdditionalSpecFns;
use crate::geometry::{Rect, Region};

verus! {

/// Whether two strings hold the same characters.
pub fn same_text(a: &str, b: &str) -> (r: bool)
    ensures
        r == (a@ == b@),
{
    let x = a.as_bytes();
    let y = b.as_bytes();
    proof {
        encode_utf8_decode_utf8(a@);
        encode_utf8_decode_utf8(b@);
    }
    if x.len() != y.len() {
        return false;
    }
    let mut i: usize = 0;
    while i < x.len()
        invariant
            x@ == a.spec_bytes(),
            y@ == b.spec_bytes(),
            x@.len() == y@.len(),
            0 <= i <= x@.len(),
            forall|j: int| 0 <= j < i ==> x@[j] == y@[j],
        decreases x.len() - i,
    {
        if x[i] != y[i] {
            return false;
        }
        i = i + 1;
    }
    assert(x@ =~= y@);
    true
}

/// The mapping that a list of entries stands for: a later entry replaces
/// an earlier one of the same name.
pub open spec fn mapping_of(entries: Seq<(&'static str, Rect)>) -> Map<Seq<char>, Region>
    decreases entries.len(),
{
    if entries.len() == 0 {
        Map::empty()
    } else {
        mapping_of(entries.drop_last()).insert(entries.last().0@, entries.last().1@)
    }
}

/// Whether no two entries have the same name.
pub open spec fn distinct_names(entries: Seq<(&'static str, Rect)>) -> bool {
    forall|i: int, j: int|
        0 <= i < j < entries.len() ==> (#[trigger] entries[i]).0@ != (#[trigger] entries[j]).0@
}

/// A name is mapped exactly if some entry has it.
pub proof fn lemma_mapping_domain(entries: Seq<(&'static str, Rect)>, key: Seq<char>)
    ensures
        mapping_of(entries).dom().contains(key) <==> exists|i: int|
            0 <= i < entries.len() && (#[trigger] entries[i]).0@ == key,
        mapping_of(entries).dom().finite(),
    decreases entries.len(),
{
    if entries.len() > 0 {
        let front = entries.drop_last();
        lemma_mapping_domain(front, key);
        if mapping_of(entries).dom().contains(key) {
            if entries.last().0@ == key {
                assert(entries[entries.len() - 1].0@ == key);
            } else {
                let i = choose|i: int| 0 <= i < front.len() && (#[trigger] front[i]).0@ == key;
                assert(entries[i].0@ == key);
            }
        }
        if exists|i: int| 0 <= i < entries.len() && (#[trigger] entries[i]).0@ == key {
            let i = choose|i: int| 0 <= i < entries.len() && (#[trigger] entries[i]).0@ == key;
            if i < front.len() {
                assert(front[i].0@ == key);
            }
        }
    }
}

/// With distinct names, every entry is mapped to its own rectangle.
pub proof fn lemma_mapping_value(entries: Seq<(&'static str, Rect)>, i: int)
    requires
        distinct_names(entries),
        0 <= i < entries.len(),
    ensures
        mapping_of(entries).dom().contains(entries[i].0@),
        mapping_of(entries)[entries[i].0@] == entries[i].1@,
    decreases entries.len(),
{
    if i < entries.len() - 1 {
        let front = entries.drop_last();
        assert(distinct_names(front)) by {
            assert forall|a: int, b: int| 0 <= a < b < front.len() implies (#[trigger] front[a]).0@
                != (#[trigger] front[b]).0@ by {
                assert(entries[a].0@ != entries[b].0@);
            }
        }
        lemma_mapping_value(front, i);
        assert(entries[i].0@ != entries[entries.len() - 1].0@);
    }
}

/// With distinct names, replacing the rectangle of an entry replaces it
/// in the mapping.
pub proof fn lemma_mapping_update(entries: Seq<(&'static str, Rect)>, i: int, rect: Rect)
    requires
        distinct_names(entries),
        0 <= i < entries.len(),
    ensures
        mapping_of(entries.update(i, (entries[i].0, rect))) == mapping_of(entries).insert(
            entries[i].0@,
            rect@,
        ),
    decreases entries.len(),
{
    let changed = entries.update(i, (entries[i].0, rect));
    let front = entries.drop_last();
    let last = entries.len() - 1;
    if i == last {
        assert(changed.drop_last() =~= front);
        assert(mapping_of(changed) =~= mapping_of(entries).insert(entries[i].0@, rect@));
    } else {
        assert(distinct_names(front)) by {
            assert forall|a: int, b: int| 0 <= a < b < front.len() implies (#[trigger] front[a]).0@
                != (#[trigger] front[b]).0@ by {
                assert(entries[a].0@ != entries[b].0@);
            }
        }
        lemma_mapping_update(front, i, rect);
        assert(changed.drop_last() =~= front.update(i, (front[i].0, rect)));
        assert(entries[i].0@ != entries[last].0@);
        assert(mapping_of(changed) =~= mapping_of(entries).insert(entries[i].0@, rect@));
    }
}

/// With distinct names, the mapping has as many names as there are
/// entries.
pub proof fn lemma_mapping_len(entries: Seq<(&'static str, Rect)>)
    requires
        distinct_names(entries),
    ensures
        mapping_of(entries).dom().finite(),
        mapping_of(entries).dom().len() == entries.len(),
    decreases entries.len(),
{
    if entries.len() > 0 {
        let front = entries.drop_last();
        let last = entries.len() - 1;
        assert(distinct_names(front)) by {
            assert forall|a: int, b: int| 0 <= a < b < front.len() implies (#[trigger] front[a]).0@
                != (#[trigger] front[b]).0@ by {
                assert(entries[a].0@ != entries[b].0@);
            }
        }
        lemma_mapping_len(front);
        lemma_mapping_domain(front, entries[last].0@);
        if mapping_of(front).dom().contains(entries[last].0@) {
            let i = choose|i: int|
                0 <= i < front.len() && (#[trigger] front[i]).0@ == entries[last].0@;
            assert(entries[i].0@ != entries[last].0@);
        }
    }
}

/// A rectangle for every leaf name of a layout.
pub struct LayoutResult {
    entries: Vec<(&'static str, Rect)>,
}

impl View for LayoutResult {
    type V = Map<Seq<char>, Region>;

    closed spec fn view(&self) -> Map<Seq<char>, Region> {
        mapping_of(self.entries@)
    }
}

impl LayoutResult {
    #[verifier::type_invariant]
    spec fn distinct(self) -> bool {
        distinct_names(self.entries@)
    }

    /// The mapping without any name.
    pub fn new() -> (r: LayoutResult)
        ensures
            r@ == Map::<Seq<char>, Region>::empty(),
    {
        LayoutResult { entries: Vec::new() }
    }

    /// Where `name` stands among the entries, if it does.
    fn position(&self, name: &str) -> (r: Option<usize>)
        ensures
            match r {
                Some(i) => i < self.entries@.len() && self.entries@[i as int].0@ == name@,
                None => forall|j: int|
                    0 <= j < self.entries@.len() ==> (#[trigger] self.entries@[j]).0@ != name@,
            },
    {
        let mut i: usize = 0;
        while i < self.entries.len()
            invariant
                0 <= i <= self.entries@.len(),
                forall|j: int| 0 <= j < i ==> (#[trigger] self.entries@[j]).0@ != name@,
            decreases self.entries.len() - i,
        {
            if same_text(self.entries[i].0, name) {
                return Some(i);
            }
            i = i + 1;
        }
        None
    }

    /// Maps `name` to `rect`, in place of what it was mapped to before.
    pub fn insert(&mut self, name: &'static str, rect: Rect)
        ensures
            final(self)@ == old(self)@.insert(name@, rect@),
    {
        proof {
            use_type_invariant(&*self);
        }
        let found = self.position(name);
        let mut taken = LayoutResult::new();
        std::mem::swap(self, &mut taken);
        let LayoutResult { entries } = taken;
        let mut entries = entries;
        match found {
            Some(i) => {
                proof {
                    lemma_mapping_update(entries@, i as int, rect);
                }
                let kept = entries[i].0;
                entries[i] = (kept, rect);
                assert(distinct_names(entries@)) by {
                    let before = old(self).entries@;
                    assert forall|a: int, b: int| 0 <= a < b < entries@.len() implies (
                    #[trigger] entries@[a]).0@ != (#[trigger] entries@[b]).0@ by {
                        assert(before[a].0@ != before[b].0@);
                    }
                }
            },
            None => {
                assert(entries@.push((name, rect)).drop_last() =~= entries@);
                entries.push((name, rect));
                assert(distinct_names(entries@)) by {
                    let before = old(self).entries@;
                    assert forall|a: int, b: int| 0 <= a < b < entries@.len() implies (
                    #[trigger] entries@[a]).0@ != (#[trigger] entries@[b]).0@ by {
                        if b < before.len() {
                            assert(before[a].0@ != before[b].0@);
                        } else {
                            assert(before[a].0@ != name@);
                        }
                    }
                }
            },
        }
        *self = LayoutResult { entries };
    }

    /// The rectangle of `name`, if the layout has a leaf of that name.
    pub fn get(&self, name: &str) -> (r: Option<Rect>)
        ensures
            match r {
                Some(rect) => self@.dom().contains(name@) && self@[name@] == rect@,
                None => !self@.dom().contains(name@),
            },
    {
        proof {
            use_type_invariant(self);
            lemma_mapping_domain(self.entries@, name@);
        }
        match self.position(name) {
            Some(i) => {
                proof {
                    lemma_mapping_value(self.entries@, i as int);
                }
                Some(self.entries[i].1)
            },
            None => None,
        }
    }

    /// Whether the layout has a leaf of that name.
    pub fn contains(&self, name: &str) -> (r: bool)
        ensures
            r == self@.dom().contains(name@),
    {
        self.get(name).is_some()
    }

    /// The number of names.
    pub fn len(&self) -> (r: usize)
        ensures
            self@.dom().finite(),
            r == self@.dom().len(),
    {
        proof {
            use_type_invariant(self);
            lemma_mapping_len(self.entries@);
        }
        self.entries.len()
    }

    /// Whether there is no name at all.
    pub fn is_empty(&self) -> (r: bool)
        ensures
            r == (self@ == Map::<Seq<char>, Region>::empty()),
    {
        proof {
            use_type_invariant(self);
            lemma_mapping_len(self.entries@);
            if self.entries@.len() == 0 {
                assert(self@ =~= Map::<Seq<char>, Region>::empty());
            }
        }
        self.entries.len() == 0
    }
}

} // verus!
