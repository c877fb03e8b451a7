//! The prefix table of one surface: key sequences and what each is mapped to.

use vstd::prelude::*;
use crate::key::{keys_eq, KeyEvent};

verus! {

/// What a key sequence is mapped to.
#[derive(Debug, PartialEq, Eq)]
pub struct MappingEntry {
    pub sequence: Vec<KeyEvent>,
    /// Do not wait for a longer sequence.
    pub nowait: bool,
}

/// What a [`MappingEntry`] says.
#[verifier::ext_equal]
pub struct EntryView {
    pub sequence: Seq<KeyEvent>,
    pub nowait: bool,
}

impl View for MappingEntry {
    type V = EntryView;

    open spec fn view(&self) -> EntryView {
        EntryView { sequence: self.sequence@, nowait: self.nowait }
    }
}

/// The mapped sequences of a surface.
pub type TrieView = Map<Seq<KeyEvent>, EntryView>;

/// The answer of a prefix lookup.
#[derive(Debug, PartialEq, Eq)]
pub enum TrieLookup<'a> {
    /// No mapped sequence starts so.
    NoMatch,
    /// The sequence is mapped, and there is nothing to wait for.
    ExactOnly(&'a MappingEntry),
    /// A longer sequence starts so.
    Prefix { exact: Option<&'a MappingEntry> },
}

/// What a [`TrieLookup`] says.
pub enum LookupView {
    NoMatch,
    ExactOnly(EntryView),
    Prefix { exact: Option<EntryView> },
}

impl<'a> View for TrieLookup<'a> {
    type V = LookupView;

    open spec fn view(&self) -> LookupView {
        match *self {
            TrieLookup::NoMatch => LookupView::NoMatch,
            TrieLookup::ExactOnly(entry) => LookupView::ExactOnly(entry@),
            TrieLookup::Prefix { exact } => LookupView::Prefix {
                exact: match exact {
                    Some(entry) => Some(entry@),
                    None => None,
                },
            },
        }
    }
}

/// Whether a sequence starts with another and goes on.
pub open spec fn extends(longer: Seq<KeyEvent>, prefix: Seq<KeyEvent>) -> bool {
    prefix.len() < longer.len() && longer.take(prefix.len() as int) == prefix
}

/// Whether any mapped sequence starts with a prefix and goes on.
pub open spec fn has_longer(trie: TrieView, prefix: Seq<KeyEvent>) -> bool {
    exists|k: Seq<KeyEvent>| #[trigger] trie.dom().contains(k) && extends(k, prefix)
}

/// The entry at exactly a sequence.
pub open spec fn exact_at(trie: TrieView, keys: Seq<KeyEvent>) -> Option<EntryView> {
    if trie.dom().contains(keys) {
        Some(trie[keys])
    } else {
        None
    }
}

/// The three-way prefix lookup: what is mapped at a sequence, and whether
/// something longer starts with it. An entry that does not wait hides what is
/// longer.
pub open spec fn lookup_in(trie: TrieView, prefix: Seq<KeyEvent>) -> LookupView {
    match exact_at(trie, prefix) {
        Some(entry) => if entry.nowait || !has_longer(trie, prefix) {
            LookupView::ExactOnly(entry)
        } else {
            LookupView::Prefix { exact: Some(entry) }
        },
        None => if has_longer(trie, prefix) {
            LookupView::Prefix { exact: None }
        } else {
            LookupView::NoMatch
        },
    }
}

/// The table itself.
#[derive(Debug)]
pub struct MappingTrie {
    entries: Vec<(Vec<KeyEvent>, MappingEntry)>,
}

/// Whether a place of the table holds a sequence.
spec fn holds(entries: Seq<(Vec<KeyEvent>, MappingEntry)>, i: int, keys: Seq<KeyEvent>) -> bool {
    0 <= i < entries.len() && entries[i].0@ == keys
}

impl View for MappingTrie {
    type V = TrieView;

    closed spec fn view(&self) -> TrieView {
        Map::new(
            |k: Seq<KeyEvent>| exists|i: int| holds(self.entries@, i, k),
            |k: Seq<KeyEvent>| self.entries@[choose|i: int| holds(self.entries@, i, k)].1@,
        )
    }
}

impl MappingTrie {
    /// No sequence is held twice.
    pub closed spec fn wf(&self) -> bool {
        forall|i: int, j: int|
            0 <= i < j < self.entries@.len() ==> (#[trigger] self.entries@[i]).0@ != (
            #[trigger] self.entries@[j]).0@
    }

    /// A table that maps nothing.
    pub fn new() -> (r: MappingTrie)
        ensures
            r.wf(),
            r@ == Map::<Seq<KeyEvent>, EntryView>::empty(),
    {
        let r = MappingTrie { entries: Vec::new() };
        assert(r@ =~= Map::empty());
        r
    }

    /// What a place of the table says of the map.
    proof fn at_place(&self, i: int)
        requires
            self.wf(),
            0 <= i < self.entries@.len(),
        ensures
            self@.dom().contains(self.entries@[i].0@),
            self@[self.entries@[i].0@] == self.entries@[i].1@,
    {
        let k = self.entries@[i].0@;
        assert(holds(self.entries@, i, k));
        let j = choose|j: int| holds(self.entries@, j, k);
        assert(j == i);
    }

    /// Place of a sequence.
    fn position(&self, keys: &[KeyEvent]) -> (r: Option<usize>)
        requires
            self.wf(),
        ensures
            match r {
                Some(i) => {
                    &&& i < self.entries@.len()
                    &&& self.entries@[i as int].0@ == keys@
                    &&& exact_at(self@, keys@) == Some(self.entries@[i as int].1@)
                },
                None => exact_at(self@, keys@) is None && forall|j: int|
                    0 <= j < self.entries@.len() ==> (#[trigger] self.entries@[j]).0@ != keys@,
            },
    {
        let mut i: usize = 0;
        while i < self.entries.len()
            invariant
                self.wf(),
                i <= self.entries@.len(),
                forall|j: int| 0 <= j < i ==> (#[trigger] self.entries@[j]).0@ != keys@,
            decreases self.entries@.len() - i,
        {
            if keys_eq(self.entries[i].0.as_slice(), keys) {
                proof {
                    self.at_place(i as int);
                }
                return Some(i);
            }
            i = i + 1;
        }
        None
    }

    /// Map a sequence, in place of what it was mapped to.
    pub fn insert(&mut self, keys: Vec<KeyEvent>, entry: MappingEntry)
        requires
            old(self).wf(),
        ensures
            final(self).wf(),
            final(self)@ == old(self)@.insert(keys@, entry@),
    {
        let ghost before = *self;
        let ghost k = keys@;
        let ghost e = entry@;
        match self.position(keys.as_slice()) {
            Some(i) => {
                self.entries.set(i, (keys, entry));
                assert forall|j: int| 0 <= j < self.entries@.len() implies (
                #[trigger] self.entries@[j]).0@ == before.entries@[j].0@ by {}
            },
            None => {
                self.entries.push((keys, entry));
            },
        }
        proof {
            assert(self.wf());
            assert forall|q: Seq<KeyEvent>| #[trigger]
                self@.dom().contains(q) == before@.insert(k, e).dom().contains(q) by {
                if self@.dom().contains(q) {
                    let j = choose|j: int| holds(self.entries@, j, q);
                    if q != k {
                        assert(holds(before.entries@, j, q));
                    }
                }
                if before@.dom().contains(q) {
                    let j = choose|j: int| holds(before.entries@, j, q);
                    assert(holds(self.entries@, j, q));
                }
                if q == k {
                    assert(exists|j: int| holds(self.entries@, j, k)) by {
                        if exists|j: int| holds(before.entries@, j, k) {
                            let j = choose|j: int| holds(before.entries@, j, k);
                            assert(holds(self.entries@, j, k));
                        } else {
                            assert(holds(self.entries@, self.entries@.len() - 1, k));
                        }
                    }
                }
            }
            assert forall|q: Seq<KeyEvent>| #[trigger] self@.dom().contains(q) implies self@[q]
                == before@.insert(k, e)[q] by {
                let j = choose|j: int| holds(self.entries@, j, q);
                self.at_place(j);
                if q != k {
                    assert(holds(before.entries@, j, q));
                    before.at_place(j);
                }
            }
            assert(self@ =~= before@.insert(k, e));
        }
    }

    /// Unmap a sequence, if it is mapped.
    pub fn remove(&mut self, keys: &[KeyEvent])
        requires
            old(self).wf(),
        ensures
            final(self).wf(),
            final(self)@ == old(self)@.remove(keys@),
    {
        let ghost before = *self;
        match self.position(keys) {
            Some(i) => {
                let _ = self.entries.remove(i);
                proof {
                    assert forall|a: int, b: int| 0 <= a < b < self.entries@.len() implies (
                    #[trigger] self.entries@[a]).0@ != (#[trigger] self.entries@[b]).0@ by {
                        let a0 = if a < i {
                            a
                        } else {
                            a + 1
                        };
                        let b0 = if b < i {
                            b
                        } else {
                            b + 1
                        };
                        assert(before.entries@[a0].0@ != before.entries@[b0].0@);
                    }
                    assert forall|q: Seq<KeyEvent>| #[trigger]
                        self@.dom().contains(q) == before@.remove(keys@).dom().contains(q) by {
                        if self@.dom().contains(q) {
                            let j = choose|j: int| holds(self.entries@, j, q);
                            let j0 = if j < i {
                                j
                            } else {
                                j + 1
                            };
                            assert(holds(before.entries@, j0, q));
                            if q == keys@ {
                                if j0 < i {
                                    assert(before.entries@[j0].0@ != before.entries@[i as int].0@);
                                } else {
                                    assert(before.entries@[i as int].0@ != before.entries@[j0].0@);
                                }
                            }
                        }
                        if before@.dom().contains(q) && q != keys@ {
                            let j = choose|j: int| holds(before.entries@, j, q);
                            let j1 = if j < i {
                                j
                            } else {
                                j - 1
                            };
                            assert(holds(self.entries@, j1, q));
                        }
                    }
                    assert forall|q: Seq<KeyEvent>| #[trigger]
                        self@.dom().contains(q) implies self@[q] == before@.remove(keys@)[q] by {
                        let j = choose|j: int| holds(self.entries@, j, q);
                        self.at_place(j);
                        let j0 = if j < i {
                            j
                        } else {
                            j + 1
                        };
                        before.at_place(j0);
                    }
                    assert(self@ =~= before@.remove(keys@));
                }
            },
            None => {
                assert(self@ =~= before@.remove(keys@));
            },
        }
    }

    /// Three-way prefix lookup.
    pub fn lookup(&self, prefix: &[KeyEvent]) -> (r: TrieLookup<'_>)
        requires
            self.wf(),
        ensures
            r@ == lookup_in(self@, prefix@),
    {
        let exact = self.position(prefix);
        let longer = self.has_longer_than(prefix);
        match exact {
            Some(i) => {
                let entry = &self.entries[i].1;
                if entry.nowait || !longer {
                    TrieLookup::ExactOnly(entry)
                } else {
                    TrieLookup::Prefix { exact: Some(entry) }
                }
            },
            None => if longer {
                TrieLookup::Prefix { exact: None }
            } else {
                TrieLookup::NoMatch
            },
        }
    }

    fn has_longer_than(&self, prefix: &[KeyEvent]) -> (r: bool)
        requires
            self.wf(),
        ensures
            r == has_longer(self@, prefix@),
    {
        let mut i: usize = 0;
        while i < self.entries.len()
            invariant
                self.wf(),
                i <= self.entries@.len(),
                forall|j: int| 0 <= j < i ==> !extends((#[trigger] self.entries@[j]).0@, prefix@),
            decreases self.entries@.len() - i,
        {
            if starts_longer(self.entries[i].0.as_slice(), prefix) {
                proof {
                    self.at_place(i as int);
                    assert(self@.dom().contains(self.entries@[i as int].0@));
                }
                return true;
            }
            i = i + 1;
        }
        proof {
            assert forall|k: Seq<KeyEvent>| #[trigger] self@.dom().contains(k) implies !extends(
                k,
                prefix@,
            ) by {
                let j = choose|j: int| holds(self.entries@, j, k);
                assert(!extends(self.entries@[j].0@, prefix@));
            }
        }
        false
    }
}

/// Whether `keys` starts with `prefix` and goes on.
fn starts_longer(keys: &[KeyEvent], prefix: &[KeyEvent]) -> (r: bool)
    ensures
        r == extends(keys@, prefix@),
{
    if keys.len() <= prefix.len() {
        return false;
    }
    let mut i: usize = 0;
    while i < prefix.len()
        invariant
            i <= prefix@.len() < keys@.len(),
            forall|j: int| 0 <= j < i ==> keys@[j] == prefix@[j],
        decreases prefix@.len() - i,
    {
        if keys[i] != prefix[i] {
            assert(keys@.take(prefix@.len() as int)[i as int] != prefix@[i as int]);
            return false;
        }
        i = i + 1;
    }
    assert(keys@.take(prefix@.len() as int) =~= prefix@);
    true
}

} // verus!
