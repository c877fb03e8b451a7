//! The binding plane: which key, on which surface, means which verb.
//!
//! Each surface owns a prefix table whose payload is an opaque slot; the rules
//! live beside it, in an arena that only grows. There is exactly one rule per
//! surface and left-hand side, and the last writer wins.

use vstd::prelude::*;
use vstd::string::*;
use compact_str::CompactString;
use crate::action;
use crate::bind_laws;
use crate::action::{ActionId, ActionRegistry, ActionSpec, Params, RuleTarget, TargetView};
use crate::caps::Caps;
use crate::key::{copy_keys, keys_contain, keys_eq, Key, KeyEvent, KeyNames, Modifiers};
use crate::providers;
use crate::search;
use crate::surface;
use crate::surface::{Forest, Seal, SurfaceId, SurfaceSpec};
use crate::text;
use crate::text::{as_text, compact_from, push_decimal, push_signed, str_eq, str_starts_with};
use crate::trie;
use crate::trie::{EntryView, LookupView, MappingEntry, MappingTrie, TrieLookup, TrieView};

verus! {

// ── Rules ─────────────────────────────────────────────────────────────

/// When a matched rule consumes the keystroke.
#[derive(Debug, Clone, Copy, PartialEq, Eq, Structural)]
pub enum Consumption {
    /// Consume iff the action accepted.
    Elastic,
    /// Consume regardless of outcome, and terminate the walk.
    Void,
}

/// Whether a rule fires on the repeats of a held key.
#[derive(Debug, Clone, Copy, PartialEq, Eq, Structural)]
pub enum Repeat {
    Allow,
    Suppress,
}

/// An opaque handle into the rule arena, and the prefix table's whole payload.
#[derive(Debug, Clone, Copy, PartialEq, Eq, Structural)]
pub struct SlotId(pub u32);

/// Who installed a rule.
#[derive(Debug, Clone, PartialEq, Eq)]
pub enum MappingOwner {
    User,
    /// A provider, by its tag.
    Host(CompactString),
}

/// What a [`MappingOwner`] says.
pub enum OwnerView {
    User,
    Host(Seq<char>),
}

impl View for MappingOwner {
    type V = OwnerView;

    open spec fn view(&self) -> OwnerView {
        match *self {
            MappingOwner::User => OwnerView::User,
            MappingOwner::Host(tag) => OwnerView::Host(text::compact_text(tag)),
        }
    }
}

impl MappingOwner {
    /// The same owner.
    pub fn copy(&self) -> (r: MappingOwner)
        ensures
            r@ == self@,
    {
        match self {
            MappingOwner::User => MappingOwner::User,
            MappingOwner::Host(tag) => MappingOwner::Host(tag.clone()),
        }
    }
}

/// One binding.
#[derive(Debug, Clone, PartialEq, Eq)]
pub struct Rule {
    pub surface: SurfaceId,
    /// Canonical, non-empty, and within the longest length.
    pub lhs: Vec<KeyEvent>,
    pub target: RuleTarget,
    pub params: Params,
    pub consume: Consumption,
    pub repeat: Repeat,
    /// Opt-in to the positional guess.
    pub physical: bool,
    /// Also match this left-hand side with Shift held.
    pub shift_tolerant: bool,
    /// Do not wait for a longer sequence.
    pub nowait: bool,
    /// Who installed this rule.
    pub owner: MappingOwner,
    pub desc: CompactString,
}

/// What a [`Rule`] says.
#[verifier::ext_equal]
pub struct RuleView {
    pub surface: Seq<char>,
    pub lhs: Seq<KeyEvent>,
    pub target: TargetView,
    pub params: Seq<(Seq<char>, i64)>,
    pub consume: Consumption,
    pub repeat: Repeat,
    pub physical: bool,
    pub shift_tolerant: bool,
    pub nowait: bool,
    pub owner: OwnerView,
    pub desc: Seq<char>,
}

impl View for Rule {
    type V = RuleView;

    open spec fn view(&self) -> RuleView {
        RuleView {
            surface: self.surface@,
            lhs: self.lhs@,
            target: self.target@,
            params: self.params@,
            consume: self.consume,
            repeat: self.repeat,
            physical: self.physical,
            shift_tolerant: self.shift_tolerant,
            nowait: self.nowait,
            owner: self.owner@,
            desc: text::compact_text(self.desc),
        }
    }
}

/// The Shift-held twin of a left-hand side.
///
/// Only a single named key without Ctrl, Alt, Meta and Shift has one: a
/// character is its own shifted spelling.
pub open spec fn shift_twin(lhs: Seq<KeyEvent>) -> Option<Seq<KeyEvent>> {
    if lhs.len() == 1 && !(lhs[0].key is Char) && !lhs[0].modifiers.spec_command()
        && !lhs[0].modifiers.shift {
        Some(
            seq![
                KeyEvent::spec_new(
                    lhs[0].key,
                    Modifiers { shift: true, ..lhs[0].modifiers },
                ),
            ],
        )
    } else {
        None
    }
}

/// The Shift-held twin of a single-key left-hand side, when there is one.
pub fn shift_variant(lhs: &[KeyEvent]) -> (r: Option<Vec<KeyEvent>>)
    ensures
        match (r, shift_twin(lhs@)) {
            (Some(keys), Some(want)) => keys@ == want,
            (None, None) => true,
            _ => false,
        },
{
    if lhs.len() != 1 {
        return None;
    }
    let key: KeyEvent = lhs[0];
    if matches!(key.key, Key::Char(_)) {
        return None;
    }
    if key.modifiers.is_command() {
        return None;
    }
    if key.modifiers.shift {
        return None;
    }
    let twin = KeyEvent::new(key.key, key.modifiers.union(Modifiers::shift()));
    let mut out: Vec<KeyEvent> = Vec::new();
    out.push(twin);
    assert(out@ =~= shift_twin(lhs@)->0);
    Some(out)
}

// ── The model of the index ────────────────────────────────────────────

/// What one surface's bindings hold.
#[verifier::ext_equal]
pub struct SurfaceView {
    pub id: Seq<char>,
    pub trie: TrieView,
    /// Left-hand side and slot of every live rule, in the order they came.
    pub slot_of: Seq<(Seq<KeyEvent>, u32)>,
}

/// What the index holds.
#[verifier::ext_equal]
pub struct IndexView {
    pub surfaces: Seq<SurfaceView>,
    /// Every rule ever installed.
    pub arena: Seq<RuleView>,
    /// The arena place of each slot's live rule.
    pub slots: Seq<Option<u32>>,
    pub forest: Seq<SurfaceSpec>,
    /// How often the table was rebuilt, as its owner counts.
    pub generation: u64,
}

/// The payload for a slot.
pub open spec fn entry_for(slot: u32, nowait: bool) -> EntryView {
    EntryView { sequence: seq![KeyEvent::spec_action(slot)], nowait }
}

/// The slot a payload carries, if it is one of ours.
pub open spec fn slot_carried(entry: EntryView) -> Option<u32> {
    if entry.sequence.len() == 1 {
        match entry.sequence[0].key {
            Key::Action(id) => Some(id),
            _ => None,
        }
    } else {
        None
    }
}

/// Being the entry of a left-hand side.
pub open spec fn of_lhs(lhs: Seq<KeyEvent>) -> spec_fn((Seq<KeyEvent>, u32)) -> bool {
    |e: (Seq<KeyEvent>, u32)| e.0 == lhs
}

/// Being the bindings of a surface.
pub open spec fn of_surface(id: Seq<char>) -> spec_fn(SurfaceView) -> bool {
    |s: SurfaceView| s.id == id
}

/// Place of a left-hand side among the live ones of a surface.
pub open spec fn lhs_place(slot_of: Seq<(Seq<KeyEvent>, u32)>, lhs: Seq<KeyEvent>) -> Option<int> {
    search::first_where(slot_of, of_lhs(lhs))
}

/// The rules that a list of slots keeps alive, in slot order.
pub open spec fn live_rules(slots: Seq<Option<u32>>, arena: Seq<RuleView>) -> Seq<RuleView>
    decreases slots.len(),
{
    if slots.len() == 0 {
        Seq::empty()
    } else {
        let init = live_rules(slots.drop_last(), arena);
        match slots.last() {
            Some(i) => if i < arena.len() {
                init.push(arena[i as int])
            } else {
                init
            },
            None => init,
        }
    }
}

impl IndexView {
    /// Place of a surface's bindings.
    pub open spec fn place(self, id: Seq<char>) -> Option<int> {
        search::first_where(self.surfaces, of_surface(id))
    }

    /// A surface's bindings.
    pub open spec fn bindings(self, id: Seq<char>) -> Option<SurfaceView> {
        match self.place(id) {
            Some(i) => Some(self.surfaces[i]),
            None => None,
        }
    }

    /// The index with a place for a surface's bindings.
    pub open spec fn with_surface(self, id: Seq<char>) -> IndexView {
        match self.place(id) {
            Some(_) => self,
            None => IndexView {
                surfaces: self.surfaces.push(
                    SurfaceView { id, trie: Map::empty(), slot_of: Seq::empty() },
                ),
                ..self
            },
        }
    }

    /// Where a surface's bindings are once they have a place.
    pub open spec fn at(self, id: Seq<char>) -> int {
        match self.place(id) {
            Some(i) => i,
            None => self.surfaces.len() as int,
        }
    }

    /// The index with one surface's bindings replaced.
    pub open spec fn with_bindings(self, i: int, bindings: SurfaceView) -> IndexView {
        IndexView { surfaces: self.surfaces.update(i, bindings), ..self }
    }

    /// The slot for a left-hand side: its own, or a new one.
    pub open spec fn slot_for(self, id: Seq<char>, lhs: Seq<KeyEvent>) -> u32 {
        let b = self.with_surface(id).surfaces[self.at(id)];
        match lhs_place(b.slot_of, lhs) {
            Some(i) => b.slot_of[i].1,
            None => self.slots.len() as u32,
        }
    }

    /// The index once a left-hand side has a slot.
    pub open spec fn with_slot(self, id: Seq<char>, lhs: Seq<KeyEvent>) -> IndexView {
        let v = self.with_surface(id);
        let i = self.at(id);
        let b = v.surfaces[i];
        match lhs_place(b.slot_of, lhs) {
            Some(_) => v,
            None => IndexView {
                slots: v.slots.push(None),
                ..v.with_bindings(
                    i,
                    SurfaceView {
                        slot_of: b.slot_of.push((lhs, self.slots.len() as u32)),
                        ..b
                    },
                )
            },
        }
    }

    /// The index with one more key sequence mapped.
    pub open spec fn with_entry(
        self,
        id: Seq<char>,
        keys: Seq<KeyEvent>,
        entry: EntryView,
    ) -> IndexView {
        let v = self.with_surface(id);
        let i = self.at(id);
        let b = v.surfaces[i];
        v.with_bindings(i, SurfaceView { trie: b.trie.insert(keys, entry), ..b })
    }

    /// The index with a rule installed: one rule and one slot, and a second
    /// left-hand side where the rule tolerates Shift.
    pub open spec fn upserted(self, rule: RuleView) -> IndexView {
        let slot = self.slot_for(rule.surface, rule.lhs);
        let entry = entry_for(slot, rule.nowait);
        let v = self.with_slot(rule.surface, rule.lhs);
        let live = IndexView {
            slots: if slot < v.slots.len() {
                v.slots.update(slot as int, Some(self.arena.len() as u32))
            } else {
                v.slots
            },
            ..v
        };
        let mapped = live.with_entry(rule.surface, rule.lhs, entry);
        let twinned = match shift_twin(rule.lhs) {
            Some(twin) => if rule.shift_tolerant {
                mapped.with_entry(rule.surface, twin, entry)
            } else {
                mapped
            },
            None => mapped,
        };
        IndexView { arena: twinned.arena.push(rule), ..twinned }
    }

    /// The live rule a slot names.
    pub open spec fn rule_at(self, slot: u32) -> Option<RuleView> {
        if slot < self.slots.len() {
            match self.slots[slot as int] {
                Some(i) => if i < self.arena.len() {
                    Some(self.arena[i as int])
                } else {
                    None
                },
                None => None,
            }
        } else {
            None
        }
    }

    /// Whether there is a rule at a surface and left-hand side.
    pub open spec fn has(self, id: Seq<char>, lhs: Seq<KeyEvent>) -> bool {
        self.bindings(id) matches Some(b) && lhs_place(b.slot_of, lhs) is Some
    }

    /// The index without the rule at a surface and left-hand side, and without
    /// the twin that the rule came with.
    pub open spec fn removed(self, id: Seq<char>, lhs: Seq<KeyEvent>) -> IndexView {
        match self.place(id) {
            None => self,
            Some(i) => {
                let b = self.surfaces[i];
                match lhs_place(b.slot_of, lhs) {
                    None => self,
                    Some(at) => {
                        let slot = b.slot_of[at].1;
                        let tolerant = self.rule_at(slot) matches Some(rule) && rule.shift_tolerant;
                        let trie = b.trie.remove(lhs);
                        let bare = match shift_twin(lhs) {
                            Some(twin) => if tolerant {
                                trie.remove(twin)
                            } else {
                                trie
                            },
                            None => trie,
                        };
                        let v = self.with_bindings(
                            i,
                            SurfaceView { trie: bare, slot_of: b.slot_of.remove(at), ..b },
                        );
                        IndexView {
                            slots: if slot < v.slots.len() {
                                v.slots.update(slot as int, None)
                            } else {
                                v.slots
                            },
                            ..v
                        }
                    },
                }
            },
        }
    }

    /// The prefix lookup on one surface.
    pub open spec fn lookup(self, id: Seq<char>, prefix: Seq<KeyEvent>) -> LookupView {
        match self.bindings(id) {
            Some(b) => trie::lookup_in(b.trie, prefix),
            None => LookupView::NoMatch,
        }
    }

    /// The live rule that a lookup answer names.
    pub open spec fn rule_of(self, entry: EntryView) -> Option<RuleView> {
        match slot_carried(entry) {
            Some(slot) => self.rule_at(slot),
            None => None,
        }
    }

    /// The live rule at exactly a surface and key sequence, where the table
    /// would not wait for a longer one.
    pub open spec fn rule_for(self, id: Seq<char>, keys: Seq<KeyEvent>) -> Option<RuleView> {
        match self.lookup(id, keys) {
            LookupView::ExactOnly(entry) => self.rule_of(entry),
            _ => None,
        }
    }

    /// Every live rule, in slot order.
    pub open spec fn rules(self) -> Seq<RuleView> {
        live_rules(self.slots, self.arena)
    }

    /// Every live rule on a surface, in slot order.
    pub open spec fn rules_on(self, id: Seq<char>) -> Seq<RuleView> {
        self.rules().filter(|r: RuleView| r.surface == id)
    }

    /// Whether a key is the first of some multi-key rule on a surface.
    pub open spec fn reserves(self, id: Seq<char>, key: KeyEvent) -> bool {
        self.bindings(id) matches Some(b) && exists|i: int|
            0 <= i < b.slot_of.len() && is_sequence_from((#[trigger] b.slot_of[i]).0, key)
    }

    /// Whether any live rule on a surface opted into the positional guess.
    pub open spec fn physical_on(self, id: Seq<char>) -> bool {
        exists|i: int|
            0 <= i < self.rules().len() && (#[trigger] self.rules()[i]).surface == id
                && self.rules()[i].physical
    }

    /// The keys that a surface reserves, in order.
    pub open spec fn reservations(self, id: Seq<char>) -> Seq<KeyEvent> {
        match self.bindings(id) {
            Some(b) => reserved_keys(b.slot_of),
            None => Seq::empty(),
        }
    }

    /// Whether a surface reserves any key at all.
    pub open spec fn reserves_any(self, id: Seq<char>) -> bool {
        self.bindings(id) matches Some(b) && exists|i: int|
            0 <= i < b.slot_of.len() && (#[trigger] b.slot_of[i]).0.len() > 1
    }
}

/// Whether a left-hand side is a multi-key sequence that starts with a key.
pub open spec fn is_sequence_from(lhs: Seq<KeyEvent>, key: KeyEvent) -> bool {
    lhs.len() > 1 && lhs[0] == key
}

/// The first keys of the multi-key left-hand sides, in order, without repeats.
pub open spec fn reserved_keys(slot_of: Seq<(Seq<KeyEvent>, u32)>) -> Seq<KeyEvent>
    decreases slot_of.len(),
{
    if slot_of.len() == 0 {
        Seq::empty()
    } else {
        let init = reserved_keys(slot_of.drop_last());
        let lhs = slot_of.last().0;
        if lhs.len() > 1 && !init.contains(lhs[0]) {
            init.push(lhs[0])
        } else {
            init
        }
    }
}

// ── The index ─────────────────────────────────────────────────────────

/// One surface's prefix table, and the slot of every live left-hand side.
#[derive(Debug)]
struct SurfaceBindings {
    surface: SurfaceId,
    trie: MappingTrie,
    slot_of: Vec<(Vec<KeyEvent>, SlotId)>,
}

impl SurfaceBindings {
    spec fn view(&self) -> SurfaceView {
        SurfaceView {
            id: self.surface@,
            trie: self.trie@,
            slot_of: self.slot_of@.map_values(|e: (Vec<KeyEvent>, SlotId)| (e.0@, e.1.0)),
        }
    }

    /// Place of a left-hand side.
    fn position(&self, lhs: &[KeyEvent]) -> (r: Option<usize>)
        ensures
            match (r, lhs_place(self@.slot_of, lhs@)) {
                (Some(i), Some(at)) => i == at && i < self.slot_of@.len(),
                (None, None) => true,
                _ => false,
            },
    {
        let ghost p = of_lhs(lhs@);
        let ghost items = self@.slot_of;
        let mut i: usize = 0;
        while i < self.slot_of.len()
            invariant
                i <= self.slot_of@.len(),
                items == self@.slot_of,
                p == of_lhs(lhs@),
                forall|j: int| 0 <= j < i ==> !p(#[trigger] items[j]),
            decreases self.slot_of@.len() - i,
        {
            if keys_eq(self.slot_of[i].0.as_slice(), lhs) {
                proof {
                    search::is_first_where(items, p, i as int);
                }
                return Some(i);
            }
            i = i + 1;
        }
        proof {
            search::first_where_is_first(items, p);
        }
        None
    }

    /// Map a key sequence to a slot.
    fn map(&mut self, keys: Vec<KeyEvent>, slot: SlotId, nowait: bool)
        requires
            old(self).trie.wf(),
        ensures
            final(self).trie.wf(),
            final(self)@ == (SurfaceView {
                trie: old(self)@.trie.insert(keys@, entry_for(slot.0, nowait)),
                ..old(self)@
            }),
    {
        let mut sequence: Vec<KeyEvent> = Vec::new();
        sequence.push(KeyEvent::action(slot.0));
        let entry = MappingEntry { sequence, nowait };
        assert(entry@ =~= entry_for(slot.0, nowait));
        self.trie.insert(keys, entry);
    }

    /// Give a left-hand side a slot.
    fn give(&mut self, lhs: Vec<KeyEvent>, slot: SlotId)
        ensures
            final(self).trie == old(self).trie,
            final(self)@ == (SurfaceView {
                slot_of: old(self)@.slot_of.push((lhs@, slot.0)),
                ..old(self)@
            }),
    {
        let ghost before = self@.slot_of;
        self.slot_of.push((lhs, slot));
        assert(self@.slot_of =~= before.push((lhs@, slot.0)));
    }

    /// Forget a live left-hand side, and the key sequences that led to it.
    fn forget(&mut self, at: usize, lhs: &[KeyEvent], twin: Option<Vec<KeyEvent>>)
        requires
            old(self).trie.wf(),
            at < old(self)@.slot_of.len(),
        ensures
            final(self).trie.wf(),
            final(self)@ == (SurfaceView {
                trie: match twin {
                    Some(keys) => old(self)@.trie.remove(lhs@).remove(keys@),
                    None => old(self)@.trie.remove(lhs@),
                },
                slot_of: old(self)@.slot_of.remove(at as int),
                ..old(self)@
            }),
    {
        let ghost before = self@.slot_of;
        let _ = self.slot_of.remove(at);
        assert(self@.slot_of =~= before.remove(at as int));
        self.trie.remove(lhs);
        if let Some(keys) = twin {
            // The twin has no slot entry of its own: it would survive its rule.
            self.trie.remove(keys.as_slice());
        }
    }
}

/// Every binding, indexed by surface, in registration order.
#[derive(Debug)]
pub struct BindingIndex {
    surfaces: Vec<SurfaceBindings>,
    arena: Vec<Rule>,
    slots: Vec<Option<u32>>,
    forest: Forest,
    generation: u64,
}

impl View for BindingIndex {
    type V = IndexView;

    closed spec fn view(&self) -> IndexView {
        IndexView {
            surfaces: self.surfaces@.map_values(|b: SurfaceBindings| b@),
            arena: self.arena@.map_values(|r: Rule| r@),
            slots: self.slots@,
            forest: self.forest@,
            generation: self.generation,
        }
    }
}

impl BindingIndex {
    /// Every prefix table is sound.
    pub closed spec fn tables_wf(&self) -> bool {
        forall|i: int| 0 <= i < self.surfaces@.len() ==> (#[trigger] self.surfaces@[i]).trie.wf()
    }

    /// Every prefix table is sound, and the index keeps its invariant.
    pub open spec fn wf(&self) -> bool {
        self.tables_wf() && bind_laws::index_wf(self@)
    }

    /// An index without rules over a forest.
    pub fn new(forest: Forest) -> (r: BindingIndex)
        ensures
            r.wf(),
            r@ == (IndexView {
                surfaces: Seq::empty(),
                arena: Seq::empty(),
                slots: Seq::empty(),
                forest: forest@,
                generation: 0,
            }),
    {
        let r = BindingIndex {
            surfaces: Vec::new(),
            arena: Vec::new(),
            slots: Vec::new(),
            forest,
            generation: 0,
        };
        assert(r@.surfaces =~= Seq::empty());
        assert(r@.arena =~= Seq::empty());
        proof {
            bind_laws::empty_index_is_well_formed(r@);
        }
        r
    }

    /// The declared forest.
    pub fn forest(&self) -> (r: &Forest)
        ensures
            r@ == self@.forest,
    {
        &self.forest
    }

    /// How often the table was rebuilt.
    pub fn generation(&self) -> (r: u64)
        ensures
            r == self@.generation,
    {
        self.generation
    }

    /// Note that the table was rebuilt.
    pub fn set_generation(&mut self, generation: u64)
        requires
            old(self).wf(),
        ensures
            final(self).wf(),
            final(self)@ == (IndexView { generation, ..old(self)@ }),
    {
        proof {
            bind_laws::generations_do_not_matter(self@, generation);
        }
        self.generation = generation;
    }

    /// Place of a surface's bindings.
    fn position(&self, id: &str) -> (r: Option<usize>)
        ensures
            match (r, self@.place(id@)) {
                (Some(i), Some(at)) => i == at && i < self.surfaces@.len(),
                (None, None) => true,
                _ => false,
            },
    {
        let ghost p = of_surface(id@);
        let ghost items = self@.surfaces;
        let mut i: usize = 0;
        while i < self.surfaces.len()
            invariant
                i <= self.surfaces@.len(),
                items == self@.surfaces,
                p == of_surface(id@),
                forall|j: int| 0 <= j < i ==> !p(#[trigger] items[j]),
            decreases self.surfaces@.len() - i,
        {
            if str_eq(self.surfaces[i].surface, id) {
                proof {
                    search::is_first_where(items, p, i as int);
                }
                return Some(i);
            }
            i = i + 1;
        }
        proof {
            search::first_where_is_first(items, p);
        }
        None
    }

    /// Place of a surface's bindings, made where there is none.
    fn bindings_mut(&mut self, surface: SurfaceId) -> (r: usize)
        requires
            old(self).tables_wf(),
        ensures
            final(self).tables_wf(),
            final(self)@ == old(self)@.with_surface(surface@),
            r == old(self)@.at(surface@),
            r < final(self)@.surfaces.len(),
    {
        if let Some(i) = self.position(surface) {
            return i;
        }
        let ghost before = self@;
        let b = SurfaceBindings { surface, trie: MappingTrie::new(), slot_of: Vec::new() };
        assert(b@.slot_of =~= Seq::empty());
        self.surfaces.push(b);
        assert(self@.surfaces =~= before.with_surface(surface@).surfaces);
        self.surfaces.len() - 1
    }

    /// The slot for a left-hand side: its own, so that a later rule takes the
    /// place of an earlier one, or a new one.
    fn alloc_or_reuse_slot(&mut self, surface: SurfaceId, lhs: &[KeyEvent]) -> (r: SlotId)
        requires
            old(self).tables_wf(),
            old(self)@.slots.len() < u32::MAX,
        ensures
            final(self).tables_wf(),
            final(self)@ == old(self)@.with_slot(surface@, lhs@),
            r.0 == old(self)@.slot_for(surface@, lhs@),
    {
        let ghost before = self@;
        let i: usize = self.bindings_mut(surface);
        assert(self@.surfaces[i as int] == self.surfaces@[i as int]@);
        if let Some(at) = self.surfaces[i].position(lhs) {
            return self.surfaces[i].slot_of[at].1;
        }
        let slot = SlotId(self.slots.len() as u32);
        self.slots.push(None);
        let keys = copy_keys(lhs);
        self.surfaces[i].give(keys, slot);
        assert(self@.surfaces =~= before.with_slot(surface@, lhs@).surfaces);
        slot
    }

    /// Map a key sequence of a surface to a slot.
    fn insert_at(&mut self, surface: SurfaceId, keys: Vec<KeyEvent>, slot: SlotId, nowait: bool)
        requires
            old(self).tables_wf(),
        ensures
            final(self).tables_wf(),
            final(self)@ == old(self)@.with_entry(surface@, keys@, entry_for(slot.0, nowait)),
    {
        let ghost before = self@;
        let i: usize = self.bindings_mut(surface);
        assert(self@.surfaces[i as int] == self.surfaces@[i as int]@);
        self.surfaces[i].map(keys, slot, nowait);
        assert(self@.surfaces =~= before.with_entry(
            surface@,
            keys@,
            entry_for(slot.0, nowait),
        ).surfaces);
    }

    /// Install a rule, last writer wins at one surface and left-hand side.
    pub fn upsert(&mut self, rule: Rule)
        requires
            old(self).wf(),
            old(self)@.slots.len() < u32::MAX,
            old(self)@.arena.len() < u32::MAX,
        ensures
            final(self).wf(),
            final(self)@ == old(self)@.upserted(rule@),
    {
        let ghost before = self@;
        let slot: SlotId = self.alloc_or_reuse_slot(rule.surface, rule.lhs.as_slice());
        let arena_index: u32 = self.arena.len() as u32;
        let s: usize = slot.0 as usize;
        if s < self.slots.len() {
            self.slots.set(s, Some(arena_index));
        }
        self.insert_at(rule.surface, copy_keys(rule.lhs.as_slice()), slot, rule.nowait);
        if rule.shift_tolerant {
            if let Some(shifted) = shift_variant(rule.lhs.as_slice()) {
                // One rule, two left-hand sides, one slot.
                self.insert_at(rule.surface, shifted, slot, rule.nowait);
            }
        }
        let ghost twinned = self@;
        self.arena.push(rule);
        assert(self@.arena =~= twinned.arena.push(rule@));
        assert(self@ =~= before.upserted(rule@));
        proof {
            bind_laws::upsert_keeps_the_invariant(before, rule@);
        }
    }

    /// The live rule a slot names, if it has not been unmapped.
    pub fn rule_at(&self, slot: SlotId) -> (r: Option<&Rule>)
        ensures
            match (r, self@.rule_at(slot.0)) {
                (Some(rule), Some(want)) => rule@ == want,
                (None, None) => true,
                _ => false,
            },
    {
        let s: usize = slot.0 as usize;
        if s < self.slots.len() {
            match self.slots[s] {
                Some(i) => if (i as usize) < self.arena.len() {
                    Some(&self.arena[i as usize])
                } else {
                    None
                },
                None => None,
            }
        } else {
            None
        }
    }

    /// Remove the rule at a surface and left-hand side, if there is one.
    ///
    /// This is not a native target: the walk goes on to the parent surface.
    pub fn remove(&mut self, surface: &str, lhs: &[KeyEvent]) -> (r: bool)
        requires
            old(self).wf(),
        ensures
            final(self).wf(),
            final(self)@ == old(self)@.removed(surface@, lhs@),
            r == old(self)@.has(surface@, lhs@),
    {
        let ghost before = self@;
        let i: usize = match self.position(surface) {
            Some(i) => i,
            None => {
                return false;
            },
        };
        assert(self@.surfaces[i as int] == self.surfaces@[i as int]@);
        let at: usize = match self.surfaces[i].position(lhs) {
            Some(at) => at,
            None => {
                return false;
            },
        };
        let slot: SlotId = self.surfaces[i].slot_of[at].1;
        let tolerant = match self.rule_at(slot) {
            Some(rule) => rule.shift_tolerant,
            None => false,
        };
        let twin: Option<Vec<KeyEvent>> = if tolerant {
            shift_variant(lhs)
        } else {
            None
        };
        let s: usize = slot.0 as usize;
        if s < self.slots.len() {
            self.slots.set(s, None);
        }
        self.surfaces[i].forget(at, lhs, twin);
        assert(self@.surfaces =~= before.removed(surface@, lhs@).surfaces);
        assert(self@ =~= before.removed(surface@, lhs@));
        proof {
            bind_laws::remove_keeps_the_invariant(before, surface@, lhs@);
        }
        true
    }

    /// Three-way prefix lookup on one surface.
    pub fn lookup(&self, surface: &str, prefix: &[KeyEvent]) -> (r: TrieLookup<'_>)
        requires
            self.wf(),
        ensures
            r@ == self@.lookup(surface@, prefix@),
    {
        match self.position(surface) {
            Some(i) => {
                assert(self@.surfaces[i as int] == self.surfaces@[i as int]@);
                self.surfaces[i].trie.lookup(prefix)
            },
            None => TrieLookup::NoMatch,
        }
    }

    /// The slot a payload carries, if it is one of ours.
    pub fn slot_in(entry: &MappingEntry) -> (r: Option<SlotId>)
        ensures
            r == (match slot_carried(entry@) {
                Some(id) => Some(SlotId(id)),
                None => None,
            }),
    {
        if entry.sequence.len() == 1 {
            match entry.sequence[0].key {
                Key::Action(id) => Some(SlotId(id)),
                _ => None,
            }
        } else {
            None
        }
    }

    /// The live rule that a payload names.
    pub fn rule_in(&self, entry: &MappingEntry) -> (r: Option<&Rule>)
        ensures
            match (r, self@.rule_of(entry@)) {
                (Some(rule), Some(want)) => rule@ == want,
                (None, None) => true,
                _ => false,
            },
    {
        match BindingIndex::slot_in(entry) {
            Some(slot) => self.rule_at(slot),
            None => None,
        }
    }

    /// The live rule at exactly a surface and key sequence.
    ///
    /// The prefix table answers, so that what is reported is what the
    /// resolver would reach.
    pub fn rule_for(&self, surface: &str, lhs: &[KeyEvent]) -> (r: Option<&Rule>)
        requires
            self.wf(),
        ensures
            match (r, self@.rule_for(surface@, lhs@)) {
                (Some(rule), Some(want)) => rule@ == want,
                (None, None) => true,
                _ => false,
            },
    {
        match self.lookup(surface, lhs) {
            TrieLookup::ExactOnly(entry) => self.rule_in(entry),
            _ => None,
        }
    }
}

// ── Reservations and listings ─────────────────────────────────────────

/// What several rules say.
pub open spec fn rule_views(rules: Seq<&Rule>) -> Seq<RuleView> {
    rules.map_values(|r: &Rule| r@)
}

/// Keep the rules with a property, one rule after the other.
proof fn filter_step(rules: Seq<RuleView>, p: spec_fn(RuleView) -> bool, i: int)
    requires
        0 <= i < rules.len(),
    ensures
        rules.take(i + 1).filter(p) == (if p(rules[i]) {
            rules.take(i).filter(p).push(rules[i])
        } else {
            rules.take(i).filter(p)
        }),
{
    reveal(Seq::filter);
    let head = rules.take(i + 1);
    assert(head.drop_last() =~= rules.take(i));
    assert(head.last() == rules[i]);
}

proof fn filter_of_none(rules: Seq<RuleView>, p: spec_fn(RuleView) -> bool)
    ensures
        rules.take(0).filter(p) == Seq::<RuleView>::empty(),
{
    reveal(Seq::filter);
    assert(rules.take(0) =~= Seq::empty());
}

impl BindingIndex {
    /// Whether `key` is the bare first key of some multi-key rule on
    /// `surface`.
    pub fn is_reserved(&self, surface: &str, key: KeyEvent) -> (r: bool)
        ensures
            r == self@.reserves(surface@, key),
    {
        match self.position(surface) {
            Some(i) => {
                let b = &self.surfaces[i];
                assert(self@.surfaces[i as int] == b@);
                let mut j: usize = 0;
                while j < b.slot_of.len()
                    invariant
                        j <= b.slot_of@.len(),
                        self@.bindings(surface@) == Some(b@),
                        forall|k: int|
                            0 <= k < j ==> !is_sequence_from((#[trigger] b@.slot_of[k]).0, key),
                    decreases b.slot_of@.len() - j,
                {
                    let lhs = &b.slot_of[j].0;
                    assert(b@.slot_of[j as int].0 == lhs@);
                    if lhs.len() > 1 && lhs[0] == key {
                        assert(is_sequence_from(b@.slot_of[j as int].0, key));
                        assert(self@.bindings(surface@)->0.slot_of[j as int] == b@.slot_of[j as int]);
                        return true;
                    }
                    j = j + 1;
                }
                false
            },
            None => false,
        }
    }

    /// Whether `surface` reserves any bare key at all.
    pub fn reserves_any(&self, surface: &str) -> (r: bool)
        ensures
            r == self@.reserves_any(surface@),
    {
        match self.position(surface) {
            Some(i) => {
                let b = &self.surfaces[i];
                assert(self@.surfaces[i as int] == b@);
                let mut j: usize = 0;
                while j < b.slot_of.len()
                    invariant
                        j <= b.slot_of@.len(),
                        self@.bindings(surface@) == Some(b@),
                        forall|k: int| 0 <= k < j ==> (#[trigger] b@.slot_of[k]).0.len() <= 1,
                    decreases b.slot_of@.len() - j,
                {
                    assert(b@.slot_of[j as int].0 == b.slot_of@[j as int].0@);
                    if b.slot_of[j].0.len() > 1 {
                        assert(self@.bindings(surface@)->0.slot_of[j as int].0.len() > 1);
                        return true;
                    }
                    j = j + 1;
                }
                false
            },
            None => false,
        }
    }

    /// Every bare key `surface` reserves, in slot order, without repeats.
    pub fn reservations(&self, surface: &str) -> (r: Vec<KeyEvent>)
        ensures
            r@ == self@.reservations(surface@),
    {
        let mut out: Vec<KeyEvent> = Vec::new();
        if let Some(i) = self.position(surface) {
            let b = &self.surfaces[i];
            assert(self@.surfaces[i as int] == b@);
            let ghost items = b@.slot_of;
            let mut j: usize = 0;
            assert(items.take(0) =~= Seq::empty());
            while j < b.slot_of.len()
                invariant
                    j <= b.slot_of@.len(),
                    items == b@.slot_of,
                    out@ == reserved_keys(items.take(j as int)),
                decreases b.slot_of@.len() - j,
            {
                let lhs = &b.slot_of[j].0;
                proof {
                    assert(items[j as int].0 == lhs@);
                    assert(items.take(j + 1).drop_last() =~= items.take(j as int));
                    assert(items.take(j + 1).last() == items[j as int]);
                }
                if lhs.len() > 1 {
                    let first: KeyEvent = lhs[0];
                    if !keys_contain(out.as_slice(), first) {
                        out.push(first);
                    }
                }
                j = j + 1;
            }
            assert(items.take(j as int) =~= items);
        }
        out
    }

    /// Every live rule, in slot order.
    pub fn rules(&self) -> (r: Vec<&Rule>)
        ensures
            rule_views(r@) == self@.rules(),
    {
        let mut out: Vec<&Rule> = Vec::new();
        let ghost slots = self@.slots;
        let ghost arena = self@.arena;
        let mut i: usize = 0;
        assert(slots.take(0) =~= Seq::empty());
        assert(rule_views(out@) =~= Seq::empty());
        while i < self.slots.len()
            invariant
                i <= self.slots@.len(),
                slots == self.slots@,
                arena == self@.arena,
                rule_views(out@) == live_rules(slots.take(i as int), arena),
            decreases self.slots@.len() - i,
        {
            proof {
                assert(slots.take(i + 1).drop_last() =~= slots.take(i as int));
                assert(slots.take(i + 1).last() == slots[i as int]);
            }
            if let Some(at) = self.slots[i] {
                if (at as usize) < self.arena.len() {
                    let ghost before = out@;
                    out.push(&self.arena[at as usize]);
                    assert(rule_views(out@) =~= rule_views(before).push(arena[at as int]));
                }
            }
            i = i + 1;
        }
        assert(slots.take(i as int) =~= slots);
        out
    }

    /// Every live rule on one surface, in slot order.
    pub fn rules_on(&self, surface: &str) -> (r: Vec<&Rule>)
        ensures
            rule_views(r@) == self@.rules_on(surface@),
    {
        let all = self.rules();
        let ghost views = self@.rules();
        let ghost p = |r: RuleView| r.surface == surface@;
        let mut out: Vec<&Rule> = Vec::new();
        let mut i: usize = 0;
        proof {
            filter_of_none(views, p);
            assert(rule_views(out@) =~= Seq::empty());
        }
        while i < all.len()
            invariant
                i <= all@.len(),
                views == rule_views(all@),
                p == (|r: RuleView| r.surface == surface@),
                rule_views(out@) == views.take(i as int).filter(p),
            decreases all@.len() - i,
        {
            proof {
                filter_step(views, p, i as int);
            }
            assert(views[i as int] == all@[i as int]@);
            if str_eq(all[i].surface, surface) {
                let ghost before = out@;
                out.push(all[i]);
                assert(rule_views(out@) =~= rule_views(before).push(views[i as int]));
            }
            i = i + 1;
        }
        assert(views.take(i as int) =~= views);
        out
    }

    /// Every live multi-key rule on `surface` that starts with `first`.
    pub fn sequences_from(&self, surface: &str, first: KeyEvent) -> (r: Vec<&Rule>)
        ensures
            rule_views(r@) == self@.rules_on(surface@).filter(
                |r: RuleView| is_sequence_from(r.lhs, first),
            ),
    {
        let all = self.rules_on(surface);
        let ghost views = self@.rules_on(surface@);
        let ghost p = |r: RuleView| is_sequence_from(r.lhs, first);
        let mut out: Vec<&Rule> = Vec::new();
        let mut i: usize = 0;
        proof {
            filter_of_none(views, p);
            assert(rule_views(out@) =~= Seq::empty());
        }
        while i < all.len()
            invariant
                i <= all@.len(),
                views == rule_views(all@),
                p == (|r: RuleView| is_sequence_from(r.lhs, first)),
                rule_views(out@) == views.take(i as int).filter(p),
            decreases all@.len() - i,
        {
            proof {
                filter_step(views, p, i as int);
            }
            assert(views[i as int] == all@[i as int]@);
            let rule = all[i];
            if rule.lhs.len() > 1 && rule.lhs[0] == first {
                let ghost before = out@;
                out.push(rule);
                assert(rule_views(out@) =~= rule_views(before).push(views[i as int]));
            }
            i = i + 1;
        }
        assert(views.take(i as int) =~= views);
        out
    }

    /// Whether any live rule on `surface` opted into the positional guess.
    pub fn has_physical_rule(&self, surface: &str) -> (r: bool)
        ensures
            r == self@.physical_on(surface@),
    {
        let all = self.rules();
        let ghost views = self@.rules();
        let mut i: usize = 0;
        while i < all.len()
            invariant
                i <= all@.len(),
                views == rule_views(all@),
                views == self@.rules(),
                forall|j: int|
                    0 <= j < i ==> !((#[trigger] views[j]).surface == surface@
                        && views[j].physical),
            decreases all@.len() - i,
        {
            assert(views[i as int] == all@[i as int]@);
            if str_eq(all[i].surface, surface) && all[i].physical {
                return true;
            }
            i = i + 1;
        }
        false
    }

    /// How many rules are live.
    pub fn len(&self) -> (r: usize)
        ensures
            r == self@.rules().len(),
    {
        let all = self.rules();
        assert(rule_views(all@).len() == all@.len());
        all.len()
    }

    /// Whether no rule is live.
    pub fn is_empty(&self) -> (r: bool)
        ensures
            r == (self@.rules().len() == 0),
    {
        self.len() == 0
    }

    /// Whether any live rule points at a verb.
    pub fn any_rule_targets(&self, id: ActionId) -> (r: bool)
        ensures
            r == exists|i: int|
                0 <= i < self@.rules().len() && (#[trigger] self@.rules()[i]).target
                    == TargetView::Action(id),
    {
        let all = self.rules();
        let ghost views = self@.rules();
        let mut i: usize = 0;
        while i < all.len()
            invariant
                i <= all@.len(),
                views == rule_views(all@),
                views == self@.rules(),
                forall|j: int|
                    0 <= j < i ==> (#[trigger] views[j]).target != TargetView::Action(id),
            decreases all@.len() - i,
        {
            assert(views[i as int] == all@[i as int]@);
            if let RuleTarget::Action(other) = &all[i].target {
                if *other == id {
                    assert(views[i as int].target == TargetView::Action(id));
                    return true;
                }
            }
            i = i + 1;
        }
        false
    }
}

// ── Rejections ────────────────────────────────────────────────────────

/// What is wrong with one line of configuration text.
#[derive(Debug, Clone, PartialEq, Eq)]
pub enum PanelParseError {
    /// A part of the line is not there.
    MissingOperand(&'static str),
    /// A repeat count outside the survivable range.
    CountOutOfRange(i64),
    /// Anything else, in the reader's own words.
    Other(CompactString),
}

/// What a [`PanelParseError`] says.
pub enum ParseFault {
    MissingOperand(Seq<char>),
    CountOutOfRange(i64),
    Other(Seq<char>),
}

impl View for PanelParseError {
    type V = ParseFault;

    open spec fn view(&self) -> ParseFault {
        match *self {
            PanelParseError::MissingOperand(what) => ParseFault::MissingOperand(what@),
            PanelParseError::CountOutOfRange(n) => ParseFault::CountOutOfRange(n),
            PanelParseError::Other(words) => ParseFault::Other(text::compact_text(words)),
        }
    }
}

impl PanelParseError {
    /// The same error.
    pub fn copy(&self) -> (r: PanelParseError)
        ensures
            r@ == self@,
    {
        match self {
            PanelParseError::MissingOperand(what) => PanelParseError::MissingOperand(*what),
            PanelParseError::CountOutOfRange(n) => PanelParseError::CountOutOfRange(*n),
            PanelParseError::Other(words) => PanelParseError::Other(words.clone()),
        }
    }
}

/// Why a rule cannot be registered.
#[derive(Debug, Clone, PartialEq, Eq)]
pub enum RuleReject {
    /// The line did not parse at all.
    Parse(PanelParseError),
    UnknownSurface(CompactString),
    /// A typo in a target must never become a silent dead key.
    UnknownAction(CompactString),
    /// Nothing is looked up there, so a rule would be unreachable.
    BarrierSurface(SurfaceId),
    /// The surface is an editor surface or an ancestor of one.
    MultiKeyOnEditorPath(SurfaceId),
    /// The first key starts a command sequence of the editor's grammar.
    VimGrammarPrefix(KeyEvent),
    /// The surface is never classified, so it grants nothing, and the action
    /// needs something.
    UnsatisfiableCapability { surface: SurfaceId, action: CompactString },
    /// Nothing can dispatch the target.
    UndispatchedTarget { surface: SurfaceId, target: CompactString },
}

/// What a [`RuleReject`] says.
pub enum RejectView {
    Parse(ParseFault),
    UnknownSurface(Seq<char>),
    UnknownAction(Seq<char>),
    BarrierSurface(Seq<char>),
    MultiKeyOnEditorPath(Seq<char>),
    VimGrammarPrefix(KeyEvent),
    UnsatisfiableCapability { surface: Seq<char>, action: Seq<char> },
    UndispatchedTarget { surface: Seq<char>, target: Seq<char> },
}

impl View for RuleReject {
    type V = RejectView;

    open spec fn view(&self) -> RejectView {
        match *self {
            RuleReject::Parse(e) => RejectView::Parse(e@),
            RuleReject::UnknownSurface(s) => RejectView::UnknownSurface(text::compact_text(s)),
            RuleReject::UnknownAction(a) => RejectView::UnknownAction(text::compact_text(a)),
            RuleReject::BarrierSurface(s) => RejectView::BarrierSurface(s@),
            RuleReject::MultiKeyOnEditorPath(s) => RejectView::MultiKeyOnEditorPath(s@),
            RuleReject::VimGrammarPrefix(k) => RejectView::VimGrammarPrefix(k),
            RuleReject::UnsatisfiableCapability { surface, action } => {
                RejectView::UnsatisfiableCapability {
                    surface: surface@,
                    action: text::compact_text(action),
                }
            },
            RuleReject::UndispatchedTarget { surface, target } => RejectView::UndispatchedTarget {
                surface: surface@,
                target: text::compact_text(target),
            },
        }
    }
}

impl ParseFault {
    /// The message that describes the fault.
    pub open spec fn message(self) -> Seq<char> {
        match self {
            ParseFault::MissingOperand(what) => "missing "@ + what,
            ParseFault::CountOutOfRange(n) => "count "@ + text::signed_decimal(n as int)
                + " is out of range"@,
            ParseFault::Other(words) => words,
        }
    }
}

impl RejectView {
    /// The message that describes the rejection.
    pub open spec fn message(self, names: KeyNames) -> Seq<char> {
        match self {
            RejectView::Parse(e) => e.message(),
            RejectView::UnknownSurface(s) => "no surface named '"@ + s + "' is declared"@,
            RejectView::UnknownAction(a) => "no action named '"@ + a + "' is registered"@,
            RejectView::BarrierSurface(s) => "surface '"@ + s
                + "' is a barrier and takes no bindings; keys there belong to the control that has focus"@,
            RejectView::MultiKeyOnEditorPath(s) => "surface '"@ + s
                + "' is reachable from the script editor, so its bindings must be a single key"@,
            RejectView::VimGrammarPrefix(k) => "'"@ + names.spec_text(k)
                + "' begins a Vim command sequence; binding it here would destroy the key that follows it"@,
            RejectView::UnsatisfiableCapability { surface, action } => "surface '"@ + surface
                + "' is reached by an explicit transport lookup, never by classifying the focus chain, so it grants no capabilities; '"@
                + action + "' declares requirements that can never be satisfied there"@,
            RejectView::UndispatchedTarget { surface, target } => "surface '"@ + surface
                + "' has no transport that can dispatch '"@ + target
                + "', so the key would be consumed and do nothing"@,
        }
    }
}

impl RuleReject {
    /// Append the message that describes the rejection.
    pub fn write_to(&self, names: &KeyNames, out: &mut String)
        ensures
            final(out)@ == old(out)@ + self@.message(*names),
    {
        match self {
            RuleReject::Parse(e) => match e {
                PanelParseError::MissingOperand(what) => {
                    out.append("missing ");
                    out.append(what);
                },
                PanelParseError::CountOutOfRange(n) => {
                    out.append("count ");
                    push_signed(out, *n);
                    out.append(" is out of range");
                },
                PanelParseError::Other(words) => {
                    out.append(as_text(words));
                },
            },
            RuleReject::UnknownSurface(s) => {
                out.append("no surface named '");
                out.append(as_text(s));
                out.append("' is declared");
            },
            RuleReject::UnknownAction(a) => {
                out.append("no action named '");
                out.append(as_text(a));
                out.append("' is registered");
            },
            RuleReject::BarrierSurface(s) => {
                out.append("surface '");
                out.append(s);
                out.append(
                    "' is a barrier and takes no bindings; keys there belong to the control that has focus",
                );
            },
            RuleReject::MultiKeyOnEditorPath(s) => {
                out.append("surface '");
                out.append(s);
                out.append(
                    "' is reachable from the script editor, so its bindings must be a single key",
                );
            },
            RuleReject::VimGrammarPrefix(k) => {
                out.append("'");
                out.append(names.text(*k));
                out.append(
                    "' begins a Vim command sequence; binding it here would destroy the key that follows it",
                );
            },
            RuleReject::UnsatisfiableCapability { surface, action } => {
                out.append("surface '");
                out.append(surface);
                out.append(
                    "' is reached by an explicit transport lookup, never by classifying the focus chain, so it grants no capabilities; '",
                );
                out.append(as_text(action));
                out.append("' declares requirements that can never be satisfied there");
            },
            RuleReject::UndispatchedTarget { surface, target } => {
                out.append("surface '");
                out.append(surface);
                out.append("' has no transport that can dispatch '");
                out.append(as_text(target));
                out.append("', so the key would be consumed and do nothing");
            },
        }
        assert(out@ =~= old(out)@ + self@.message(*names));
    }

    /// The message that describes the rejection.
    pub fn message(&self, names: &KeyNames) -> (r: String)
        ensures
            r@ == self@.message(*names),
    {
        let mut out = String::new();
        self.write_to(names, &mut out);
        assert(Seq::<char>::empty() + self@.message(*names) =~= self@.message(*names));
        out
    }
}

/// Who wrote a text, which is what splits the diagnostic policy.
#[derive(Debug, Clone, Copy, PartialEq, Eq, Structural)]
pub enum Provenance {
    /// Shipped defaults: a failure is a programming error.
    Builtin,
    /// The user's own text: a failing line is skipped and reported.
    User,
}

/// One rejected line, ready to print.
#[derive(Debug, Clone, PartialEq, Eq)]
pub struct PanelDiagnostic {
    /// The number of the line, from one, where the rule came from a file.
    pub line: Option<u32>,
    /// The provider's tag, or the path of the file.
    pub source: CompactString,
    pub reject: RuleReject,
}

/// What a [`PanelDiagnostic`] says.
pub struct DiagnosticView {
    pub line: Option<u32>,
    pub source: Seq<char>,
    pub reject: RejectView,
}

impl View for PanelDiagnostic {
    type V = DiagnosticView;

    open spec fn view(&self) -> DiagnosticView {
        DiagnosticView {
            line: self.line,
            source: text::compact_text(self.source),
            reject: self.reject@,
        }
    }
}

impl DiagnosticView {
    /// The diagnostic as it is printed.
    pub open spec fn message(self, names: KeyNames) -> Seq<char> {
        match self.line {
            Some(n) => self.source + ":"@ + text::decimal(n as nat) + ": "@ + self.reject.message(
                names,
            ),
            None => self.source + ": "@ + self.reject.message(names),
        }
    }
}

impl PanelDiagnostic {
    /// Append the diagnostic as it is printed.
    pub fn write_to(&self, names: &KeyNames, out: &mut String)
        ensures
            final(out)@ == old(out)@ + self@.message(*names),
    {
        out.append(as_text(&self.source));
        if let Some(n) = self.line {
            out.append(":");
            push_decimal(out, n as u64);
        }
        out.append(": ");
        self.reject.write_to(names, out);
        assert(out@ =~= old(out)@ + self@.message(*names));
    }

    /// The diagnostic as it is printed.
    pub fn message(&self, names: &KeyNames) -> (r: String)
        ensures
            r@ == self@.message(*names),
    {
        let mut out = String::new();
        self.write_to(names, &mut out);
        assert(Seq::<char>::empty() + self@.message(*names) =~= self@.message(*names));
        out
    }
}

// ── Registration ──────────────────────────────────────────────────────

/// Whether a rule on a surface can fire while the script editor has focus: the
/// surface is an editor surface or an ancestor of one.
pub open spec fn reaches_editor(forest: Seq<SurfaceSpec>, id: Seq<char>) -> bool {
    exists|i: int|
        0 <= i < forest.len() && text::begins_with((#[trigger] forest[i]).id@, "editor."@)
            && surface::on_path(surface::path_of(forest, forest[i].id), id)
}

/// Whether the surface declared under a name has a parent of that name.
pub open spec fn is_child_of(forest: Seq<SurfaceSpec>, child: Seq<char>, id: Seq<char>) -> bool {
    surface::place_of(forest, child) matches Some(i) && forest[i].parent matches Some(parent)
        && parent@ == id
}

/// Whether a surface has neither a parent nor a child: it is on no path, and
/// only a transport that names it reaches it.
pub open spec fn is_isolated(forest: Seq<SurfaceSpec>, id: Seq<char>) -> bool {
    &&& surface::place_of(forest, id) matches Some(i) && forest[i].parent is None
    &&& forall|j: int| 0 <= j < forest.len() ==> !is_child_of(forest, (#[trigger] forest[j]).id@, id)
}

/// The name of a verb, or what stands for it where there is none.
pub open spec fn verb_name(registry: Seq<ActionSpec>, id: ActionId) -> Seq<char> {
    if id.0 < registry.len() {
        registry[id.0 as int].id@
    } else {
        "<unregistered>"@
    }
}

/// Whether a verb can never be allowed where nothing is granted.
pub open spec fn never_allowed(registry: Seq<ActionSpec>, id: ActionId) -> bool {
    id.0 >= registry.len() || registry[id.0 as int].requires != Caps::spec_empty()
}

/// Why a rule cannot be installed, if it cannot.
///
/// `grammar` says whether the rule's first key starts a command sequence of
/// the editor's grammar.
pub open spec fn rejection(
    forest: Seq<SurfaceSpec>,
    rule: RuleView,
    registry: Seq<ActionSpec>,
    grammar: bool,
) -> Option<RejectView> {
    match surface::place_of(forest, rule.surface) {
        None => Some(RejectView::UnknownSurface(rule.surface)),
        Some(i) => if forest[i].seal == Seal::Barrier {
            Some(RejectView::BarrierSurface(rule.surface))
        } else {
            match rule.target {
                TargetView::Action(id) if is_isolated(forest, rule.surface) && never_allowed(
                    registry,
                    id,
                ) => Some(
                    RejectView::UnsatisfiableCapability {
                        surface: rule.surface,
                        action: verb_name(registry, id),
                    },
                ),
                TargetView::Shortcut(path) => Some(
                    RejectView::UndispatchedTarget {
                        surface: rule.surface,
                        target: "<Shortcut>("@ + path + ")"@,
                    },
                ),
                _ => if !reaches_editor(forest, rule.surface) {
                    None
                } else if rule.lhs.len() > 1 {
                    Some(RejectView::MultiKeyOnEditorPath(rule.surface))
                } else if rule.lhs.len() == 0 {
                    Some(RejectView::Parse(ParseFault::MissingOperand("key sequence"@)))
                } else if grammar {
                    Some(RejectView::VimGrammarPrefix(rule.lhs[0]))
                } else {
                    None
                },
            }
        },
    }
}

/// Three pieces of text as one compact string.
fn compact_of(a: &str, b: &str, c: &str) -> (r: CompactString)
    ensures
        text::compact_text(r) == a@ + b@ + c@,
{
    let mut out = String::new();
    out.append(a);
    out.append(b);
    out.append(c);
    assert(out@ =~= a@ + b@ + c@);
    compact_from(out.as_str())
}

impl BindingIndex {
    /// Whether a rule on `surface` can fire while the script editor has focus.
    pub fn editor_reachable(&self, surface: &str) -> (r: bool)
        ensures
            r == reaches_editor(self@.forest, surface@),
    {
        let ids = self.forest.ids();
        let ghost forest = self@.forest;
        let mut i: usize = 0;
        while i < ids.len()
            invariant
                i <= ids@.len(),
                forest == self.forest@,
                forest == self@.forest,
                ids@ == forest.map_values(|s: SurfaceSpec| s.id),
                forall|j: int|
                    0 <= j < i ==> !(text::begins_with((#[trigger] forest[j]).id@, "editor."@)
                        && surface::on_path(surface::path_of(forest, forest[j].id), surface@)),
            decreases ids@.len() - i,
        {
            assert(ids@[i as int] == forest[i as int].id);
            if str_starts_with(ids[i], "editor.") && self.forest.is_ancestor_or_self(
                surface,
                ids[i],
            ) {
                return true;
            }
            i = i + 1;
        }
        false
    }

    /// Whether `surface` is reached only by a transport that names it, never
    /// by classifying a focus chain.
    pub fn transport_only(&self, surface: &str) -> (r: bool)
        ensures
            r == is_isolated(self@.forest, surface@),
    {
        match self.forest.get(surface) {
            Some(spec) => if spec.parent.is_some() {
                return false;
            },
            None => {
                return false;
            },
        }
        let ids = self.forest.ids();
        let ghost forest = self@.forest;
        let mut i: usize = 0;
        while i < ids.len()
            invariant
                i <= ids@.len(),
                forest == self.forest@,
                forest == self@.forest,
                ids@ == forest.map_values(|s: SurfaceSpec| s.id),
                forall|j: int|
                    0 <= j < i ==> !is_child_of(forest, (#[trigger] forest[j]).id@, surface@),
            decreases ids@.len() - i,
        {
            assert(ids@[i as int] == forest[i as int].id);
            if let Some(child) = self.forest.get(ids[i]) {
                if let Some(parent) = child.parent {
                    if str_eq(parent, surface) {
                        assert(is_child_of(forest, forest[i as int].id@, surface@));
                        return false;
                    }
                }
            }
            i = i + 1;
        }
        true
    }

    /// Validate and install a rule. The only entry point user input reaches.
    ///
    /// `grammar` says whether the rule's first key starts a command sequence
    /// of the editor's grammar. A rejected rule leaves the index as it was.
    pub fn try_insert(
        &mut self,
        rule: Rule,
        registry: &ActionRegistry,
        grammar: bool,
    ) -> (r: Result<(), RuleReject>)
        requires
            old(self).wf(),
            registry.wf(),
            old(self)@.slots.len() < u32::MAX,
            old(self)@.arena.len() < u32::MAX,
        ensures
            final(self).wf(),
            match (r, rejection(old(self)@.forest, rule@, registry@, grammar)) {
                (Ok(_), None) => final(self)@ == old(self)@.upserted(rule@),
                (Err(e), Some(want)) => e@ == want && final(self)@ == old(self)@,
                _ => false,
            },
            r is Err ==> final(self)@ == old(self)@,
            r is Ok ==> final(self)@ == old(self)@.upserted(rule@),
    {
        let seal: Seal = match self.forest.get(rule.surface) {
            Some(spec) => spec.seal,
            None => {
                return Err(RuleReject::UnknownSurface(compact_from(rule.surface)));
            },
        };
        if seal == Seal::Barrier {
            return Err(RuleReject::BarrierSurface(rule.surface));
        }
        // Refuse what no transport can honour: the alternative is a rule that
        // is listed as eligible and never fires, or fires with no gate at all.
        match &rule.target {
            RuleTarget::Action(id) => {
                if self.transport_only(rule.surface) {
                    let unsatisfiable = match registry.get(*id) {
                        Some(spec) => !spec.requires.is_empty(),
                        None => true,
                    };
                    if unsatisfiable {
                        let action: CompactString = match registry.name_of(*id) {
                            Some(name) => compact_from(name),
                            None => compact_from("<unregistered>"),
                        };
                        return Err(
                            RuleReject::UnsatisfiableCapability { surface: rule.surface, action },
                        );
                    }
                }
            },
            RuleTarget::Shortcut(path) => {
                return Err(
                    RuleReject::UndispatchedTarget {
                        surface: rule.surface,
                        target: compact_of("<Shortcut>(", as_text(path), ")"),
                    },
                );
            },
            RuleTarget::Native => {},
        }
        if self.editor_reachable(rule.surface) {
            if rule.lhs.len() > 1 {
                return Err(RuleReject::MultiKeyOnEditorPath(rule.surface));
            }
            if rule.lhs.len() == 0 {
                return Err(RuleReject::Parse(PanelParseError::MissingOperand("key sequence")));
            }
            if grammar {
                return Err(RuleReject::VimGrammarPrefix(rule.lhs[0]));
            }
        }
        self.upsert(rule);
        Ok(())
    }
}

// ── Configuration lines ───────────────────────────────────────────────

/// What a line names as its target.
#[derive(Debug, Clone, PartialEq, Eq)]
pub enum TargetSpec {
    /// An action, by name.
    Action(CompactString),
    Native,
    /// An editor shortcut, by path.
    Shortcut(CompactString),
}

/// The flags of a line.
#[derive(Debug, Clone, Copy, PartialEq, Eq, Structural)]
pub struct PanelFlags {
    pub physical: bool,
    pub void: bool,
    pub norepeat: bool,
    pub shift: bool,
    pub nowait: bool,
}

/// A line that binds.
#[derive(Debug, Clone, PartialEq, Eq)]
pub struct PanelMap {
    pub surface: CompactString,
    pub lhs: Vec<KeyEvent>,
    pub target: TargetSpec,
    pub params: Params,
    pub flags: PanelFlags,
}

/// One line of configuration text, read.
#[derive(Debug, Clone, PartialEq, Eq)]
pub enum PanelLine {
    /// Nothing to do: the line is blank or a comment.
    Blank,
    /// The line does not parse.
    Fault(PanelParseError),
    /// The line binds; `grammar` says whether its first key starts a command
    /// sequence of the editor's grammar.
    Bind { map: PanelMap, grammar: bool },
    /// The line unbinds.
    Unmap { surface: CompactString, lhs: Vec<KeyEvent> },
}

/// What a line that binds makes of its target and description.
pub open spec fn target_of(target: TargetSpec, registry: Seq<ActionSpec>) -> Result<
    (TargetView, Seq<char>),
    RejectView,
> {
    match target {
        TargetSpec::Action(name) => match action::spec_place(registry, text::compact_text(name)) {
            Some(i) => Ok((TargetView::Action(ActionId(i as u32)), registry[i].desc@)),
            None => Err(RejectView::UnknownAction(text::compact_text(name))),
        },
        TargetSpec::Native => Ok((TargetView::Native, "give the key back to Godot"@)),
        TargetSpec::Shortcut(path) => Ok(
            (
                TargetView::Shortcut(text::compact_text(path)),
                "editor shortcut "@ + text::compact_text(path),
            ),
        ),
    }
}

/// The rule that a line makes, with its target resolved.
pub open spec fn rule_of_line(
    map: PanelMap,
    registry: Seq<ActionSpec>,
    forest: Seq<SurfaceSpec>,
    owner: OwnerView,
) -> Result<RuleView, RejectView> {
    let surface = text::compact_text(map.surface);
    match surface::place_of(forest, surface) {
        None => Err(RejectView::UnknownSurface(surface)),
        Some(_) => match target_of(map.target, registry) {
            Err(e) => Err(e),
            Ok((target, desc)) => Ok(
                RuleView {
                    surface,
                    lhs: map.lhs@,
                    target,
                    params: map.params@,
                    consume: if map.flags.void {
                        Consumption::Void
                    } else {
                        Consumption::Elastic
                    },
                    repeat: if map.flags.norepeat {
                        Repeat::Suppress
                    } else {
                        Repeat::Allow
                    },
                    physical: map.flags.physical,
                    shift_tolerant: map.flags.shift,
                    nowait: map.flags.nowait,
                    owner,
                    desc,
                },
            ),
        },
    }
}

/// Turn a line that binds into a rule, resolving its target.
///
/// An unknown action is refused here: a rule with no verb would consume its
/// key and do nothing.
pub fn rule_from(
    map: &PanelMap,
    registry: &ActionRegistry,
    forest: &Forest,
    owner: &MappingOwner,
) -> (r: Result<Rule, RuleReject>)
    requires
        registry.wf(),
    ensures
        match (r, rule_of_line(*map, registry@, forest@, owner@)) {
            (Ok(rule), Ok(want)) => rule@ == want,
            (Err(e), Err(want)) => e@ == want,
            _ => false,
        },
{
    let surface: SurfaceId = match forest.get(as_text(&map.surface)) {
        Some(spec) => {
            proof {
                surface::place_of_is_first(forest@, text::compact_text(map.surface));
            }
            spec.id
        },
        None => {
            return Err(RuleReject::UnknownSurface(map.surface.clone()));
        },
    };
    let (target, desc): (RuleTarget, CompactString) = match &map.target {
        TargetSpec::Action(name) => match registry.id_of(as_text(name)) {
            Some(id) => {
                let desc: CompactString = match registry.get(id) {
                    Some(spec) => compact_from(spec.desc),
                    None => name.clone(),
                };
                (RuleTarget::Action(id), desc)
            },
            None => {
                return Err(RuleReject::UnknownAction(name.clone()));
            },
        },
        TargetSpec::Native => (RuleTarget::Native, compact_from("give the key back to Godot")),
        TargetSpec::Shortcut(path) => {
            let mut words = String::new();
            words.append("editor shortcut ");
            words.append(as_text(path));
            assert(words@ =~= "editor shortcut "@ + text::compact_text(*path));
            (RuleTarget::Shortcut(path.clone()), compact_from(words.as_str()))
        },
    };
    let rule = Rule {
        surface,
        lhs: copy_keys(map.lhs.as_slice()),
        target,
        params: map.params.copy(),
        consume: if map.flags.void {
            Consumption::Void
        } else {
            Consumption::Elastic
        },
        repeat: if map.flags.norepeat {
            Repeat::Suppress
        } else {
            Repeat::Allow
        },
        physical: map.flags.physical,
        shift_tolerant: map.flags.shift,
        nowait: map.flags.nowait,
        owner: owner.copy(),
        desc,
    };
    assert(rule@ =~= rule_of_line(*map, registry@, forest@, owner@)->Ok_0);
    Ok(rule)
}

/// What one line makes of the index, and why it did not load, if it did not.
pub open spec fn line_applied(
    v: IndexView,
    line: PanelLine,
    registry: Seq<ActionSpec>,
    owner: OwnerView,
) -> (IndexView, Option<RejectView>) {
    match line {
        PanelLine::Blank => (v, None),
        PanelLine::Fault(e) => (v, Some(RejectView::Parse(e@))),
        PanelLine::Bind { map, grammar } => match rule_of_line(map, registry, v.forest, owner) {
            Err(e) => (v, Some(e)),
            Ok(rule) => match rejection(v.forest, rule, registry, grammar) {
                Some(e) => (v, Some(e)),
                None => (v.upserted(rule), None),
            },
        },
        PanelLine::Unmap { surface, lhs } => {
            let id = text::compact_text(surface);
            match surface::place_of(v.forest, id) {
                Some(_) => (v.removed(id, lhs@), None),
                None => (v, Some(RejectView::UnknownSurface(id))),
            }
        },
    }
}

/// What the first `n` of several lines make of the index.
pub open spec fn lines_applied(
    v: IndexView,
    lines: Seq<PanelLine>,
    n: int,
    registry: Seq<ActionSpec>,
    owner: OwnerView,
) -> IndexView
    decreases n,
{
    if n <= 0 {
        v
    } else {
        line_applied(
            lines_applied(v, lines, n - 1, registry, owner),
            lines[n - 1],
            registry,
            owner,
        ).0
    }
}

/// The diagnostics of the first `n` of several lines, in line order.
pub open spec fn lines_rejected(
    v: IndexView,
    lines: Seq<PanelLine>,
    n: int,
    registry: Seq<ActionSpec>,
    owner: OwnerView,
    source: Seq<char>,
) -> Seq<DiagnosticView>
    decreases n,
{
    if n <= 0 {
        Seq::empty()
    } else {
        let earlier = lines_rejected(v, lines, n - 1, registry, owner, source);
        match line_applied(
            lines_applied(v, lines, n - 1, registry, owner),
            lines[n - 1],
            registry,
            owner,
        ).1 {
            Some(reject) => earlier.push(DiagnosticView { line: Some(n as u32), source, reject }),
            None => earlier,
        }
    }
}

/// What several diagnostics say.
pub open spec fn diagnostic_views(ds: Seq<PanelDiagnostic>) -> Seq<DiagnosticView> {
    ds.map_values(|d: PanelDiagnostic| d@)
}

/// Apply one line to `index`.
pub fn apply_line(
    index: &mut BindingIndex,
    registry: &ActionRegistry,
    line: &PanelLine,
    owner: &MappingOwner,
) -> (r: Result<(), RuleReject>)
    requires
        old(index).wf(),
        registry.wf(),
        old(index)@.slots.len() < u32::MAX,
        old(index)@.arena.len() < u32::MAX,
    ensures
        final(index).wf(),
        final(index)@ == line_applied(old(index)@, *line, registry@, owner@).0,
        match (r, line_applied(old(index)@, *line, registry@, owner@).1) {
            (Ok(_), None) => true,
            (Err(e), Some(want)) => e@ == want,
            _ => false,
        },
        final(index)@.slots.len() <= old(index)@.slots.len() + 1,
        final(index)@.arena.len() <= old(index)@.arena.len() + 1,
        final(index)@.forest == old(index)@.forest,
{
    match line {
        PanelLine::Blank => Ok(()),
        PanelLine::Fault(e) => Err(RuleReject::Parse(e.copy())),
        PanelLine::Bind { map, grammar } => match rule_from(map, registry, index.forest(), owner) {
            Ok(rule) => index.try_insert(rule, registry, *grammar),
            Err(e) => Err(e),
        },
        PanelLine::Unmap { surface, lhs } => {
            let declared = index.forest().get(as_text(surface)).is_some();
            if declared {
                let _ = index.remove(as_text(surface), lhs.as_slice());
                Ok(())
            } else {
                Err(RuleReject::UnknownSurface(surface.clone()))
            }
        },
    }
}

/// Apply a block of configuration lines to `index`, and say which did not load.
///
/// The single code path for both layers: shipped defaults and the user's own
/// text. A line that does not load is skipped.
pub fn load_lines(
    index: &mut BindingIndex,
    registry: &ActionRegistry,
    lines: &[PanelLine],
    owner: &MappingOwner,
    source: &str,
) -> (r: Vec<PanelDiagnostic>)
    requires
        old(index).wf(),
        registry.wf(),
        old(index)@.slots.len() + lines@.len() < u32::MAX,
        old(index)@.arena.len() + lines@.len() < u32::MAX,
    ensures
        final(index).wf(),
        final(index)@ == lines_applied(
            old(index)@,
            lines@,
            lines@.len() as int,
            registry@,
            owner@,
        ),
        diagnostic_views(r@) == lines_rejected(
            old(index)@,
            lines@,
            lines@.len() as int,
            registry@,
            owner@,
            source@,
        ),
        final(index)@.slots.len() <= old(index)@.slots.len() + lines@.len(),
        final(index)@.arena.len() <= old(index)@.arena.len() + lines@.len(),
{
    let ghost start = index@;
    let mut rejected: Vec<PanelDiagnostic> = Vec::new();
    let mut i: usize = 0;
    assert(diagnostic_views(rejected@) =~= Seq::empty());
    while i < lines.len()
        invariant
            i <= lines@.len(),
            index.wf(),
            registry.wf(),
            start == old(index)@,
            index@ == lines_applied(start, lines@, i as int, registry@, owner@),
            index@.slots.len() <= start.slots.len() + i,
            index@.arena.len() <= start.arena.len() + i,
            start.slots.len() + lines@.len() < u32::MAX,
            start.arena.len() + lines@.len() < u32::MAX,
            diagnostic_views(rejected@) == lines_rejected(
                start,
                lines@,
                i as int,
                registry@,
                owner@,
                source@,
            ),
        decreases lines@.len() - i,
    {
        let outcome = apply_line(index, registry, &lines[i], owner);
        if let Err(reject) = outcome {
            let diagnostic = PanelDiagnostic {
                line: Some((i + 1) as u32),
                source: compact_from(source),
                reject,
            };
            let ghost d = diagnostic@;
            let ghost prior = rejected@;
            rejected.push(diagnostic);
            assert(diagnostic_views(rejected@) =~= diagnostic_views(prior).push(d));
        }
        i = i + 1;
    }
    rejected
}

// ── Reading text ──────────────────────────────────────────────────────

/// Whether `read` can make this line of a text.
pub open spec fn read_as<F: Fn(&str) -> PanelLine>(
    read: F,
    text: Seq<char>,
    line: PanelLine,
) -> bool {
    exists|s: &str| s@ == text && #[trigger] call_ensures(read, (s,), line)
}

/// Whether `read` can make these lines of these texts.
pub open spec fn reads<F: Fn(&str) -> PanelLine>(
    read: F,
    texts: Seq<Seq<char>>,
    lines: Seq<PanelLine>,
) -> bool {
    &&& texts.len() == lines.len()
    &&& forall|i: int| 0 <= i < lines.len() ==> read_as(read, texts[i], #[trigger] lines[i])
}

/// Read every line of a text.
fn read_lines<F: Fn(&str) -> PanelLine>(text: &str, read: &F) -> (r: Vec<PanelLine>)
    requires
        forall|line: &str| #[trigger] call_requires(*read, (line,)),
    ensures
        reads(*read, text::lines_of(text@), r@),
{
    let texts = text::split_lines(text);
    let mut lines: Vec<PanelLine> = Vec::new();
    let mut i: usize = 0;
    while i < texts.len()
        invariant
            i <= texts@.len(),
            lines@.len() == i,
            text::contents(texts@) == text::lines_of(text@),
            forall|line: &str| #[trigger] call_requires(*read, (line,)),
            forall|j: int|
                0 <= j < i ==> read_as(*read, text::lines_of(text@)[j], #[trigger] lines@[j]),
        decreases texts@.len() - i,
    {
        let words: &str = texts[i].as_str();
        assert(text::contents(texts@)[i as int] == words@);
        let line = (*read)(words);
        lines.push(line);
        i = i + 1;
    }
    lines
}

/// What applying a text does, where `lines` is what its lines read as.
pub open spec fn text_applied(
    before: IndexView,
    after: IndexView,
    lines: Seq<PanelLine>,
    registry: Seq<ActionSpec>,
    owner: OwnerView,
    source: Seq<char>,
    rejected: Seq<DiagnosticView>,
) -> bool {
    let n = lines.len() as int;
    &&& after == lines_applied(before, lines, n, registry, owner)
    &&& rejected == lines_rejected(before, lines, n, registry, owner, source)
}

/// Apply a block of configuration text to `index`, and say which lines did not
/// load.
///
/// `read` is the reader of one line. A line that does not load is skipped.
pub fn load_text<F: Fn(&str) -> PanelLine>(
    index: &mut BindingIndex,
    registry: &ActionRegistry,
    text: &str,
    read: F,
    owner: &MappingOwner,
    source: &str,
) -> (r: Vec<PanelDiagnostic>)
    requires
        old(index).wf(),
        registry.wf(),
        forall|line: &str| #[trigger] call_requires(read, (line,)),
        old(index)@.slots.len() + text::lines_of(text@).len() < u32::MAX,
        old(index)@.arena.len() + text::lines_of(text@).len() < u32::MAX,
    ensures
        final(index).wf(),
        exists|lines: Seq<PanelLine>|
            {
                &&& #[trigger] reads(read, text::lines_of(text@), lines)
                &&& text_applied(
                    old(index)@,
                    final(index)@,
                    lines,
                    registry@,
                    owner@,
                    source@,
                    diagnostic_views(r@),
                )
            },
{
    let lines = read_lines(text, &read);
    let r = load_lines(index, registry, lines.as_slice(), owner, source);
    assert(reads(read, text::lines_of(text@), lines@));
    r
}

/// Whether every line of a text loads, whatever `read` makes of it.
pub open spec fn always_loads<F: Fn(&str) -> PanelLine>(
    read: F,
    v: IndexView,
    text: Seq<char>,
    registry: Seq<ActionSpec>,
    owner: OwnerView,
    source: Seq<char>,
) -> bool {
    forall|lines: Seq<PanelLine>| #[trigger]
        reads(read, text::lines_of(text), lines) ==> lines_rejected(
            v,
            lines,
            lines.len() as int,
            registry,
            owner,
            source,
        ).len() == 0
}

/// Apply a block of configuration text to `index`.
///
/// `read` is the reader of one line. Where the user wrote the text, a line that
/// does not load is skipped, and its diagnostic is added to `diagnostics`.
/// Where the text ships, every line must load: one that does not is a
/// programming error, which [`load_text`] tells beforehand.
pub fn apply_text<F: Fn(&str) -> PanelLine>(
    index: &mut BindingIndex,
    registry: &ActionRegistry,
    text: &str,
    read: F,
    owner: &MappingOwner,
    source: &str,
    provenance: Provenance,
    diagnostics: &mut Vec<PanelDiagnostic>,
)
    requires
        old(index).wf(),
        registry.wf(),
        forall|line: &str| #[trigger] call_requires(read, (line,)),
        old(index)@.slots.len() + text::lines_of(text@).len() < u32::MAX,
        old(index)@.arena.len() + text::lines_of(text@).len() < u32::MAX,
        provenance is Builtin ==> always_loads(
            read,
            old(index)@,
            text@,
            registry@,
            owner@,
            source@,
        ),
    ensures
        final(index).wf(),
        exists|lines: Seq<PanelLine>, rejected: Seq<DiagnosticView>|
            {
                &&& #[trigger] reads(read, text::lines_of(text@), lines)
                &&& #[trigger] text_applied(
                    old(index)@,
                    final(index)@,
                    lines,
                    registry@,
                    owner@,
                    source@,
                    rejected,
                )
                &&& diagnostic_views(final(diagnostics)@) == diagnostic_views(old(diagnostics)@)
                    + rejected
                &&& provenance is Builtin ==> rejected.len() == 0
            },
        provenance is Builtin ==> final(diagnostics)@ == old(diagnostics)@,
{
    let ghost before = index@;
    let lines = read_lines(text, &read);
    let mut found = load_lines(index, registry, lines.as_slice(), owner, source);
    let ghost rejected = diagnostic_views(found@);
    assert(reads(read, text::lines_of(text@), lines@));
    assert(text_applied(before, index@, lines@, registry@, owner@, source@, rejected));
    let ghost kept = diagnostics@;
    let ghost added = found@;
    assert(rejected.len() == added.len());
    diagnostics.append(&mut found);
    proof {
        assert(diagnostics@ =~= kept + added);
        assert(diagnostic_views(diagnostics@) =~= diagnostic_views(kept) + rejected);
        if provenance is Builtin {
            assert(diagnostics@ =~= kept);
        }
    }
}

// ── The builtin layer ─────────────────────────────────────────────────

/// The index that the first `n` providers' blocks make, each owned by its
/// provider.
pub open spec fn blocks_applied(
    v: IndexView,
    blocks: Seq<Seq<PanelLine>>,
    n: int,
    registry: Seq<ActionSpec>,
) -> IndexView
    decreases n,
{
    if n <= 0 {
        v
    } else {
        lines_applied(
            blocks_applied(v, blocks, n - 1, registry),
            blocks[n - 1],
            blocks[n - 1].len() as int,
            registry,
            OwnerView::Host(providers::shipped_providers()[n - 1].tag@),
        )
    }
}

/// The diagnostics of the first `n` providers' blocks.
pub open spec fn blocks_rejected(
    v: IndexView,
    blocks: Seq<Seq<PanelLine>>,
    n: int,
    registry: Seq<ActionSpec>,
) -> Seq<DiagnosticView>
    decreases n,
{
    if n <= 0 {
        Seq::empty()
    } else {
        let tag = providers::shipped_providers()[n - 1].tag@;
        blocks_rejected(v, blocks, n - 1, registry) + lines_rejected(
            blocks_applied(v, blocks, n - 1, registry),
            blocks[n - 1],
            blocks[n - 1].len() as int,
            registry,
            OwnerView::Host(tag),
            tag,
        )
    }
}

/// An index without rules over the shipped forest.
pub open spec fn shipped_empty() -> IndexView {
    IndexView {
        surfaces: Seq::empty(),
        arena: Seq::empty(),
        slots: Seq::empty(),
        forest: providers::shipped_surfaces(),
        generation: 0,
    }
}

/// Whether `read` can make these blocks of the providers' default texts.
pub open spec fn defaults_read<F: Fn(&str) -> PanelLine>(
    read: F,
    blocks: Seq<Seq<PanelLine>>,
) -> bool {
    let shipped = providers::shipped_providers();
    &&& blocks.len() == shipped.len()
    &&& forall|i: int|
        0 <= i < blocks.len() ==> reads(
            read,
            text::lines_of(shipped[i].defaults@),
            #[trigger] blocks[i],
        )
}

/// Load every provider's defaults, in provider order, and say which lines did
/// not load.
///
/// `read` is the reader of one line.
pub fn load_defaults<F: Fn(&str) -> PanelLine>(registry: &ActionRegistry, read: F) -> (r: (
    BindingIndex,
    Vec<PanelDiagnostic>,
))
    requires
        registry.wf(),
        forall|line: &str| #[trigger] call_requires(read, (line,)),
    ensures
        r.0.wf(),
        exists|blocks: Seq<Seq<PanelLine>>|
            {
                let n = blocks.len() as int;
                &&& #[trigger] defaults_read(read, blocks)
                &&& r.0@ == blocks_applied(shipped_empty(), blocks, n, registry@)
                &&& diagnostic_views(r.1@) == blocks_rejected(
                    shipped_empty(),
                    blocks,
                    n,
                    registry@,
                )
            },
{
    let mut index = BindingIndex::new(providers::forest());
    let tags = providers::providers();
    let mut failures: Vec<PanelDiagnostic> = Vec::new();
    let ghost mut blocks: Seq<Seq<PanelLine>> = Seq::empty();
    let mut i: usize = 0;
    assert(diagnostic_views(failures@) =~= Seq::empty());
    while i < tags.len()
        invariant
            i <= tags@.len(),
            tags@ == providers::shipped_providers(),
            forall|line: &str| #[trigger] call_requires(read, (line,)),
            registry.wf(),
            index.wf(),
            blocks.len() == i,
            forall|j: int|
                0 <= j < i ==> reads(
                    read,
                    text::lines_of(tags@[j].defaults@),
                    #[trigger] blocks[j],
                ),
            index@ == blocks_applied(shipped_empty(), blocks, i as int, registry@),
            diagnostic_views(failures@) == blocks_rejected(
                shipped_empty(),
                blocks,
                i as int,
                registry@,
            ),
            index@.slots.len() <= 1000 * i,
            index@.arena.len() <= 1000 * i,
        decreases tags@.len() - i,
    {
        proof {
            providers::defaults_are_short(i as int);
            text::lines_are_no_more_than_characters(tags@[i as int].defaults@);
        }
        let lines = read_lines(tags[i].defaults, &read);
        let owner = MappingOwner::Host(compact_from(tags[i].tag));
        let ghost before = blocks;
        proof {
            blocks = blocks.push(lines@);
            blocks_before_agree(shipped_empty(), before, blocks, i as int, registry@);
        }
        let mut failed = load_lines(
            &mut index,
            registry,
            lines.as_slice(),
            &owner,
            tags[i].tag,
        );
        let ghost prior = failures@;
        let ghost added = failed@;
        failures.append(&mut failed);
        assert(diagnostic_views(failures@) =~= diagnostic_views(prior) + diagnostic_views(added));
        i = i + 1;
    }
    assert(defaults_read(read, blocks));
    (index, failures)
}

/// Whether every shipped default loads, whatever `read` makes of its lines.
pub open spec fn defaults_load<F: Fn(&str) -> PanelLine>(
    read: F,
    registry: Seq<ActionSpec>,
) -> bool {
    forall|blocks: Seq<Seq<PanelLine>>| #[trigger]
        defaults_read(read, blocks) ==> blocks_rejected(
            shipped_empty(),
            blocks,
            blocks.len() as int,
            registry,
        ).len() == 0
}

/// Build the builtin layer: every provider's defaults, in provider order.
///
/// `read` is the reader of one line. The user's own text is applied on top by
/// the caller, last writer wins: the defaults load whether or not there is
/// any. Every default must load: one that does not is a programming error,
/// which [`load_defaults`] tells.
pub fn builtin_index<F: Fn(&str) -> PanelLine>(registry: &ActionRegistry, read: F) -> (r:
    BindingIndex)
    requires
        registry.wf(),
        forall|line: &str| #[trigger] call_requires(read, (line,)),
        defaults_load(read, registry@),
    ensures
        r.wf(),
        exists|blocks: Seq<Seq<PanelLine>>|
            {
                let n = blocks.len() as int;
                &&& #[trigger] defaults_read(read, blocks)
                &&& r@ == blocks_applied(shipped_empty(), blocks, n, registry@)
                &&& blocks_rejected(shipped_empty(), blocks, n, registry@).len() == 0
            },
{
    load_defaults(registry, read).0
}

/// What the first blocks make does not depend on the blocks after them.
proof fn blocks_before_agree(
    v: IndexView,
    a: Seq<Seq<PanelLine>>,
    b: Seq<Seq<PanelLine>>,
    n: int,
    registry: Seq<ActionSpec>,
)
    requires
        0 <= n <= a.len(),
        n <= b.len(),
        forall|i: int| 0 <= i < n ==> a[i] == b[i],
    ensures
        blocks_applied(v, a, n, registry) == blocks_applied(v, b, n, registry),
        blocks_rejected(v, a, n, registry) == blocks_rejected(v, b, n, registry),
    decreases n,
{
    if n > 0 {
        blocks_before_agree(v, a, b, n - 1, registry);
    }
}

} // verus!
