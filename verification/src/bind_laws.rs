//! What every operation on the binding index keeps, and what follows.

use vstd::prelude::*;
use crate::action::{ActionSpec, TargetView};
use crate::bind;
use crate::bind::{DiagnosticView, IndexView, OwnerView, PanelLine, RejectView, RuleView, SurfaceView};
use crate::key::KeyEvent;
use crate::providers;
use crate::search;
use crate::surface;
use crate::surface::{Seal, SurfaceSpec};
use crate::text;
use crate::trie;
use crate::trie::{EntryView, LookupView, TrieView};

verus! {

// ── The invariant ─────────────────────────────────────────────────────

/// Whether a surface has a live left-hand side at a place.
pub open spec fn listed(v: IndexView, s: int, i: int) -> bool {
    0 <= s < v.surfaces.len() && 0 <= i < v.surfaces[s].slot_of.len()
}

/// The left-hand side at a place of a surface.
pub open spec fn lhs_at(v: IndexView, s: int, i: int) -> Seq<KeyEvent> {
    v.surfaces[s].slot_of[i].0
}

/// The slot of the left-hand side at a place of a surface.
pub open spec fn slot_at(v: IndexView, s: int, i: int) -> u32 {
    v.surfaces[s].slot_of[i].1
}

/// Whether a listed left-hand side names a live rule for exactly its surface
/// and left-hand side.
pub open spec fn is_live(v: IndexView, s: int, i: int) -> bool {
    v.rule_at(slot_at(v, s, i)) matches Some(rule) && rule.surface == v.surfaces[s].id && rule.lhs
        == lhs_at(v, s, i)
}

/// Whether a slot is the one of some listed left-hand side.
pub open spec fn is_owned(v: IndexView, k: int) -> bool {
    exists|s: int, i: int| #[trigger] listed(v, s, i) && slot_at(v, s, i) == k
}

/// Whether a surface's table agrees with its listed left-hand sides: every
/// listed one of several keys is mapped to its slot, and nothing else of
/// several keys is mapped.
pub open spec fn table_agrees(v: IndexView, s: int) -> bool {
    let b = v.surfaces[s];
    &&& forall|keys: Seq<KeyEvent>| #[trigger]
        b.trie.dom().contains(keys) && keys.len() != 1 ==> bind::lhs_place(
            b.slot_of,
            keys,
        ) is Some
    &&& forall|i: int|
        listed(v, s, i) && lhs_at(v, s, i).len() != 1 ==> {
            &&& b.trie.dom().contains(#[trigger] lhs_at(v, s, i))
            &&& bind::slot_carried(b.trie[lhs_at(v, s, i)]) == Some(slot_at(v, s, i))
        }
}

/// The invariant of the index: a surface is listed once, a left-hand side once
/// per surface, a slot once and in order; the listed slots are exactly the live
/// ones, each naming a rule for its own surface and left-hand side; and the
/// tables agree.
pub open spec fn index_wf(v: IndexView) -> bool {
    &&& v.arena.len() <= u32::MAX
    &&& forall|s: int, t: int|
        0 <= s < t < v.surfaces.len() ==> (#[trigger] v.surfaces[s]).id != (
        #[trigger] v.surfaces[t]).id
    &&& forall|s: int, i: int, j: int|
        #![trigger listed(v, s, i), listed(v, s, j)]
        listed(v, s, i) && listed(v, s, j) && i != j ==> lhs_at(v, s, i) != lhs_at(v, s, j)
    &&& forall|s: int, i: int, t: int, j: int|
        #![trigger listed(v, s, i), listed(v, t, j)]
        listed(v, s, i) && listed(v, t, j) && slot_at(v, s, i) == slot_at(v, t, j) ==> s == t && i
            == j
    &&& forall|s: int, i: int, j: int|
        #![trigger slot_at(v, s, i), slot_at(v, s, j)]
        listed(v, s, i) && listed(v, s, j) && i < j ==> slot_at(v, s, i) < slot_at(v, s, j)
    &&& forall|s: int, i: int| #[trigger] listed(v, s, i) ==> is_live(v, s, i)
    &&& forall|k: int|
        0 <= k < v.slots.len() && (#[trigger] v.slots[k]) is Some ==> is_owned(v, k)
    &&& forall|s: int| 0 <= s < v.surfaces.len() ==> #[trigger] table_agrees(v, s)
}

/// An index without rules keeps the invariant.
pub proof fn empty_index_is_well_formed(v: IndexView)
    requires
        v.surfaces.len() == 0,
        v.slots.len() == 0,
        v.arena.len() == 0,
    ensures
        index_wf(v),
{
}

/// The count of rebuilds is no part of the invariant.
pub proof fn generations_do_not_matter(v: IndexView, generation: u64)
    requires
        index_wf(v),
    ensures
        index_wf(IndexView { generation, ..v }),
{
    let u = IndexView { generation, ..v };
    assert forall|s: int, i: int| #[trigger] listed(u, s, i) implies listed(v, s, i) && is_live(
        u,
        s,
        i,
    ) by {
        assert(listed(v, s, i));
        assert(is_live(v, s, i));
    }
    assert forall|s: int, i: int, j: int|
        #![trigger slot_at(u, s, i), slot_at(u, s, j)]
        listed(u, s, i) && listed(u, s, j) && i < j implies slot_at(u, s, i) < slot_at(
        u,
        s,
        j,
    ) by {
        assert(slot_at(v, s, i) < slot_at(v, s, j));
    }
    assert forall|k: int| 0 <= k < u.slots.len() && (#[trigger] u.slots[k]) is Some implies is_owned(
        u,
        k,
    ) by {
        assert(is_owned(v, k));
        let (s, i) = choose|s: int, i: int| #[trigger] listed(v, s, i) && slot_at(v, s, i) == k;
        assert(listed(u, s, i));
    }
    assert forall|s: int| 0 <= s < u.surfaces.len() implies #[trigger] table_agrees(u, s) by {
        assert(table_agrees(v, s));
        assert forall|i: int| listed(u, s, i) && lhs_at(u, s, i).len() != 1 implies {
            &&& u.surfaces[s].trie.dom().contains(#[trigger] lhs_at(u, s, i))
            &&& bind::slot_carried(u.surfaces[s].trie[lhs_at(u, s, i)]) == Some(slot_at(u, s, i))
        } by {
            assert(lhs_at(v, s, i) == lhs_at(u, s, i));
        }
    }
}

/// What the place of a left-hand side means.
proof fn lhs_place_is_first(slot_of: Seq<(Seq<KeyEvent>, u32)>, lhs: Seq<KeyEvent>)
    ensures
        match bind::lhs_place(slot_of, lhs) {
            Some(i) => {
                &&& 0 <= i < slot_of.len()
                &&& slot_of[i].0 == lhs
                &&& forall|j: int| 0 <= j < i ==> (#[trigger] slot_of[j]).0 != lhs
            },
            None => forall|j: int| 0 <= j < slot_of.len() ==> (#[trigger] slot_of[j]).0 != lhs,
        },
{
    let p = bind::of_lhs(lhs);
    search::first_where_is_first(slot_of, p);
    match bind::lhs_place(slot_of, lhs) {
        Some(i) => {
            assert forall|j: int| 0 <= j < i implies (#[trigger] slot_of[j]).0 != lhs by {
                assert(!p(slot_of[j]));
            }
        },
        None => {
            assert forall|j: int| 0 <= j < slot_of.len() implies (#[trigger] slot_of[j]).0
                != lhs by {
                assert(!p(slot_of[j]));
            }
        },
    }
}

/// What the place of a surface means.
proof fn place_is_first(v: IndexView, id: Seq<char>)
    ensures
        match v.place(id) {
            Some(s) => {
                &&& 0 <= s < v.surfaces.len()
                &&& v.surfaces[s].id == id
                &&& forall|j: int| 0 <= j < s ==> (#[trigger] v.surfaces[j]).id != id
            },
            None => forall|j: int| 0 <= j < v.surfaces.len() ==> (#[trigger] v.surfaces[j]).id
                != id,
        },
{
    let p = bind::of_surface(id);
    search::first_where_is_first(v.surfaces, p);
    match v.place(id) {
        Some(s) => {
            assert forall|j: int| 0 <= j < s implies (#[trigger] v.surfaces[j]).id != id by {
                assert(!p(v.surfaces[j]));
            }
        },
        None => {
            assert forall|j: int| 0 <= j < v.surfaces.len() implies (#[trigger] v.surfaces[j]).id
                != id by {
                assert(!p(v.surfaces[j]));
            }
        },
    }
}

/// Place of a listed left-hand side.
proof fn listed_place(v: IndexView, s: int, i: int)
    requires
        index_wf(v),
        listed(v, s, i),
    ensures
        bind::lhs_place(v.surfaces[s].slot_of, lhs_at(v, s, i)) == Some(i),
        v.place(v.surfaces[s].id) == Some(s),
{
    lhs_place_is_first(v.surfaces[s].slot_of, lhs_at(v, s, i));
    let at = bind::lhs_place(v.surfaces[s].slot_of, lhs_at(v, s, i))->0;
    assert(listed(v, s, at));
    surface_place(v, s);
}

/// Place of a surface.
proof fn surface_place(v: IndexView, s: int)
    requires
        index_wf(v),
        0 <= s < v.surfaces.len(),
    ensures
        v.place(v.surfaces[s].id) == Some(s),
{
    place_is_first(v, v.surfaces[s].id);
    let t = v.place(v.surfaces[s].id)->0;
    if t < s {
        assert(v.surfaces[t].id != v.surfaces[s].id);
    }
}

// ── Installing ────────────────────────────────────────────────────────

/// The bindings of a surface before a rule is installed there.
pub open spec fn base_of(v: IndexView, id: Seq<char>) -> SurfaceView {
    v.with_surface(id).surfaces[v.at(id)]
}

/// The bindings of a surface once a rule is installed there.
pub open spec fn bound(v: IndexView, rule: RuleView) -> SurfaceView {
    let b = base_of(v, rule.surface);
    let slot = v.slot_for(rule.surface, rule.lhs);
    let entry = bind::entry_for(slot, rule.nowait);
    let trie = b.trie.insert(rule.lhs, entry);
    SurfaceView {
        id: b.id,
        trie: match bind::shift_twin(rule.lhs) {
            Some(twin) => if rule.shift_tolerant {
                trie.insert(twin, entry)
            } else {
                trie
            },
            None => trie,
        },
        slot_of: match bind::lhs_place(b.slot_of, rule.lhs) {
            Some(_) => b.slot_of,
            None => b.slot_of.push((rule.lhs, slot)),
        },
    }
}

/// The slots with one for a rule's left-hand side.
pub open spec fn slots_grown(v: IndexView, rule: RuleView) -> Seq<Option<u32>> {
    match bind::lhs_place(base_of(v, rule.surface).slot_of, rule.lhs) {
        Some(_) => v.slots,
        None => v.slots.push(None),
    }
}

/// The slots once a rule is installed.
pub open spec fn slots_bound(v: IndexView, rule: RuleView) -> Seq<Option<u32>> {
    slots_grown(v, rule).update(
        v.slot_for(rule.surface, rule.lhs) as int,
        Some(v.arena.len() as u32),
    )
}

/// Adding a surface's bindings gives them a place and an id.
proof fn with_surface_place(v: IndexView, id: Seq<char>)
    ensures
        0 <= v.at(id) < v.with_surface(id).surfaces.len(),
        v.with_surface(id).place(id) == Some(v.at(id)),
        base_of(v, id).id == id,
        v.at(id) < v.surfaces.len() ==> v.with_surface(id) == v && v.place(id) == Some(v.at(id)),
        v.at(id) >= v.surfaces.len() ==> base_of(v, id).slot_of.len() == 0 && base_of(v, id).trie
            == Map::<Seq<KeyEvent>, EntryView>::empty(),
{
    place_is_first(v, id);
    if v.place(id) is None {
        let p = bind::of_surface(id);
        let fresh = SurfaceView { id, trie: Map::empty(), slot_of: Seq::empty() };
        search::first_where_pushed(v.surfaces, fresh, p);
    }
}

/// Replacing a surface's bindings by some of the same id moves no surface.
proof fn same_ids_same_place(v: IndexView, i: int, b: SurfaceView, id: Seq<char>)
    requires
        0 <= i < v.surfaces.len(),
        b.id == v.surfaces[i].id,
    ensures
        v.with_bindings(i, b).place(id) == v.place(id),
{
    let p = bind::of_surface(id);
    search::first_where_agrees(v.with_bindings(i, b).surfaces, v.surfaces, p);
}

/// What installing a rule comes to: one surface's bindings, one slot and one
/// arena place change.
proof fn upserted_is(v: IndexView, rule: RuleView)
    requires
        v.slots.len() < u32::MAX,
        v.slot_for(rule.surface, rule.lhs) < slots_grown(v, rule).len(),
    ensures
        v.upserted(rule) == (IndexView {
            surfaces: v.with_surface(rule.surface).surfaces.update(
                v.at(rule.surface),
                bound(v, rule),
            ),
            arena: v.arena.push(rule),
            slots: slots_bound(v, rule),
            forest: v.forest,
            generation: v.generation,
        }),
{
    let id = rule.surface;
    let lhs = rule.lhs;
    let slot = v.slot_for(id, lhs);
    let entry = bind::entry_for(slot, rule.nowait);
    let i = v.at(id);
    with_surface_place(v, id);
    let w = v.with_surface(id);
    let b = base_of(v, id);
    let v1 = v.with_slot(id, lhs);
    let b1 = SurfaceView { slot_of: bound(v, rule).slot_of, ..b };
    assert(v1.surfaces =~= w.surfaces.update(i, b1));
    same_ids_same_place(w, i, b1, id);
    assert(w.with_bindings(i, b1).surfaces =~= v1.surfaces);
    assert(v1.place(id) == Some(i));
    let live = IndexView { slots: slots_bound(v, rule), ..v1 };
    assert(live.surfaces == v1.surfaces);
    assert(live.place(id) == Some(i));
    let b2 = SurfaceView { trie: b.trie.insert(lhs, entry), ..b1 };
    let mapped = live.with_entry(id, lhs, entry);
    assert(mapped.surfaces =~= w.surfaces.update(i, b2));
    same_ids_same_place(live, i, b2, id);
    assert(mapped.surfaces =~= live.with_bindings(i, b2).surfaces);
    assert(mapped.place(id) == Some(i));
    let up = v.upserted(rule);
    match bind::shift_twin(lhs) {
        Some(twin) => if rule.shift_tolerant {
            assert(up.surfaces =~= w.surfaces.update(i, bound(v, rule)));
        } else {
            assert(bound(v, rule) == b2);
            assert(up.surfaces =~= w.surfaces.update(i, bound(v, rule)));
        },
        None => {
            assert(bound(v, rule) == b2);
            assert(up.surfaces =~= w.surfaces.update(i, bound(v, rule)));
        },
    }
    assert(v1.slots =~= slots_grown(v, rule));
    assert(up.slots =~= slots_bound(v, rule));
}

/// The slot of an installed rule is within the slots.
proof fn slot_is_within(v: IndexView, rule: RuleView)
    requires
        index_wf(v),
        v.slots.len() < u32::MAX,
    ensures
        v.slot_for(rule.surface, rule.lhs) < slots_grown(v, rule).len(),
        match bind::lhs_place(base_of(v, rule.surface).slot_of, rule.lhs) {
            Some(at) => {
                &&& v.at(rule.surface) < v.surfaces.len()
                &&& listed(v, v.at(rule.surface), at)
                &&& lhs_at(v, v.at(rule.surface), at) == rule.lhs
                &&& slot_at(v, v.at(rule.surface), at) == v.slot_for(rule.surface, rule.lhs)
            },
            None => v.slot_for(rule.surface, rule.lhs) == v.slots.len(),
        },
{
    with_surface_place(v, rule.surface);
    let b = base_of(v, rule.surface);
    lhs_place_is_first(b.slot_of, rule.lhs);
    if let Some(at) = bind::lhs_place(b.slot_of, rule.lhs) {
        assert(listed(v, v.at(rule.surface), at));
        assert(is_live(v, v.at(rule.surface), at));
    }
}

/// Installing a rule keeps the invariant.
pub proof fn upsert_keeps_the_invariant(v: IndexView, rule: RuleView)
    requires
        index_wf(v),
        v.slots.len() < u32::MAX,
        v.arena.len() < u32::MAX,
    ensures
        index_wf(v.upserted(rule)),
{
    let id = rule.surface;
    let n = v.at(id);
    let slot = v.slot_for(id, rule.lhs);
    slot_is_within(v, rule);
    upserted_is(v, rule);
    with_surface_place(v, id);
    let b = base_of(v, id);
    let u = v.upserted(rule);
    lhs_place_is_first(b.slot_of, rule.lhs);
    let fresh = bind::lhs_place(b.slot_of, rule.lhs) is None;
    // Every listed place of the new index is one of the old, or the new one.
    assert forall|s: int, i: int| #[trigger] listed(u, s, i) implies (listed(v, s, i) && lhs_at(
        u,
        s,
        i,
    ) == lhs_at(v, s, i) && slot_at(u, s, i) == slot_at(v, s, i) && !(fresh && s == n && i
        == b.slot_of.len())) || (fresh && s == n && i == b.slot_of.len() && lhs_at(u, s, i)
        == rule.lhs && slot_at(u, s, i) == slot) by {
        if s != n {
            assert(u.surfaces[s] == v.surfaces[s]);
        }
    }
    assert forall|s: int, i: int| #[trigger] listed(v, s, i) implies listed(u, s, i) && lhs_at(
        u,
        s,
        i,
    ) == lhs_at(v, s, i) && slot_at(u, s, i) == slot_at(v, s, i) by {
        if s != n {
            assert(u.surfaces[s] == v.surfaces[s]);
        }
    }
    assert forall|s: int, t: int| 0 <= s < t < u.surfaces.len() implies (
    #[trigger] u.surfaces[s]).id != (#[trigger] u.surfaces[t]).id by {
        place_is_first(v, id);
        if s != n {
            assert(u.surfaces[s] == v.surfaces[s]);
        }
        if t != n {
            assert(u.surfaces[t] == v.surfaces[t]);
        }
        if n < v.surfaces.len() {
            assert(v.surfaces[s].id != v.surfaces[t].id);
        }
    }
    assert forall|s: int, i: int, j: int|
        #![trigger listed(u, s, i), listed(u, s, j)]
        listed(u, s, i) && listed(u, s, j) && i != j implies lhs_at(u, s, i) != lhs_at(u, s, j) by {
        if fresh && s == n {
            if i == b.slot_of.len() {
                assert(b.slot_of[j].0 != rule.lhs);
            }
            if j == b.slot_of.len() {
                assert(b.slot_of[i].0 != rule.lhs);
            }
        }
    }
    assert forall|s: int, i: int| listed(v, s, i) implies slot_at(v, s, i) < v.slots.len() by {
        assert(is_live(v, s, i));
    }
    assert forall|s: int, i: int, t: int, j: int|
        #![trigger listed(u, s, i), listed(u, t, j)]
        listed(u, s, i) && listed(u, t, j) && slot_at(u, s, i) == slot_at(u, t, j) implies s == t
        && i == j by {
        if !(fresh && s == n && i == b.slot_of.len()) && !(fresh && t == n && j
            == b.slot_of.len()) {
            assert(listed(v, s, i) && listed(v, t, j));
        }
    }
    assert forall|s: int, i: int, j: int|
        #![trigger slot_at(u, s, i), slot_at(u, s, j)]
        listed(u, s, i) && listed(u, s, j) && i < j implies slot_at(u, s, i) < slot_at(
        u,
        s,
        j,
    ) by {
        assert(listed(v, s, i));
        if listed(v, s, j) {
            assert(slot_at(v, s, i) < slot_at(v, s, j));
        }
    }
    assert forall|s: int, i: int| #[trigger] listed(u, s, i) implies is_live(u, s, i) by {
        if slot_at(u, s, i) == slot {
            if fresh {
                assert(s == n && i == b.slot_of.len());
            } else {
                let at = bind::lhs_place(b.slot_of, rule.lhs)->0;
                assert(listed(v, n, at) && listed(v, s, i));
                assert(s == n && i == at);
            }
            assert(u.slots[slot as int] == Some(v.arena.len() as u32));
            assert(u.arena[v.arena.len() as int] == rule);
        } else {
            assert(listed(v, s, i));
            assert(is_live(v, s, i));
            let k = slot_at(v, s, i);
            assert(u.slots[k as int] == v.slots[k as int]);
            let a = v.slots[k as int]->0;
            assert(u.arena[a as int] == v.arena[a as int]);
            if s != n {
                assert(u.surfaces[s] == v.surfaces[s]);
            }
        }
    }
    assert forall|k: int| 0 <= k < u.slots.len() && (#[trigger] u.slots[k]) is Some implies is_owned(
        u,
        k,
    ) by {
        if k == slot {
            if fresh {
                assert(listed(u, n, b.slot_of.len() as int));
            } else {
                assert(listed(u, n, bind::lhs_place(b.slot_of, rule.lhs)->0));
            }
        } else {
            assert(u.slots[k] == v.slots[k]);
            assert(is_owned(v, k));
            let (s, i) = choose|s: int, i: int| #[trigger] listed(v, s, i) && slot_at(v, s, i) == k;
            assert(listed(u, s, i));
        }
    }
    assert forall|s: int| 0 <= s < u.surfaces.len() implies #[trigger] table_agrees(u, s) by {
        if s != n {
            assert(u.surfaces[s] == v.surfaces[s]);
            assert(table_agrees(v, s));
            assert forall|i: int| listed(u, s, i) && lhs_at(u, s, i).len() != 1 implies {
                &&& u.surfaces[s].trie.dom().contains(#[trigger] lhs_at(u, s, i))
                &&& bind::slot_carried(u.surfaces[s].trie[lhs_at(u, s, i)]) == Some(
                    slot_at(u, s, i),
                )
            } by {
                assert(listed(v, s, i));
                assert(lhs_at(v, s, i) == lhs_at(u, s, i));
            }
        } else {
            table_agrees_after_upsert(v, rule);
        }
    }
}

/// The table that a rule was put into agrees with its listed left-hand sides.
proof fn table_agrees_after_upsert(v: IndexView, rule: RuleView)
    requires
        index_wf(v),
        v.slots.len() < u32::MAX,
        v.arena.len() < u32::MAX,
    ensures
        table_agrees(v.upserted(rule), v.at(rule.surface)),
{
    let id = rule.surface;
    let n = v.at(id);
    let slot = v.slot_for(id, rule.lhs);
    slot_is_within(v, rule);
    upserted_is(v, rule);
    with_surface_place(v, id);
    let b = base_of(v, id);
    let u = v.upserted(rule);
    let c = u.surfaces[n];
    lhs_place_is_first(b.slot_of, rule.lhs);
    if n < v.surfaces.len() {
        assert(table_agrees(v, n));
    }
    assert forall|keys: Seq<KeyEvent>| #[trigger]
        c.trie.dom().contains(keys) && keys.len() != 1 implies bind::lhs_place(
        c.slot_of,
        keys,
    ) is Some by {
        lhs_place_is_first(c.slot_of, keys);
        lhs_place_is_first(b.slot_of, keys);
        if keys == rule.lhs {
            let at = match bind::lhs_place(b.slot_of, rule.lhs) {
                Some(at) => at,
                None => b.slot_of.len() as int,
            };
            assert(c.slot_of[at].0 == keys);
        } else {
            assert(b.trie.dom().contains(keys));
            let at = bind::lhs_place(b.slot_of, keys)->0;
            assert(c.slot_of[at] == b.slot_of[at]);
            assert(c.slot_of[at].0 == keys);
        }
    }
    assert forall|i: int| listed(u, n, i) && lhs_at(u, n, i).len() != 1 implies {
        &&& c.trie.dom().contains(#[trigger] lhs_at(u, n, i))
        &&& bind::slot_carried(c.trie[lhs_at(u, n, i)]) == Some(slot_at(u, n, i))
    } by {
        let keys = lhs_at(u, n, i);
        if keys == rule.lhs {
            match bind::lhs_place(b.slot_of, rule.lhs) {
                Some(at) => {
                    assert(listed(v, n, i) && listed(v, n, at));
                    assert(i == at);
                },
                None => {
                    if i < b.slot_of.len() {
                        assert(b.slot_of[i].0 != rule.lhs);
                    }
                },
            }
        } else {
            assert(listed(v, n, i));
            assert(lhs_at(v, n, i) == keys);
        }
    }
}

// ── Removing ──────────────────────────────────────────────────────────

/// Removing a rule keeps the invariant.
pub proof fn remove_keeps_the_invariant(v: IndexView, id: Seq<char>, lhs: Seq<KeyEvent>)
    requires
        index_wf(v),
    ensures
        index_wf(v.removed(id, lhs)),
{
    place_is_first(v, id);
    if v.has(id, lhs) {
        let n = v.place(id)->0;
        let b = v.surfaces[n];
        lhs_place_is_first(b.slot_of, lhs);
        let at = bind::lhs_place(b.slot_of, lhs)->0;
        let slot = b.slot_of[at].1;
        assert(listed(v, n, at));
        assert(is_live(v, n, at));
        let u = v.removed(id, lhs);
        let c = u.surfaces[n];
        assert(c.slot_of == b.slot_of.remove(at));
        // Every listed place of the new index is one of the old but the gone.
        assert forall|s: int, i: int| #[trigger] listed(u, s, i) implies ({
            let j = old_place(n, at, s, i);
            &&& listed(v, s, j)
            &&& lhs_at(u, s, i) == lhs_at(v, s, j)
            &&& slot_at(u, s, i) == slot_at(v, s, j)
            &&& !(s == n && j == at)
        }) by {
            if s != n {
                assert(u.surfaces[s] == v.surfaces[s]);
            }
        }
        assert forall|s: int, t: int| 0 <= s < t < u.surfaces.len() implies (
        #[trigger] u.surfaces[s]).id != (#[trigger] u.surfaces[t]).id by {
            assert(u.surfaces[s].id == v.surfaces[s].id);
            assert(u.surfaces[t].id == v.surfaces[t].id);
        }
        assert forall|s: int, i: int, j: int|
            #![trigger listed(u, s, i), listed(u, s, j)]
            listed(u, s, i) && listed(u, s, j) && i != j implies lhs_at(u, s, i) != lhs_at(
            u,
            s,
            j,
        ) by {
            assert(listed(v, s, old_place(n, at, s, i)));
            assert(listed(v, s, old_place(n, at, s, j)));
        }
        assert forall|s: int, i: int, t: int, j: int|
            #![trigger listed(u, s, i), listed(u, t, j)]
            listed(u, s, i) && listed(u, t, j) && slot_at(u, s, i) == slot_at(u, t, j) implies s
            == t && i == j by {
            assert(listed(v, s, old_place(n, at, s, i)));
            assert(listed(v, t, old_place(n, at, t, j)));
        }
        assert forall|s: int, i: int, j: int|
            #![trigger slot_at(u, s, i), slot_at(u, s, j)]
            listed(u, s, i) && listed(u, s, j) && i < j implies slot_at(u, s, i) < slot_at(
            u,
            s,
            j,
        ) by {
            let x = old_place(n, at, s, i);
            let y = old_place(n, at, s, j);
            assert(listed(v, s, x) && listed(v, s, y));
            assert(slot_at(v, s, x) < slot_at(v, s, y));
        }
        assert forall|s: int, i: int| #[trigger] listed(u, s, i) implies is_live(u, s, i) by {
            let j = old_place(n, at, s, i);
            assert(listed(v, s, j));
            assert(is_live(v, s, j));
            let k = slot_at(v, s, j);
            assert(k != slot) by {
                if k == slot {
                    assert(listed(v, n, at));
                }
            }
            assert(u.slots[k as int] == v.slots[k as int]);
            assert(u.surfaces[s].id == v.surfaces[s].id);
        }
        assert forall|k: int|
            0 <= k < u.slots.len() && (#[trigger] u.slots[k]) is Some implies is_owned(u, k) by {
            assert(k != slot);
            assert(u.slots[k] == v.slots[k]);
            assert(is_owned(v, k));
            let (s, j) = choose|s: int, j: int| #[trigger] listed(v, s, j) && slot_at(v, s, j) == k;
            let i = if s == n && j > at {
                j - 1
            } else {
                j
            };
            assert(!(s == n && j == at));
            if s != n {
                assert(u.surfaces[s] == v.surfaces[s]);
            }
            assert(listed(u, s, i) && slot_at(u, s, i) == k);
        }
        assert forall|s: int| 0 <= s < u.surfaces.len() implies #[trigger] table_agrees(u, s) by {
            assert(table_agrees(v, s));
            if s != n {
                assert(u.surfaces[s] == v.surfaces[s]);
            } else {
                assert forall|keys: Seq<KeyEvent>| #[trigger]
                    c.trie.dom().contains(keys) && keys.len() != 1 implies bind::lhs_place(
                    c.slot_of,
                    keys,
                ) is Some by {
                    assert(b.trie.dom().contains(keys));
                    assert(keys != lhs);
                    lhs_place_is_first(b.slot_of, keys);
                    lhs_place_is_first(c.slot_of, keys);
                    let j = bind::lhs_place(b.slot_of, keys)->0;
                    let i = if j > at {
                        j - 1
                    } else {
                        j
                    };
                    assert(c.slot_of[i] == b.slot_of[j]);
                }
            }
            assert forall|i: int| listed(u, s, i) && lhs_at(u, s, i).len() != 1 implies {
                &&& u.surfaces[s].trie.dom().contains(#[trigger] lhs_at(u, s, i))
                &&& bind::slot_carried(u.surfaces[s].trie[lhs_at(u, s, i)]) == Some(
                    slot_at(u, s, i),
                )
            } by {
                let j = old_place(n, at, s, i);
                assert(listed(v, s, j));
                assert(lhs_at(v, s, j) == lhs_at(u, s, i));
                if s == n {
                    assert(listed(v, n, at));
                    assert(lhs_at(v, n, j) != lhs_at(v, n, at));
                }
            }
        }
    }
}

/// Where a listed place was before another was taken out.
spec fn old_place(n: int, at: int, s: int, i: int) -> int {
    if s == n && i >= at {
        i + 1
    } else {
        i
    }
}

// ── What holds of every well-formed index ─────────────────────────────

/// The slot that keeps the live rule at a place of the listing alive.
pub open spec fn slot_of_live(slots: Seq<Option<u32>>, arena: Seq<RuleView>, i: int) -> int
    decreases slots.len(),
{
    if slots.len() == 0 {
        -1
    } else if i < bind::live_rules(slots.drop_last(), arena).len() {
        slot_of_live(slots.drop_last(), arena, i)
    } else {
        slots.len() - 1
    }
}

/// Every rule of the listing is the live rule of its slot, and the listing is
/// in slot order.
proof fn live_rules_are_slots(slots: Seq<Option<u32>>, arena: Seq<RuleView>)
    ensures
        forall|i: int|
            0 <= i < bind::live_rules(slots, arena).len() ==> {
                let k = #[trigger] slot_of_live(slots, arena, i);
                &&& 0 <= k < slots.len()
                &&& slots[k] matches Some(a) && a < arena.len() && bind::live_rules(
                    slots,
                    arena,
                )[i] == arena[a as int]
            },
        forall|i: int, j: int|
            0 <= i < j < bind::live_rules(slots, arena).len() ==> (#[trigger] slot_of_live(
                slots,
                arena,
                i,
            )) < (#[trigger] slot_of_live(slots, arena, j)),
        forall|k: int|
            0 <= k < slots.len() && ((#[trigger] slots[k]) matches Some(a) && a < arena.len())
                ==> bind::live_rules(slots, arena).contains(arena[slots[k]->0 as int]),
    decreases slots.len(),
{
    if slots.len() > 0 {
        let init = slots.drop_last();
        let all = bind::live_rules(slots, arena);
        let some = bind::live_rules(init, arena);
        live_rules_are_slots(init, arena);
        assert forall|i: int| 0 <= i < all.len() implies {
            let k = #[trigger] slot_of_live(slots, arena, i);
            &&& 0 <= k < slots.len()
            &&& slots[k] matches Some(a) && a < arena.len() && all[i] == arena[a as int]
        } by {
            if i < some.len() {
                let k = slot_of_live(init, arena, i);
                assert(init[k] == slots[k]);
            }
        }
        assert forall|i: int, j: int| 0 <= i < j < all.len() implies (#[trigger] slot_of_live(
            slots,
            arena,
            i,
        )) < (#[trigger] slot_of_live(slots, arena, j)) by {
            assert(slot_of_live(init, arena, i) < init.len());
            if j < some.len() {
                assert(slot_of_live(init, arena, i) < slot_of_live(init, arena, j));
            }
        }
        assert forall|k: int|
            0 <= k < slots.len() && ((#[trigger] slots[k]) matches Some(a) && a
                < arena.len()) implies all.contains(arena[slots[k]->0 as int]) by {
            if k < init.len() {
                assert(init[k] == slots[k]);
                let i = choose|i: int|
                    0 <= i < some.len() && some[i] == arena[slots[k]->0 as int];
                assert(all[i] == some[i]);
            } else {
                assert(all[all.len() - 1] == arena[slots[k]->0 as int]);
            }
        }
    }
}

/// There is exactly one live rule per surface and left-hand side.
pub proof fn one_rule_per_surface_and_lhs(v: IndexView, i: int, j: int)
    requires
        index_wf(v),
        0 <= i < v.rules().len(),
        0 <= j < v.rules().len(),
        v.rules()[i].surface == v.rules()[j].surface,
        v.rules()[i].lhs == v.rules()[j].lhs,
    ensures
        i == j,
{
    live_rules_are_slots(v.slots, v.arena);
    let a = slot_of_live(v.slots, v.arena, i);
    let b = slot_of_live(v.slots, v.arena, j);
    assert(is_owned(v, a) && is_owned(v, b));
    let (s, x) = choose|s: int, x: int| #[trigger] listed(v, s, x) && slot_at(v, s, x) == a;
    let (t, y) = choose|t: int, y: int| #[trigger] listed(v, t, y) && slot_at(v, t, y) == b;
    assert(is_live(v, s, x) && is_live(v, t, y));
    if s < t {
        assert(v.surfaces[s].id != v.surfaces[t].id);
    }
    if t < s {
        assert(v.surfaces[t].id != v.surfaces[s].id);
    }
    assert(a == b);
    if i < j {
        assert(slot_of_live(v.slots, v.arena, i) < slot_of_live(v.slots, v.arena, j));
    }
    if j < i {
        assert(slot_of_live(v.slots, v.arena, j) < slot_of_live(v.slots, v.arena, i));
    }
}

/// The listing holds a rule for a surface and left-hand side exactly where the
/// index has one there.
pub proof fn listed_rules_are_the_live_ones(v: IndexView, id: Seq<char>, lhs: Seq<KeyEvent>)
    requires
        index_wf(v),
    ensures
        v.has(id, lhs) == exists|i: int|
            0 <= i < v.rules().len() && (#[trigger] v.rules()[i]).surface == id && v.rules()[i].lhs
                == lhs,
{
    live_rules_are_slots(v.slots, v.arena);
    place_is_first(v, id);
    if v.has(id, lhs) {
        let n = v.place(id)->0;
        lhs_place_is_first(v.surfaces[n].slot_of, lhs);
        let at = bind::lhs_place(v.surfaces[n].slot_of, lhs)->0;
        assert(listed(v, n, at));
        assert(is_live(v, n, at));
        let k = slot_at(v, n, at);
        assert(v.slots[k as int] is Some);
        let rule = v.rule_at(k)->0;
        assert(v.rules().contains(rule));
        let i = choose|i: int| 0 <= i < v.rules().len() && v.rules()[i] == rule;
        assert(v.rules()[i].surface == id);
    }
    if exists|i: int|
        0 <= i < v.rules().len() && (#[trigger] v.rules()[i]).surface == id && v.rules()[i].lhs
            == lhs {
        let i = choose|i: int|
            0 <= i < v.rules().len() && (#[trigger] v.rules()[i]).surface == id && v.rules()[i].lhs
                == lhs;
        let k = slot_of_live(v.slots, v.arena, i);
        assert(is_owned(v, k));
        let (s, x) = choose|s: int, x: int| #[trigger] listed(v, s, x) && slot_at(v, s, x) == k;
        assert(is_live(v, s, x));
        listed_place(v, s, x);
    }
}

/// A reservation is nothing but a live multi-key rule: a key is reserved on a
/// surface exactly where the listing holds a sequence that starts with it
/// there.
pub proof fn reservations_are_live_sequences(v: IndexView, id: Seq<char>, key: KeyEvent)
    requires
        index_wf(v),
    ensures
        v.reserves(id, key) == exists|i: int|
            0 <= i < v.rules().len() && (#[trigger] v.rules()[i]).surface == id
                && bind::is_sequence_from(v.rules()[i].lhs, key),
{
    place_is_first(v, id);
    if v.reserves(id, key) {
        let n = v.place(id)->0;
        let at = choose|i: int|
            0 <= i < v.surfaces[n].slot_of.len() && bind::is_sequence_from(
                (#[trigger] v.surfaces[n].slot_of[i]).0,
                key,
            );
        assert(listed(v, n, at));
        listed_place(v, n, at);
        listed_rules_are_the_live_ones(v, id, lhs_at(v, n, at));
        let i = choose|i: int|
            0 <= i < v.rules().len() && (#[trigger] v.rules()[i]).surface == id && v.rules()[i].lhs
                == lhs_at(v, n, at);
        assert(bind::is_sequence_from(v.rules()[i].lhs, key));
    }
    if exists|i: int|
        0 <= i < v.rules().len() && (#[trigger] v.rules()[i]).surface == id
            && bind::is_sequence_from(v.rules()[i].lhs, key) {
        let i = choose|i: int|
            0 <= i < v.rules().len() && (#[trigger] v.rules()[i]).surface == id
                && bind::is_sequence_from(v.rules()[i].lhs, key);
        let lhs = v.rules()[i].lhs;
        listed_rules_are_the_live_ones(v, id, lhs);
        let n = v.place(id)->0;
        lhs_place_is_first(v.surfaces[n].slot_of, lhs);
        let at = bind::lhs_place(v.surfaces[n].slot_of, lhs)->0;
        assert(v.bindings(id)->0.slot_of[at].0 == lhs);
    }
}

/// A key that the table would wait on is always a printed reservation, and a
/// reserved key is waited on unless a rule for the bare key does not wait.
pub proof fn waiting_means_reserved(v: IndexView, id: Seq<char>, key: KeyEvent)
    requires
        index_wf(v),
    ensures
        v.lookup(id, seq![key]) is Prefix ==> v.reserves(id, key),
        v.reserves(id, key) ==> v.lookup(id, seq![key]) is Prefix || (v.lookup(
            id,
            seq![key],
        ) matches LookupView::ExactOnly(e) && e.nowait),
{
    place_is_first(v, id);
    if let Some(n) = v.place(id) {
        let b = v.surfaces[n];
        assert(table_agrees(v, n));
        let one = seq![key];
        if v.lookup(id, one) is Prefix {
            let keys = choose|k: Seq<KeyEvent>| #[trigger]
                b.trie.dom().contains(k) && trie::extends(k, one);
            assert(keys.take(1)[0] == one[0]);
            lhs_place_is_first(b.slot_of, keys);
            let at = bind::lhs_place(b.slot_of, keys)->0;
            assert(bind::is_sequence_from(v.bindings(id)->0.slot_of[at].0, key));
        }
        if v.reserves(id, key) {
            let at = choose|i: int|
                0 <= i < b.slot_of.len() && bind::is_sequence_from((#[trigger] b.slot_of[i]).0, key);
            assert(listed(v, n, at));
            let keys = lhs_at(v, n, at);
            assert(b.trie.dom().contains(keys));
            assert(keys.take(1) =~= one);
            assert(trie::extends(keys, one));
            assert(trie::has_longer(b.trie, one));
        }
    }
}

// ── What installing and removing do ───────────────────────────────────

/// An installed rule is the one its left-hand side leads to, and so is its
/// Shift-held twin; no other slot's rule changes.
pub proof fn the_last_writer_is_found(v: IndexView, rule: RuleView, other: u32)
    requires
        index_wf(v),
        v.slots.len() < u32::MAX,
        v.arena.len() < u32::MAX,
    ensures
        ({
            let u = v.upserted(rule);
            let slot = v.slot_for(rule.surface, rule.lhs);
            let entry = bind::entry_for(slot, rule.nowait);
            let b = u.bindings(rule.surface);
            &&& u.has(rule.surface, rule.lhs)
            &&& u.rule_at(slot) == Some(rule)
            &&& u.rule_of(entry) == Some(rule)
            &&& b is Some
            &&& trie::exact_at(b->0.trie, rule.lhs) == Some(entry)
            &&& rule.shift_tolerant ==> (bind::shift_twin(rule.lhs) matches Some(twin)
                ==> trie::exact_at(b->0.trie, twin) == Some(entry))
            &&& rule.nowait || !trie::has_longer(b->0.trie, rule.lhs) ==> u.rule_for(
                rule.surface,
                rule.lhs,
            ) == Some(rule)
            &&& other != slot ==> u.rule_at(other) == v.rule_at(other)
        }),
{
    let id = rule.surface;
    let n = v.at(id);
    slot_is_within(v, rule);
    upserted_is(v, rule);
    with_surface_place(v, id);
    let u = v.upserted(rule);
    let w = v.with_surface(id);
    let c = bound(v, rule);
    let slot = v.slot_for(id, rule.lhs);
    let entry = bind::entry_for(slot, rule.nowait);
    same_ids_same_place(w, n, c, id);
    assert(w.with_bindings(n, c).surfaces =~= u.surfaces);
    assert(u.place(id) == Some(n));
    lhs_place_is_first(base_of(v, id).slot_of, rule.lhs);
    lhs_place_is_first(c.slot_of, rule.lhs);
    if bind::lhs_place(base_of(v, id).slot_of, rule.lhs) is None {
        assert(c.slot_of.last().0 == rule.lhs);
    }
    if let Some(twin) = bind::shift_twin(rule.lhs) {
        assert(twin[0].modifiers.shift && !rule.lhs[0].modifiers.shift);
        assert(twin != rule.lhs);
    }
    assert(bind::slot_carried(entry) == Some(slot));
    assert(u.arena[v.arena.len() as int] == rule);
    if other != slot {
        if other < v.slots.len() {
            assert(u.slots[other as int] == v.slots[other as int]);
            if let Some(a) = v.slots[other as int] {
                if a < v.arena.len() {
                    assert(u.arena[a as int] == v.arena[a as int]);
                } else {
                    assert(is_owned(v, other as int));
                    let (s, i) = choose|s: int, i: int| #[trigger]
                        listed(v, s, i) && slot_at(v, s, i) == other;
                    assert(is_live(v, s, i));
                }
            }
        }
    }
}

/// A removed rule is gone: its left-hand side leads nowhere, nor does the twin
/// it came with, its slot is free, and no other slot's rule changes.
pub proof fn a_removed_rule_is_gone(
    v: IndexView,
    id: Seq<char>,
    lhs: Seq<KeyEvent>,
    other: u32,
)
    requires
        index_wf(v),
        v.has(id, lhs),
    ensures
        ({
            let u = v.removed(id, lhs);
            let slot = v.slot_for(id, lhs);
            let b = u.bindings(id);
            &&& !u.has(id, lhs)
            &&& u.rule_at(slot) is None
            &&& b is Some
            &&& trie::exact_at(b->0.trie, lhs) is None
            &&& (v.rule_at(slot) matches Some(rule) && rule.shift_tolerant) ==> (bind::shift_twin(
                lhs,
            ) matches Some(twin) ==> trie::exact_at(b->0.trie, twin) is None)
            &&& other != slot ==> u.rule_at(other) == v.rule_at(other)
        }),
{
    place_is_first(v, id);
    let n = v.place(id)->0;
    let b = v.surfaces[n];
    lhs_place_is_first(b.slot_of, lhs);
    let at = bind::lhs_place(b.slot_of, lhs)->0;
    let u = v.removed(id, lhs);
    let c = u.surfaces[n];
    assert(listed(v, n, at));
    assert(is_live(v, n, at));
    same_ids_same_place(v, n, c, id);
    assert(v.with_bindings(n, c).surfaces =~= u.surfaces);
    assert(u.place(id) == Some(n));
    lhs_place_is_first(c.slot_of, lhs);
    assert forall|j: int| 0 <= j < c.slot_of.len() implies (#[trigger] c.slot_of[j]).0 != lhs by {
        let j0 = if j < at {
            j
        } else {
            j + 1
        };
        assert(c.slot_of[j] == b.slot_of[j0]);
        assert(listed(v, n, j0));
        assert(lhs_at(v, n, j0) != lhs_at(v, n, at));
    }
}

/// What is mapped at exactly a key sequence on a surface.
pub open spec fn mapped_at(v: IndexView, id: Seq<char>, keys: Seq<KeyEvent>) -> Option<EntryView> {
    match v.bindings(id) {
        Some(b) => if b.trie.dom().contains(keys) {
            Some(b.trie[keys])
        } else {
            None
        },
        None => None,
    }
}

/// Installing a rule maps its left-hand side, and its Shift-held twin where it
/// tolerates Shift, and touches no other keys and no other surface.
pub proof fn installing_touches_no_other_keys(
    v: IndexView,
    rule: RuleView,
    id: Seq<char>,
    keys: Seq<KeyEvent>,
)
    requires
        index_wf(v),
        v.slots.len() < u32::MAX,
        id != rule.surface || (keys != rule.lhs && !(rule.shift_tolerant && bind::shift_twin(
            rule.lhs,
        ) == Some(keys))),
    ensures
        mapped_at(v.upserted(rule), id, keys) == mapped_at(v, id, keys),
{
    let u = v.upserted(rule);
    let n = v.at(rule.surface);
    slot_is_within(v, rule);
    upserted_is(v, rule);
    with_surface_place(v, rule.surface);
    let w = v.with_surface(rule.surface);
    same_ids_same_place(w, n, bound(v, rule), id);
    assert(w.with_bindings(n, bound(v, rule)).surfaces =~= u.surfaces);
    assert(u.place(id) == w.place(id));
    place_is_first(v, id);
    place_is_first(w, id);
    if id != rule.surface {
        match v.place(id) {
            Some(i) => {
                assert(w.surfaces[i] == v.surfaces[i]);
                assert forall|j: int| 0 <= j < i implies (#[trigger] w.surfaces[j]).id != id by {
                    assert(w.surfaces[j] == v.surfaces[j]);
                }
                search::is_first_where(w.surfaces, bind::of_surface(id), i);
                assert(u.surfaces[i] == v.surfaces[i]);
            },
            None => {
                if let Some(k) = w.place(id) {
                    assert(w.surfaces[k].id == id);
                    if k < v.surfaces.len() {
                        assert(w.surfaces[k] == v.surfaces[k]);
                    }
                }
            },
        }
    }
}

/// Removing a rule unmaps its left-hand side, and the twin it came with, and
/// touches no other keys and no other surface.
pub proof fn removing_touches_no_other_keys(
    v: IndexView,
    id: Seq<char>,
    lhs: Seq<KeyEvent>,
    other: Seq<char>,
    keys: Seq<KeyEvent>,
)
    requires
        index_wf(v),
        other != id || (keys != lhs && bind::shift_twin(lhs) != Some(keys)),
    ensures
        mapped_at(v.removed(id, lhs), other, keys) == mapped_at(v, other, keys),
{
    let u = v.removed(id, lhs);
    place_is_first(v, id);
    if let Some(n) = v.place(id) {
        let c = u.surfaces[n];
        same_ids_same_place(v, n, c, other);
        assert(v.with_bindings(n, c).surfaces =~= u.surfaces);
        assert(u.place(other) == v.place(other));
        place_is_first(v, other);
        if other != id {
            if let Some(i) = v.place(other) {
                assert(i != n);
                assert(u.surfaces[i] == v.surfaces[i]);
            }
        }
    }
}

/// The rules of a surface are the live rules on it, and no other, and the
/// surface has a rule that asks for the guess exactly where one of them does.
pub proof fn the_rules_of_a_surface_are_those_on_it(v: IndexView, id: Seq<char>, rule: RuleView)
    ensures
        v.rules_on(id).contains(rule) <==> v.rules().contains(rule) && rule.surface == id,
        v.physical_on(id) <==> exists|i: int|
            0 <= i < v.rules_on(id).len() && (#[trigger] v.rules_on(id)[i]).physical,
{
    let p = |r: RuleView| r.surface == id;
    broadcast use vstd::seq_lib::group_filter_ensures;

    let all = v.rules();
    let some = v.rules_on(id);
    if some.contains(rule) {
        let i = choose|i: int| 0 <= i < some.len() && some[i] == rule;
        all.lemma_filter_contains_rev(p, rule);
        assert(p(some[i]));
    }
    if all.contains(rule) && rule.surface == id {
        let i = choose|i: int| 0 <= i < all.len() && all[i] == rule;
        assert(p(all[i]));
        assert(some.contains(all[i]));
    }
    if v.physical_on(id) {
        let i = choose|i: int|
            0 <= i < all.len() && (#[trigger] all[i]).surface == id && all[i].physical;
        assert(p(all[i]));
        assert(some.contains(all[i]));
        let k = choose|k: int| 0 <= k < some.len() && some[k] == all[i];
        assert(some[k].physical);
    }
    if exists|i: int| 0 <= i < some.len() && (#[trigger] some[i]).physical {
        let i = choose|i: int| 0 <= i < some.len() && (#[trigger] some[i]).physical;
        all.lemma_filter_contains_rev(p, some[i]);
        assert(p(some[i]));
        let k = choose|k: int| 0 <= k < all.len() && all[k] == some[i];
        assert(all[k].surface == id && all[k].physical);
    }
}

/// A surface reserves some key exactly where it reserves any, that is where a
/// live rule on it has more than one key.
pub proof fn a_surface_reserves_where_a_sequence_is_live(v: IndexView, id: Seq<char>)
    requires
        index_wf(v),
    ensures
        v.reserves_any(id) <==> exists|key: KeyEvent| #[trigger] v.reserves(id, key),
        v.reserves_any(id) <==> exists|i: int|
            0 <= i < v.rules().len() && (#[trigger] v.rules()[i]).surface == id
                && v.rules()[i].lhs.len() > 1,
{
    if v.reserves_any(id) {
        let b = v.bindings(id)->0;
        let i = choose|i: int| 0 <= i < b.slot_of.len() && (#[trigger] b.slot_of[i]).0.len() > 1;
        let key = b.slot_of[i].0[0];
        assert(bind::is_sequence_from(b.slot_of[i].0, key));
        assert(v.reserves(id, key));
        reservations_are_live_sequences(v, id, key);
    }
    if exists|key: KeyEvent| #[trigger] v.reserves(id, key) {
        let key = choose|key: KeyEvent| #[trigger] v.reserves(id, key);
        let b = v.bindings(id)->0;
        let i = choose|i: int|
            0 <= i < b.slot_of.len() && bind::is_sequence_from((#[trigger] b.slot_of[i]).0, key);
        assert(b.slot_of[i].0.len() > 1);
    }
    if exists|i: int|
        0 <= i < v.rules().len() && (#[trigger] v.rules()[i]).surface == id
            && v.rules()[i].lhs.len() > 1 {
        let i = choose|i: int|
            0 <= i < v.rules().len() && (#[trigger] v.rules()[i]).surface == id
                && v.rules()[i].lhs.len() > 1;
        let key = v.rules()[i].lhs[0];
        reservations_are_live_sequences(v, id, key);
        assert(bind::is_sequence_from(v.rules()[i].lhs, key));
        assert(v.reserves(id, key));
    }
}

/// Removing what is not there changes nothing.
pub proof fn removing_nothing_changes_nothing(v: IndexView, id: Seq<char>, lhs: Seq<KeyEvent>)
    requires
        !v.has(id, lhs),
    ensures
        v.removed(id, lhs) == v,
{
}

// ── What installing and removing do to the listing ────────────────────

/// Being the rule for a surface and left-hand side.
pub open spec fn of_rule(id: Seq<char>, lhs: Seq<KeyEvent>) -> spec_fn(RuleView) -> bool {
    |r: RuleView| r.surface == id && r.lhs == lhs
}

/// Place of the rule for a surface and left-hand side in a list of rules.
pub open spec fn rule_place(rules: Seq<RuleView>, id: Seq<char>, lhs: Seq<KeyEvent>) -> Option<
    int,
> {
    search::first_where(rules, of_rule(id, lhs))
}

/// Whether no surface and left-hand side is listed twice.
pub open spec fn listed_once(rules: Seq<RuleView>) -> bool {
    forall|i: int, j: int|
        0 <= i < j < rules.len() ==> (#[trigger] rules[i]).surface != (#[trigger] rules[j]).surface
            || rules[i].lhs != rules[j].lhs
}

/// The rules that two lists of slots keep alive, one list after the other.
proof fn live_rules_joined(a: Seq<Option<u32>>, b: Seq<Option<u32>>, arena: Seq<RuleView>)
    ensures
        bind::live_rules(a + b, arena) == bind::live_rules(a, arena) + bind::live_rules(b, arena),
    decreases b.len(),
{
    if b.len() == 0 {
        assert(a + b =~= a);
        assert(bind::live_rules(a, arena) + bind::live_rules(b, arena) =~= bind::live_rules(
            a,
            arena,
        ));
    } else {
        let init = b.drop_last();
        live_rules_joined(a, init, arena);
        assert((a + b).drop_last() =~= a + init);
        assert((a + b).last() == b.last());
        assert(bind::live_rules(a + b, arena) =~= bind::live_rules(a, arena) + bind::live_rules(
            b,
            arena,
        ));
    }
}

/// The rule that one slot keeps alive.
proof fn live_rules_of_one(slot: Option<u32>, arena: Seq<RuleView>)
    ensures
        bind::live_rules(seq![slot], arena) == (match slot {
            Some(a) => if a < arena.len() {
                seq![arena[a as int]]
            } else {
                Seq::empty()
            },
            None => Seq::empty(),
        }),
{
    let one = seq![slot];
    assert(one.drop_last() =~= Seq::empty());
    assert(bind::live_rules(one.drop_last(), arena) =~= Seq::empty());
    if let Some(a) = slot {
        if a < arena.len() {
            assert(Seq::empty().push(arena[a as int]) =~= seq![arena[a as int]]);
        }
    }
}

/// The rules before a slot, its own, and the rules after it.
proof fn live_rules_around(slots: Seq<Option<u32>>, arena: Seq<RuleView>, k: int)
    requires
        0 <= k < slots.len(),
    ensures
        bind::live_rules(slots, arena) == bind::live_rules(slots.take(k), arena)
            + bind::live_rules(seq![slots[k]], arena) + bind::live_rules(slots.skip(k + 1), arena),
{
    let front = slots.take(k) + seq![slots[k]];
    live_rules_joined(slots.take(k), seq![slots[k]], arena);
    live_rules_joined(front, slots.skip(k + 1), arena);
    assert(front + slots.skip(k + 1) =~= slots);
}

/// A rule that no slot names keeps nothing alive.
proof fn live_rules_before_growth(
    slots: Seq<Option<u32>>,
    arena: Seq<RuleView>,
    rule: RuleView,
)
    requires
        forall|k: int|
            0 <= k < slots.len() ==> ((#[trigger] slots[k]) matches Some(a) ==> a < arena.len()),
    ensures
        bind::live_rules(slots, arena.push(rule)) == bind::live_rules(slots, arena),
    decreases slots.len(),
{
    if slots.len() > 0 {
        let init = slots.drop_last();
        assert forall|k: int| 0 <= k < init.len() implies ((#[trigger] init[k]) matches Some(a)
            ==> a < arena.len()) by {
            assert(init[k] == slots[k]);
        }
        live_rules_before_growth(init, arena, rule);
        assert(slots.last() == slots[slots.len() - 1]);
    }
}

/// Every slot that names a rule names one of the arena.
proof fn slots_are_within(v: IndexView)
    requires
        index_wf(v),
    ensures
        forall|k: int|
            0 <= k < v.slots.len() ==> ((#[trigger] v.slots[k]) matches Some(a) ==> a
                < v.arena.len()),
{
    assert forall|k: int| 0 <= k < v.slots.len() implies ((#[trigger] v.slots[k]) matches Some(a)
        ==> a < v.arena.len()) by {
        if v.slots[k] is Some {
            assert(is_owned(v, k));
            let (s, i) = choose|s: int, i: int| #[trigger]
                listed(v, s, i) && slot_at(v, s, i) == k;
            assert(is_live(v, s, i));
        }
    }
}

/// The place in the listing of the rule that a slot keeps alive.
pub open spec fn rank(v: IndexView, k: int) -> int {
    bind::live_rules(v.slots.take(k), v.arena).len() as int
}

/// A listed left-hand side has its rule in the listing, at its slot's place.
proof fn ranked(v: IndexView, s: int, i: int)
    requires
        index_wf(v),
        listed(v, s, i),
    ensures
        ({
            let k = slot_at(v, s, i) as int;
            let at = rank(v, k);
            &&& 0 <= k < v.slots.len()
            &&& 0 <= at < v.rules().len()
            &&& v.rules()[at].surface == v.surfaces[s].id
            &&& v.rules()[at].lhs == lhs_at(v, s, i)
            &&& v.slots[k] matches Some(a) && a < v.arena.len() && v.rules()[at]
                == v.arena[a as int]
            &&& v.rules() == bind::live_rules(v.slots.take(k), v.arena) + seq![v.rules()[at]]
                + bind::live_rules(v.slots.skip(k + 1), v.arena)
        }),
{
    assert(is_live(v, s, i));
    let k = slot_at(v, s, i) as int;
    live_rules_around(v.slots, v.arena, k);
    live_rules_of_one(v.slots[k], v.arena);
    let rule = v.rule_at(k as u32)->0;
    let front = bind::live_rules(v.slots.take(k), v.arena);
    let back = bind::live_rules(v.slots.skip(k + 1), v.arena);
    assert(v.rules() =~= front + seq![rule] + back);
    assert(v.rules()[front.len() as int] == rule);
}

/// The rule of an earlier slot stands earlier in the listing.
proof fn ranks_are_ordered(v: IndexView, j: int, k: int)
    requires
        0 <= j < k <= v.slots.len(),
        v.slots[j] matches Some(a) && a < v.arena.len(),
    ensures
        rank(v, j) < rank(v, k),
{
    let front = v.slots.take(k);
    live_rules_around(front, v.arena, j);
    live_rules_of_one(front[j], v.arena);
    assert(front.take(j) =~= v.slots.take(j));
}

/// The listing lists each surface and left-hand side once.
pub proof fn rules_are_listed_once(v: IndexView)
    requires
        index_wf(v),
    ensures
        listed_once(v.rules()),
{
    assert forall|i: int, j: int| 0 <= i < j < v.rules().len() implies (
    #[trigger] v.rules()[i]).surface != (#[trigger] v.rules()[j]).surface || v.rules()[i].lhs
        != v.rules()[j].lhs by {
        if v.rules()[i].surface == v.rules()[j].surface && v.rules()[i].lhs == v.rules()[j].lhs {
            one_rule_per_surface_and_lhs(v, i, j);
        }
    }
}

/// Place of the rule at a place of a listing.
proof fn rule_place_is(rules: Seq<RuleView>, i: int)
    requires
        listed_once(rules),
        0 <= i < rules.len(),
    ensures
        rule_place(rules, rules[i].surface, rules[i].lhs) == Some(i),
{
    let p = of_rule(rules[i].surface, rules[i].lhs);
    assert forall|j: int| 0 <= j < i implies !p(#[trigger] rules[j]) by {
        assert(rules[j].surface != rules[i].surface || rules[j].lhs != rules[i].lhs);
    }
    search::is_first_where(rules, p, i);
}

/// A rule that the index does not have has no place in the listing.
proof fn no_rule_place(v: IndexView, id: Seq<char>, lhs: Seq<KeyEvent>)
    requires
        index_wf(v),
        !v.has(id, lhs),
    ensures
        rule_place(v.rules(), id, lhs) is None,
{
    let p = of_rule(id, lhs);
    search::first_where_is_first(v.rules(), p);
    listed_rules_are_the_live_ones(v, id, lhs);
    if let Some(i) = rule_place(v.rules(), id, lhs) {
        assert(p(v.rules()[i]));
        assert(v.rules()[i].surface == id);
    }
}

/// Installing a rule replaces the one for its surface and left-hand side where
/// it stands in the listing, or else adds the rule at the end; so no surface
/// and left-hand side is ever listed twice, and the last writer wins.
pub proof fn upsert_replaces_in_place_or_appends(v: IndexView, rule: RuleView)
    requires
        index_wf(v),
        v.slots.len() < u32::MAX,
        v.arena.len() < u32::MAX,
    ensures
        listed_once(v.upserted(rule).rules()),
        match rule_place(v.rules(), rule.surface, rule.lhs) {
            Some(i) => {
                &&& 0 <= i < v.rules().len()
                &&& v.upserted(rule).rules() == v.rules().update(i, rule)
            },
            None => v.upserted(rule).rules() == v.rules().push(rule),
        },
{
    upsert_keeps_the_invariant(v, rule);
    rules_are_listed_once(v.upserted(rule));
    rules_are_listed_once(v);
    slots_are_within(v);
    slot_is_within(v, rule);
    upserted_is(v, rule);
    with_surface_place(v, rule.surface);
    let u = v.upserted(rule);
    let k = v.slot_for(rule.surface, rule.lhs) as int;
    let fresh = Some(v.arena.len() as u32);
    live_rules_of_one(fresh, u.arena);
    assert(u.arena[v.arena.len() as int] == rule);
    match bind::lhs_place(base_of(v, rule.surface).slot_of, rule.lhs) {
        Some(at) => {
            let n = v.at(rule.surface);
            ranked(v, n, at);
            let i = rank(v, k);
            rule_place_is(v.rules(), i);
            let front = v.slots.take(k);
            let back = v.slots.skip(k + 1);
            live_rules_around(u.slots, u.arena, k);
            assert(u.slots.take(k) =~= front);
            assert(u.slots.skip(k + 1) =~= back);
            assert(u.slots[k] == fresh);
            assert forall|j: int| 0 <= j < front.len() implies ((#[trigger] front[j]) matches Some(
                a,
            ) ==> a < v.arena.len()) by {
                assert(front[j] == v.slots[j]);
            }
            assert forall|j: int| 0 <= j < back.len() implies ((#[trigger] back[j]) matches Some(a)
                ==> a < v.arena.len()) by {
                assert(back[j] == v.slots[k + 1 + j]);
            }
            live_rules_before_growth(front, v.arena, rule);
            live_rules_before_growth(back, v.arena, rule);
            assert(u.rules() =~= v.rules().update(i, rule));
        },
        None => {
            place_is_first(v, rule.surface);
            assert(!v.has(rule.surface, rule.lhs));
            no_rule_place(v, rule.surface, rule.lhs);
            live_rules_joined(v.slots, seq![fresh], u.arena);
            assert(u.slots =~= v.slots + seq![fresh]);
            live_rules_before_growth(v.slots, v.arena, rule);
            assert(u.rules() =~= v.rules().push(rule));
        },
    }
}

/// Installing a rule reserves the first of its several keys, and reserves
/// nothing else; what was reserved stays so.
pub proof fn installing_reserves_only_its_own_first_key(
    v: IndexView,
    rule: RuleView,
    id: Seq<char>,
    key: KeyEvent,
)
    requires
        index_wf(v),
        v.slots.len() < u32::MAX,
        v.arena.len() < u32::MAX,
    ensures
        v.upserted(rule).reserves(id, key) <==> v.reserves(id, key) || (rule.surface == id
            && rule.lhs.len() > 1 && rule.lhs[0] == key),
{
    let u = v.upserted(rule);
    upsert_keeps_the_invariant(v, rule);
    reservations_are_live_sequences(v, id, key);
    reservations_are_live_sequences(u, id, key);
    upsert_replaces_in_place_or_appends(v, rule);
    search::first_where_is_first(v.rules(), of_rule(rule.surface, rule.lhs));
    let at = match rule_place(v.rules(), rule.surface, rule.lhs) {
        Some(i) => i,
        None => v.rules().len() as int,
    };
    assert(u.rules()[at] == rule);
    if u.reserves(id, key) {
        let i = choose|i: int|
            0 <= i < u.rules().len() && (#[trigger] u.rules()[i]).surface == id
                && bind::is_sequence_from(u.rules()[i].lhs, key);
        if i != at {
            assert(v.rules()[i] == u.rules()[i]);
        }
    }
    if v.reserves(id, key) {
        let i = choose|i: int|
            0 <= i < v.rules().len() && (#[trigger] v.rules()[i]).surface == id
                && bind::is_sequence_from(v.rules()[i].lhs, key);
        if i != at {
            assert(v.rules()[i] == u.rules()[i]);
        }
    }
}

/// Removing a rule takes it out of the listing and leaves the others in their
/// order; the key that a removed sequence reserved stays reserved only where
/// another sequence of the surface starts with it.
pub proof fn remove_takes_one_rule_out(v: IndexView, id: Seq<char>, lhs: Seq<KeyEvent>)
    requires
        index_wf(v),
    ensures
        listed_once(v.removed(id, lhs).rules()),
        match rule_place(v.rules(), id, lhs) {
            Some(i) => {
                &&& v.has(id, lhs)
                &&& 0 <= i < v.rules().len()
                &&& v.removed(id, lhs).rules() == v.rules().remove(i)
                &&& lhs.len() > 1 ==> (v.removed(id, lhs).reserves(id, lhs[0]) <==> exists|j: int|
                    {
                        &&& 0 <= j < v.rules().len()
                        &&& j != i
                        &&& (#[trigger] v.rules()[j]).surface == id
                        &&& bind::is_sequence_from(v.rules()[j].lhs, lhs[0])
                    })
            },
            None => !v.has(id, lhs) && v.removed(id, lhs) == v,
        },
{
    remove_keeps_the_invariant(v, id, lhs);
    rules_are_listed_once(v);
    rules_are_listed_once(v.removed(id, lhs));
    if v.has(id, lhs) {
        let u = v.removed(id, lhs);
        place_is_first(v, id);
        let n = v.place(id)->0;
        lhs_place_is_first(v.surfaces[n].slot_of, lhs);
        let at = bind::lhs_place(v.surfaces[n].slot_of, lhs)->0;
        assert(listed(v, n, at));
        ranked(v, n, at);
        let k = slot_at(v, n, at) as int;
        let i = rank(v, k);
        rule_place_is(v.rules(), i);
        live_rules_around(u.slots, u.arena, k);
        live_rules_of_one(None, u.arena);
        assert(u.slots[k] is None);
        assert(u.slots.take(k) =~= v.slots.take(k));
        assert(u.slots.skip(k + 1) =~= v.slots.skip(k + 1));
        assert(u.rules() =~= v.rules().remove(i));
        if lhs.len() > 1 {
            let key = lhs[0];
            reservations_are_live_sequences(u, id, key);
            if u.reserves(id, key) {
                let x = choose|x: int|
                    0 <= x < u.rules().len() && (#[trigger] u.rules()[x]).surface == id
                        && bind::is_sequence_from(u.rules()[x].lhs, key);
                let j = if x < i {
                    x
                } else {
                    x + 1
                };
                assert(v.rules()[j] == u.rules()[x]);
            }
            if exists|j: int|
                {
                    &&& 0 <= j < v.rules().len()
                    &&& j != i
                    &&& (#[trigger] v.rules()[j]).surface == id
                    &&& bind::is_sequence_from(v.rules()[j].lhs, key)
                } {
                let j = choose|j: int|
                    {
                        &&& 0 <= j < v.rules().len()
                        &&& j != i
                        &&& (#[trigger] v.rules()[j]).surface == id
                        &&& bind::is_sequence_from(v.rules()[j].lhs, key)
                    };
                let x = if j < i {
                    j
                } else {
                    j - 1
                };
                assert(u.rules()[x] == v.rules()[j]);
            }
        }
    } else {
        no_rule_place(v, id, lhs);
    }
}

/// What the first keys of some left-hand sides are.
proof fn reserved_keys_are_first_keys(slot_of: Seq<(Seq<KeyEvent>, u32)>)
    ensures
        bind::reserved_keys(slot_of).no_duplicates(),
        forall|key: KeyEvent| #[trigger]
            bind::reserved_keys(slot_of).contains(key) <==> exists|i: int|
                0 <= i < slot_of.len() && bind::is_sequence_from((#[trigger] slot_of[i]).0, key),
        forall|p: int, q: int, y: int|
            0 <= p < q < bind::reserved_keys(slot_of).len() && 0 <= y < slot_of.len()
                && bind::is_sequence_from(
                (#[trigger] slot_of[y]).0,
                #[trigger] bind::reserved_keys(slot_of)[q],
            ) ==> starts_before(slot_of, #[trigger] bind::reserved_keys(slot_of)[p], y),
    decreases slot_of.len(),
{
    if slot_of.len() > 0 {
        let init = slot_of.drop_last();
        let lhs = slot_of.last().0;
        let n = slot_of.len() - 1;
        let some = bind::reserved_keys(init);
        let all = bind::reserved_keys(slot_of);
        reserved_keys_are_first_keys(init);
        assert forall|i: int| 0 <= i < n implies init[i] == slot_of[i] by {}
        assert(slot_of[n].0 == lhs);
        assert forall|key: KeyEvent| #[trigger] all.contains(key) <==> exists|i: int|
            0 <= i < slot_of.len() && bind::is_sequence_from((#[trigger] slot_of[i]).0, key) by {
            if all.contains(key) {
                if some.contains(key) {
                    let i = choose|i: int|
                        0 <= i < init.len() && bind::is_sequence_from((#[trigger] init[i]).0, key);
                    assert(slot_of[i] == init[i]);
                } else {
                    let x = choose|x: int| 0 <= x < all.len() && all[x] == key;
                    assert(x == some.len());
                    assert(bind::is_sequence_from(slot_of[n].0, key));
                }
            }
            if exists|i: int|
                0 <= i < slot_of.len() && bind::is_sequence_from((#[trigger] slot_of[i]).0, key) {
                let i = choose|i: int|
                    0 <= i < slot_of.len() && bind::is_sequence_from((#[trigger] slot_of[i]).0, key);
                if i < n {
                    assert(bind::is_sequence_from(init[i].0, key));
                    assert(some.contains(key));
                    let x = choose|x: int| 0 <= x < some.len() && some[x] == key;
                    assert(all[x] == key);
                } else {
                    assert(lhs[0] == key);
                    if some.contains(key) {
                        let x = choose|x: int| 0 <= x < some.len() && some[x] == key;
                        assert(all[x] == key);
                    } else {
                        assert(all[some.len() as int] == key);
                    }
                }
            }
        }
        assert forall|p: int, q: int, y: int|
            0 <= p < q < all.len() && 0 <= y < slot_of.len() && bind::is_sequence_from(
                (#[trigger] slot_of[y]).0,
                #[trigger] all[q],
            ) implies starts_before(slot_of, #[trigger] all[p], y) by {
            assert(p < some.len());
            assert(all[p] == some[p]);
            assert(some.contains(some[p]));
            if y < n {
                assert(bind::is_sequence_from(init[y].0, all[q]));
                assert(some.contains(all[q]));
                if q == some.len() {
                    assert(!some.contains(all[q]));
                }
                assert(all[q] == some[q]);
                assert(starts_before(init, some[p], y));
                let x = choose|x: int|
                    0 <= x < y && bind::is_sequence_from((#[trigger] init[x]).0, some[p]);
                assert(bind::is_sequence_from(slot_of[x].0, all[p]));
            } else {
                let x = choose|x: int|
                    0 <= x < init.len() && bind::is_sequence_from((#[trigger] init[x]).0, some[p]);
                assert(bind::is_sequence_from(slot_of[x].0, all[p]));
            }
        }
    }
}

/// Whether a sequence that starts with a key stands before a place.
pub open spec fn starts_before(
    slot_of: Seq<(Seq<KeyEvent>, u32)>,
    key: KeyEvent,
    y: int,
) -> bool {
    exists|x: int| 0 <= x < y && bind::is_sequence_from((#[trigger] slot_of[x]).0, key)
}

/// The reservations of a surface are the keys that are reserved there, each
/// once; there are none exactly where nothing is reserved; and they stand in
/// the order of the first rule of each: before any sequence of a later one, the
/// listing has a sequence of an earlier one.
pub proof fn reservations_are_listed_in_rule_order(v: IndexView, id: Seq<char>)
    requires
        index_wf(v),
    ensures
        v.reservations(id).no_duplicates(),
        forall|key: KeyEvent| #[trigger] v.reservations(id).contains(key) <==> v.reserves(id, key),
        v.reservations(id).len() == 0 <==> !v.reserves_any(id),
        forall|p: int, q: int, j: int|
            0 <= p < q < v.reservations(id).len() && 0 <= j < v.rules().len() && (
            #[trigger] v.rules()[j]).surface == id && bind::is_sequence_from(
                v.rules()[j].lhs,
                #[trigger] v.reservations(id)[q],
            ) ==> listed_before(v, id, #[trigger] v.reservations(id)[p], j),
{
    place_is_first(v, id);
    if let Some(n) = v.place(id) {
        let slot_of = v.surfaces[n].slot_of;
        let keys = bind::reserved_keys(slot_of);
        reserved_keys_are_first_keys(slot_of);
        if v.reserves_any(id) {
            let i = choose|i: int| 0 <= i < slot_of.len() && (#[trigger] slot_of[i]).0.len() > 1;
            let key = slot_of[i].0[0];
            assert(bind::is_sequence_from(slot_of[i].0, key));
            assert(keys.contains(key));
        }
        if keys.len() > 0 {
            assert(keys.contains(keys[0]));
        }
        assert forall|p: int, q: int, j: int|
            0 <= p < q < keys.len() && 0 <= j < v.rules().len() && (
            #[trigger] v.rules()[j]).surface == id && bind::is_sequence_from(
                v.rules()[j].lhs,
                #[trigger] keys[q],
            ) implies listed_before(v, id, #[trigger] keys[p], j) by {
            let lhs = v.rules()[j].lhs;
            listed_rules_are_the_live_ones(v, id, lhs);
            lhs_place_is_first(slot_of, lhs);
            let y = bind::lhs_place(slot_of, lhs)->0;
            assert(listed(v, n, y));
            ranked(v, n, y);
            one_rule_per_surface_and_lhs(v, j, rank(v, slot_at(v, n, y) as int));
            assert(starts_before(slot_of, keys[p], y));
            let x = choose|x: int|
                0 <= x < y && bind::is_sequence_from((#[trigger] slot_of[x]).0, keys[p]);
            assert(listed(v, n, x));
            ranked(v, n, x);
            assert(slot_at(v, n, x) < slot_at(v, n, y));
            ranks_are_ordered(v, slot_at(v, n, x) as int, slot_at(v, n, y) as int);
            let i = rank(v, slot_at(v, n, x) as int);
            assert(bind::is_sequence_from(v.rules()[i].lhs, keys[p]));
        }
    }
}

/// Whether the listing has a sequence of a surface that starts with a key
/// before a place.
pub open spec fn listed_before(v: IndexView, id: Seq<char>, key: KeyEvent, j: int) -> bool {
    exists|i: int|
        {
            &&& 0 <= i < j
            &&& (#[trigger] v.rules()[i]).surface == id
            &&& bind::is_sequence_from(v.rules()[i].lhs, key)
        }
}

// ── What lines of configuration can do ────────────────────────────────

/// Whether a rule may stand where it stands: on a declared surface that is no
/// barrier, with a target that can be dispatched, and with a single key where
/// the script editor is within reach.
pub open spec fn is_sound(forest: Seq<SurfaceSpec>, rule: RuleView) -> bool {
    &&& surface::place_of(forest, rule.surface) matches Some(i) && forest[i].seal != Seal::Barrier
    &&& !(rule.target is Shortcut)
    &&& bind::reaches_editor(forest, rule.surface) ==> rule.lhs.len() == 1
}

/// Whether every rule of an index stands where it may.
pub open spec fn all_sound(v: IndexView) -> bool {
    forall|a: int| 0 <= a < v.arena.len() ==> is_sound(v.forest, #[trigger] v.arena[a])
}

/// No line of configuration, shipped or the user's, breaks the invariant or
/// puts a rule where it must not stand; a line that is rejected changes
/// nothing.
pub proof fn lines_keep_the_index_sound(
    v: IndexView,
    line: PanelLine,
    registry: Seq<ActionSpec>,
    owner: OwnerView,
)
    requires
        index_wf(v),
        all_sound(v),
        v.slots.len() < u32::MAX,
        v.arena.len() < u32::MAX,
    ensures
        ({
            let (u, rejected) = bind::line_applied(v, line, registry, owner);
            &&& index_wf(u)
            &&& all_sound(u)
            &&& u.forest == v.forest
            &&& rejected is Some ==> u == v
        }),
{
    match line {
        PanelLine::Bind { map, grammar } => {
            if let Ok(rule) = bind::rule_of_line(map, registry, v.forest, owner) {
                if bind::rejection(v.forest, rule, registry, grammar) is None {
                    upsert_keeps_the_invariant(v, rule);
                    slot_is_within(v, rule);
                    upserted_is(v, rule);
                    let u = v.upserted(rule);
                    assert forall|a: int| 0 <= a < u.arena.len() implies is_sound(
                        u.forest,
                        #[trigger] u.arena[a],
                    ) by {
                        if a < v.arena.len() {
                            assert(u.arena[a] == v.arena[a]);
                        }
                    }
                }
            }
        },
        PanelLine::Unmap { surface, lhs } => {
            remove_keeps_the_invariant(v, text::compact_text(surface), lhs@);
        },
        _ => {},
    }
}

/// Diagnostics with the numbers of their lines raised.
pub open spec fn raised(ds: Seq<DiagnosticView>, by: int) -> Seq<DiagnosticView> {
    ds.map_values(
        |d: DiagnosticView|
            DiagnosticView {
                line: match d.line {
                    Some(n) => Some((n + by) as u32),
                    None => None,
                },
                ..d
            },
    )
}

/// What the first lines do does not depend on the lines after them.
proof fn first_lines_stand_alone(
    v: IndexView,
    a: Seq<PanelLine>,
    b: Seq<PanelLine>,
    n: int,
    registry: Seq<ActionSpec>,
    owner: OwnerView,
    source: Seq<char>,
)
    requires
        0 <= n <= a.len(),
    ensures
        bind::lines_applied(v, a + b, n, registry, owner) == bind::lines_applied(
            v,
            a,
            n,
            registry,
            owner,
        ),
        bind::lines_rejected(v, a + b, n, registry, owner, source) == bind::lines_rejected(
            v,
            a,
            n,
            registry,
            owner,
            source,
        ),
    decreases n,
{
    if n > 0 {
        first_lines_stand_alone(v, a, b, n - 1, registry, owner, source);
        assert((a + b)[n - 1] == a[n - 1]);
    }
}

/// Each line adds at most one diagnostic, so one bad line never stops a later
/// good one; and lines after others do what they do by themselves, to the index
/// that the others left.
pub proof fn lines_apply_one_after_another(
    v: IndexView,
    a: Seq<PanelLine>,
    b: Seq<PanelLine>,
    n: int,
    registry: Seq<ActionSpec>,
    owner: OwnerView,
    source: Seq<char>,
)
    requires
        0 <= n <= b.len(),
        a.len() + b.len() <= u32::MAX,
    ensures
        ({
            let k = a.len() as int;
            let left = bind::lines_applied(v, a, k, registry, owner);
            let rejected = bind::lines_rejected(left, b, n, registry, owner, source);
            &&& bind::lines_applied(v, a + b, k + n, registry, owner) == bind::lines_applied(
                left,
                b,
                n,
                registry,
                owner,
            )
            &&& bind::lines_rejected(v, a + b, k + n, registry, owner, source)
                == bind::lines_rejected(v, a, k, registry, owner, source) + raised(rejected, k)
            &&& rejected.len() <= n
        }),
    decreases n,
{
    let k = a.len() as int;
    let left = bind::lines_applied(v, a, k, registry, owner);
    let first = bind::lines_rejected(v, a, k, registry, owner, source);
    if n == 0 {
        first_lines_stand_alone(v, a, b, k, registry, owner, source);
        let none = bind::lines_rejected(left, b, 0, registry, owner, source);
        assert(first + raised(none, k) =~= first);
    } else {
        lines_apply_one_after_another(v, a, b, n - 1, registry, owner, source);
        assert((a + b)[k + n - 1] == b[n - 1]);
        let before = bind::lines_rejected(left, b, n - 1, registry, owner, source);
        let after = bind::lines_rejected(left, b, n, registry, owner, source);
        if after.len() > before.len() {
            let d = after.last();
            assert(raised(before.push(d), k) =~= raised(before, k).push(
                DiagnosticView { line: Some((k + n) as u32), ..d },
            ));
            assert((first + raised(before, k)).push(
                DiagnosticView { line: Some((k + n) as u32), ..d },
            ) =~= first + raised(after, k));
        }
    }
}

/// Two texts joined by a newline apply as the one and then the other: their
/// lines read as the lines of each, the index is the same, and so are the
/// diagnostics, with the numbers of the later lines raised.
///
/// The first text ends with a character of its last line: a newline there would
/// make an empty line, and a carriage return would go with the newline.
pub proof fn joined_texts_apply_in_turn<F: Fn(&str) -> PanelLine>(
    read: F,
    v: IndexView,
    first: Seq<char>,
    second: Seq<char>,
    a: Seq<PanelLine>,
    b: Seq<PanelLine>,
    registry: Seq<ActionSpec>,
    owner: OwnerView,
    source: Seq<char>,
)
    requires
        first.len() > 0,
        first.last() != '\n',
        first.last() != '\r',
        a.len() == text::lines_of(first).len(),
        b.len() == text::lines_of(second).len(),
        a.len() + b.len() <= u32::MAX,
    ensures
        bind::reads(read, text::lines_of(first + seq!['\n'] + second), a + b) <==> bind::reads(
            read,
            text::lines_of(first),
            a,
        ) && bind::reads(read, text::lines_of(second), b),
        ({
            let k = a.len() as int;
            let left = bind::lines_applied(v, a, k, registry, owner);
            let after = bind::lines_applied(left, b, b.len() as int, registry, owner);
            let early = bind::lines_rejected(v, a, k, registry, owner, source);
            let late = bind::lines_rejected(left, b, b.len() as int, registry, owner, source);
            bind::text_applied(
                v,
                after,
                a + b,
                registry,
                owner,
                source,
                early + raised(late, k),
            )
        }),
{
    let joined = first + seq!['\n'] + second;
    let x = text::lines_of(first);
    let y = text::lines_of(second);
    text::joined_lines(first, second);
    lines_apply_one_after_another(v, a, b, b.len() as int, registry, owner, source);
    if bind::reads(read, x + y, a + b) {
        assert forall|i: int| 0 <= i < a.len() implies bind::read_as(
            read,
            x[i],
            #[trigger] a[i],
        ) by {
            assert((a + b)[i] == a[i]);
            assert((x + y)[i] == x[i]);
        }
        assert forall|i: int| 0 <= i < b.len() implies bind::read_as(
            read,
            y[i],
            #[trigger] b[i],
        ) by {
            assert((a + b)[a.len() + i] == b[i]);
            assert((x + y)[a.len() + i] == y[i]);
        }
    }
    if bind::reads(read, x, a) && bind::reads(read, y, b) {
        assert forall|i: int| 0 <= i < (a + b).len() implies bind::read_as(
            read,
            (x + y)[i],
            #[trigger] (a + b)[i],
        ) by {
            if i < a.len() {
                assert((a + b)[i] == a[i]);
            } else {
                assert((a + b)[i] == b[i - a.len()]);
            }
        }
    }
}

/// However many lines are applied to an index without rules, the invariant
/// holds and every rule stands where it may.
pub proof fn every_configuration_is_sound(
    v: IndexView,
    lines: Seq<PanelLine>,
    n: int,
    registry: Seq<ActionSpec>,
    owner: OwnerView,
)
    requires
        index_wf(v),
        all_sound(v),
        0 <= n <= lines.len(),
        v.slots.len() + n < u32::MAX,
        v.arena.len() + n < u32::MAX,
    ensures
        ({
            let u = bind::lines_applied(v, lines, n, registry, owner);
            &&& index_wf(u)
            &&& all_sound(u)
            &&& u.forest == v.forest
            &&& u.slots.len() <= v.slots.len() + n
            &&& u.arena.len() <= v.arena.len() + n
        }),
    decreases n,
{
    if n > 0 {
        every_configuration_is_sound(v, lines, n - 1, registry, owner);
        let w = bind::lines_applied(v, lines, n - 1, registry, owner);
        lines_keep_the_index_sound(w, lines[n - 1], registry, owner);
    }
}

/// Whatever the reader makes of the shipped texts, the builtin layer holds the
/// invariant and every rule of it stands where it may.
pub proof fn every_builtin_layer_is_sound(
    blocks: Seq<Seq<PanelLine>>,
    n: int,
    registry: Seq<ActionSpec>,
)
    requires
        0 <= n <= blocks.len(),
        n <= providers::shipped_providers().len(),
        forall|i: int| 0 <= i < n ==> (#[trigger] blocks[i]).len() < 1000,
    ensures
        ({
            let u = bind::blocks_applied(bind::shipped_empty(), blocks, n, registry);
            &&& index_wf(u)
            &&& all_sound(u)
            &&& u.forest == providers::shipped_surfaces()
            &&& u.slots.len() <= 1000 * n
            &&& u.arena.len() <= 1000 * n
        }),
    decreases n,
{
    if n <= 0 {
        empty_index_is_well_formed(bind::shipped_empty());
    } else {
        every_builtin_layer_is_sound(blocks, n - 1, registry);
        every_configuration_is_sound(
            bind::blocks_applied(bind::shipped_empty(), blocks, n - 1, registry),
            blocks[n - 1],
            blocks[n - 1].len() as int,
            registry,
            OwnerView::Host(providers::shipped_providers()[n - 1].tag@),
        );
    }
}

/// Where every rule stands where it may, no surface within reach of the script
/// editor reserves a key: a waiting buffer could otherwise destroy a command
/// of the editor's own.
pub proof fn surfaces_of_the_editor_reserve_nothing(
    v: IndexView,
    id: Seq<char>,
    key: KeyEvent,
)
    requires
        index_wf(v),
        all_sound(v),
        bind::reaches_editor(v.forest, id),
    ensures
        !v.reserves(id, key),
{
    reservations_are_live_sequences(v, id, key);
    live_rules_are_slots(v.slots, v.arena);
    if v.reserves(id, key) {
        let i = choose|i: int|
            0 <= i < v.rules().len() && (#[trigger] v.rules()[i]).surface == id
                && bind::is_sequence_from(v.rules()[i].lhs, key);
        let k = slot_of_live(v.slots, v.arena, i);
        assert(is_owned(v, k));
        assert(is_sound(v.forest, v.rules()[i]));
    }
}

} // verus!
