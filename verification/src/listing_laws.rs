//! What the two reports hold: every rule, every reservation, and what each
//! surface makes of a key.

use vstd::prelude::*;
use crate::action::{ActionSpec, TargetView};
use crate::caps;
use crate::bind;
use crate::bind::{
    Consumption, DiagnosticView, IndexView, OwnerView, PanelDiagnostic, ParseFault, RejectView,
    Repeat, RuleView,
};
use crate::introspect;
use crate::introspect::ChainFacts;
use crate::key::{KeyEvent, KeyNames};
use crate::keys;
use crate::keys::LhsFault;
use crate::resolve::{Candidate, CandidateView, Resolution, Stop};
use crate::surface::{ChainNode, FocusChain, Seal, SurfacePath};
use crate::text;
use crate::walk_laws;

verus! {

// ── Texts within texts ────────────────────────────────────────────────

/// Whether a text holds another.
pub open spec fn holds(whole: Seq<char>, part: Seq<char>) -> bool {
    exists|i: int|
        {
            &&& 0 <= i
            &&& i + part.len() <= whole.len()
            &&& #[trigger] whole.subrange(i, i + part.len()) == part
        }
}

proof fn held_between(before: Seq<char>, part: Seq<char>, after: Seq<char>)
    ensures
        holds(before + part + after, part),
{
    let whole = before + part + after;
    let i = before.len() as int;
    assert(whole.subrange(i, i + part.len()) =~= part);
}

proof fn held_in_what_is_held(whole: Seq<char>, middle: Seq<char>, part: Seq<char>)
    requires
        holds(whole, middle),
        holds(middle, part),
    ensures
        holds(whole, part),
{
    let i = choose|i: int|
        {
            &&& 0 <= i
            &&& i + middle.len() <= whole.len()
            &&& #[trigger] whole.subrange(i, i + middle.len()) == middle
        };
    let j = choose|j: int|
        {
            &&& 0 <= j
            &&& j + part.len() <= middle.len()
            &&& #[trigger] middle.subrange(j, j + part.len()) == part
        };
    assert(whole.subrange(i + j, i + j + part.len()) =~= part);
}

proof fn held_in_a_sum(a: Seq<char>, b: Seq<char>, part: Seq<char>)
    requires
        holds(a, part) || holds(b, part),
    ensures
        holds(a + b, part),
{
    let none = Seq::<char>::empty();
    if holds(a, part) {
        held_between(none, a, b);
        assert(none + a + b =~= a + b);
        held_in_what_is_held(a + b, a, part);
    } else {
        held_between(a, b, none);
        assert(a + b + none =~= a + b);
        held_in_what_is_held(a + b, b, part);
    }
}

proof fn held_in_a_list(parts: Seq<Seq<char>>, sep: Seq<char>, k: int)
    requires
        0 <= k < parts.len(),
    ensures
        holds(text::joined(parts, sep), parts[k]),
    decreases parts.len(),
{
    let none = Seq::<char>::empty();
    if parts.len() == 1 {
        held_between(none, parts[0], none);
        assert(none + parts[0] + none =~= parts[0]);
    } else {
        let init = text::joined(parts.drop_last(), sep);
        if k < parts.len() - 1 {
            held_in_a_list(parts.drop_last(), sep, k);
            held_in_a_sum(init, sep, parts[k]);
            held_in_a_sum(init + sep, parts.last(), parts[k]);
        } else {
            held_between(init + sep, parts.last(), none);
            assert(init + sep + parts.last() + none =~= init + sep + parts.last());
        }
    }
}

// ── The listing ───────────────────────────────────────────────────────

proof fn each_surface_is_within(
    v: IndexView,
    registry: Seq<ActionSpec>,
    names: KeyNames,
    n: int,
    s: int,
)
    requires
        0 <= s < n <= v.forest.len(),
    ensures
        holds(
            introspect::surfaces_text(v, registry, names, n),
            introspect::surface_text(v, registry, names, v.forest[s].id@),
        ),
    decreases n,
{
    let before = introspect::surfaces_text(v, registry, names, n - 1);
    let last = introspect::surface_text(v, registry, names, v.forest[n - 1].id@);
    let part = introspect::surface_text(v, registry, names, v.forest[s].id@);
    let none = Seq::<char>::empty();
    if s < n - 1 {
        each_surface_is_within(v, registry, names, n - 1, s);
    } else {
        held_between(none, part, none);
        assert(none + part + none =~= part);
    }
    held_in_a_sum(before, last, part);
}

#[verifier::spinoff_prover]
proof fn each_surface_is_listed(
    v: IndexView,
    registry: Seq<ActionSpec>,
    ds: Seq<PanelDiagnostic>,
    names: KeyNames,
    s: int,
)
    requires
        0 <= s < v.forest.len(),
    ensures
        holds(
            introspect::listing(v, registry, ds, names),
            introspect::surface_text(v, registry, names, v.forest[s].id@),
        ),
{
    let n = v.forest.len() as int;
    let part = introspect::surface_text(v, registry, names, v.forest[s].id@);
    each_surface_is_within(v, registry, names, n, s);
    let a = "--- panel bindings ---\n"@;
    let b = introspect::surfaces_text(v, registry, names, n);
    let c = "--- "@;
    let d = text::decimal(introspect::total_listed(v, n));
    let e = " binding(s) ---\n"@;
    let rest = if ds.len() == 0 {
        Seq::empty()
    } else {
        "--- "@ + text::decimal(ds.len()) + " rejected line(s) — these bound NOTHING ---\n"@
            + introspect::diagnostics_text(ds, names)
    };
    held_in_a_sum(a, b, part);
    held_in_a_sum(a + b, c, part);
    held_in_a_sum(a + b + c, d, part);
    held_in_a_sum(a + b + c + d, e, part);
    held_in_a_sum(a + b + c + d + e, rest, part);
    assert(introspect::listing(v, registry, ds, names) == a + b + c + d + e + rest);
}

proof fn each_rule_is_within(
    rules: Seq<RuleView>,
    registry: Seq<ActionSpec>,
    names: KeyNames,
    k: int,
)
    requires
        0 <= k < rules.len(),
    ensures
        holds(
            introspect::rules_text(rules, registry, names),
            introspect::listed_text(rules[k], registry, names),
        ),
    decreases rules.len(),
{
    let before = introspect::rules_text(rules.drop_last(), registry, names);
    let last = introspect::listed_text(rules.last(), registry, names);
    let part = introspect::listed_text(rules[k], registry, names);
    let none = Seq::<char>::empty();
    if k < rules.len() - 1 {
        each_rule_is_within(rules.drop_last(), registry, names, k);
    } else {
        held_between(none, part, none);
        assert(none + part + none =~= part);
    }
    held_in_a_sum(before, last, part);
}

/// Every live rule of a declared surface is listed under it, the way a user
/// would write it, with who installed it: a provider by its tag, or the user.
#[verifier::spinoff_prover]
pub proof fn every_rule_is_listed_with_its_owner(
    v: IndexView,
    registry: Seq<ActionSpec>,
    ds: Seq<PanelDiagnostic>,
    names: KeyNames,
    s: int,
    k: int,
)
    requires
        0 <= s < v.forest.len(),
        0 <= k < v.rules_on(v.forest[s].id@).len(),
    ensures
        ({
            let rule = v.rules_on(v.forest[s].id@)[k];
            let owner = match rule.owner {
                OwnerView::Host(tag) => tag,
                OwnerView::User => "user"@,
            };
            &&& rule.surface == v.forest[s].id@
            &&& v.rules().contains(rule)
            &&& holds(
                introspect::listing(v, registry, ds, names),
                "  "@ + introspect::rule_text(rule, registry, names) + "    ["@ + owner + "]\n"@,
            )
        }),
{
    let id = v.forest[s].id@;
    let rules = v.rules_on(id);
    let rule = rules[k];
    let p = |r: RuleView| r.surface == id;
    broadcast use vstd::seq_lib::group_filter_ensures;

    v.rules().lemma_filter_contains_rev(p, rule);
    assert(p(rule));
    let line = introspect::listed_text(rule, registry, names);
    each_rule_is_within(rules, registry, names, k);
    each_surface_is_listed(v, registry, ds, names, s);
    let whole = introspect::surface_text(v, registry, names, id);
    let b = introspect::rules_text(rules, registry, names);
    let c = introspect::reservations_text(v, id, names, v.reservations(id));
    let a = choose|a: Seq<char>| whole == #[trigger] (a + b) + c;
    assert(exists|a: Seq<char>| whole == #[trigger] (a + b) + c) by {
        surface_heading(v, registry, names, id);
    }
    held_in_a_sum(a, b, line);
    held_in_a_sum(a + b, c, line);
    held_in_what_is_held(introspect::listing(v, registry, ds, names), whole, line);
}

proof fn surface_heading(
    v: IndexView,
    registry: Seq<ActionSpec>,
    names: KeyNames,
    id: Seq<char>,
)
    requires
        v.rules_on(id).len() > 0,
    ensures
        exists|a: Seq<char>|
            introspect::surface_text(v, registry, names, id) == #[trigger] (a
                + introspect::rules_text(v.rules_on(id), registry, names))
                + introspect::reservations_text(v, id, names, v.reservations(id)),
{
    let seal = match introspect::declared(v.forest, id) {
        Some(spec) => spec.seal,
        None => Seal::Open,
    };
    let parent = match introspect::declared(v.forest, id) {
        Some(spec) => match spec.parent {
            Some(parent) => parent@,
            None => "-"@,
        },
        None => "-"@,
    };
    let a = introspect::heading_text(id, parent, seal);
    assert(introspect::surface_text(v, registry, names, id) == (a + introspect::rules_text(
        v.rules_on(id),
        registry,
        names,
    )) + introspect::reservations_text(v, id, names, v.reservations(id)));
}

proof fn each_reservation_is_within(
    v: IndexView,
    id: Seq<char>,
    names: KeyNames,
    keys: Seq<KeyEvent>,
    k: int,
)
    requires
        0 <= k < keys.len(),
    ensures
        holds(
            introspect::reservations_text(v, id, names, keys),
            introspect::reservation_text(v, id, names, keys[k]),
        ),
    decreases keys.len(),
{
    let before = introspect::reservations_text(v, id, names, keys.drop_last());
    let last = introspect::reservation_text(v, id, names, keys.last());
    let part = introspect::reservation_text(v, id, names, keys[k]);
    let none = Seq::<char>::empty();
    if k < keys.len() - 1 {
        each_reservation_is_within(v, id, names, keys.drop_last(), k);
    } else {
        held_between(none, part, none);
        assert(none + part + none =~= part);
    }
    held_in_a_sum(before, last, part);
}

/// Every key that a declared surface reserves is listed as reserved there, with
/// each sequence that waits for it.
#[verifier::spinoff_prover]
pub proof fn every_reservation_is_listed_with_its_sequences(
    v: IndexView,
    registry: Seq<ActionSpec>,
    ds: Seq<PanelDiagnostic>,
    names: KeyNames,
    s: int,
    k: int,
    r: int,
)
    requires
        0 <= s < v.forest.len(),
        0 <= k < v.reservations(v.forest[s].id@).len(),
        0 <= r < v.rules_on(v.forest[s].id@).len(),
        ({
            let rule = v.rules_on(v.forest[s].id@)[r];
            rule.lhs.len() > 1 && rule.lhs[0] == v.reservations(v.forest[s].id@)[k]
        }),
    ensures
        ({
            let id = v.forest[s].id@;
            let key = v.reservations(id)[k];
            let all = introspect::listing(v, registry, ds, names);
            let said = "  reserves "@ + names.spec_text(key) + "    (consumed bare on "@ + id;
            exists|line: Seq<char>|
                {
                    &&& #[trigger] holds(all, line)
                    &&& text::begins_with(line, said)
                    &&& holds(line, introspect::keys_text(names, v.rules_on(id)[r].lhs))
                }
        }),
{
    let id = v.forest[s].id@;
    let keys = v.reservations(id);
    let key = keys[k];
    let all = introspect::listing(v, registry, ds, names);
    let line = introspect::reservation_text(v, id, names, key);
    each_surface_is_listed(v, registry, ds, names, s);
    each_reservation_is_within(v, id, names, keys, k);
    let whole = introspect::surface_text(v, registry, names, id);
    let c = introspect::reservations_text(v, id, names, keys);
    surface_heading(v, registry, names, id);
    let a = choose|a: Seq<char>|
        whole == #[trigger] (a + introspect::rules_text(v.rules_on(id), registry, names)) + c;
    held_in_a_sum(a + introspect::rules_text(v.rules_on(id), registry, names), c, line);
    held_in_what_is_held(all, whole, line);
    let said = "  reserves "@ + names.spec_text(key) + "    (consumed bare on "@ + id;
    assert(line.take(said.len() as int) =~= said);
    let f = |rule: RuleView| bind::is_sequence_from(rule.lhs, key);
    let some = v.rules_on(id).filter(f);
    broadcast use vstd::seq_lib::group_filter_ensures;

    let rule = v.rules_on(id)[r];
    assert(f(rule));
    assert(some.contains(rule));
    let x = choose|x: int| 0 <= x < some.len() && some[x] == rule;
    let texts = introspect::lhs_texts(names, some);
    assert(texts[x] == introspect::keys_text(names, rule.lhs));
    held_in_a_list(texts, ", "@, x);
    let list = introspect::sequences_text(v, id, names, key);
    assert(list == text::joined(texts, ", "@));
    let head = "  reserves "@ + names.spec_text(key) + "    (consumed bare on "@ + id
        + ", then waits timeoutlen for: "@;
    held_in_a_sum(head, list, texts[x]);
    held_in_a_sum(head + list, ")\n"@, texts[x]);
    assert(line == head + list + ")\n"@);
}

/// What is told to wait for a key on a surface are sequences of that surface
/// that start with the key, and nothing else.
pub proof fn only_waiting_sequences_are_told(
    v: IndexView,
    id: Seq<char>,
    names: KeyNames,
    key: KeyEvent,
)
    ensures
        exists|told: Seq<RuleView>|
            {
                &&& introspect::sequences_text(v, id, names, key) == #[trigger] text::joined(
                    introspect::lhs_texts(names, told),
                    ", "@,
                )
                &&& introspect::lhs_texts(names, told).len() == told.len()
                &&& forall|k: int|
                    0 <= k < told.len() ==> {
                        &&& v.rules().contains(#[trigger] told[k])
                        &&& told[k].surface == id
                        &&& told[k].lhs.len() > 1
                        &&& told[k].lhs[0] == key
                        &&& introspect::lhs_texts(names, told)[k] == introspect::keys_text(
                            names,
                            told[k].lhs,
                        )
                    }
            },
{
    let f = |rule: RuleView| bind::is_sequence_from(rule.lhs, key);
    let p = |r: RuleView| r.surface == id;
    let told = v.rules_on(id).filter(f);
    broadcast use vstd::seq_lib::group_filter_ensures;

    assert forall|k: int| 0 <= k < told.len() implies {
        &&& v.rules().contains(#[trigger] told[k])
        &&& told[k].surface == id
        &&& told[k].lhs.len() > 1
        &&& told[k].lhs[0] == key
        &&& introspect::lhs_texts(names, told)[k] == introspect::keys_text(names, told[k].lhs)
    } by {
        assert(f(told[k]));
        v.rules_on(id).lemma_filter_contains_rev(f, told[k]);
        let x = choose|x: int| 0 <= x < v.rules_on(id).len() && v.rules_on(id)[x] == told[k];
        v.rules().lemma_filter_contains_rev(p, v.rules_on(id)[x]);
        assert(p(v.rules_on(id)[x]));
    }
    assert(introspect::sequences_text(v, id, names, key) == text::joined(
        introspect::lhs_texts(names, told),
        ", "@,
    ));
}

/// A key sequence is written key by key, each as its name, in order.
pub proof fn keys_are_written_in_order(names: KeyNames, a: Seq<KeyEvent>, b: Seq<KeyEvent>)
    ensures
        introspect::keys_text(names, a + b) == introspect::keys_text(names, a)
            + introspect::keys_text(names, b),
        a.len() == 1 ==> introspect::keys_text(names, a) == names.spec_text(a[0]),
    decreases b.len(),
{
    reveal_with_fuel(introspect::keys_text, 2);
    if a.len() == 1 {
        assert(a.drop_last() =~= Seq::empty());
        assert(introspect::keys_text(names, a) =~= names.spec_text(a[0]));
    }
    let whole = introspect::keys_text(names, a);
    if b.len() == 0 {
        assert(a + b =~= a);
        assert(whole + Seq::<char>::empty() =~= whole);
    } else {
        let init = b.drop_last();
        keys_are_written_in_order(names, a, init);
        assert((a + b).drop_last() =~= a + init);
        assert((a + b).last() == b.last());
        let x = introspect::keys_text(names, init);
        let y = names.spec_text(b.last());
        assert(whole + x + y =~= whole + (x + y));
    }
}

/// Rules are listed in their order, each on a line of its own.
pub proof fn rules_are_listed_in_order(
    a: Seq<RuleView>,
    b: Seq<RuleView>,
    registry: Seq<ActionSpec>,
    names: KeyNames,
)
    ensures
        introspect::rules_text(a + b, registry, names) == introspect::rules_text(
            a,
            registry,
            names,
        ) + introspect::rules_text(b, registry, names),
    decreases b.len(),
{
    let whole = introspect::rules_text(a, registry, names);
    if b.len() == 0 {
        assert(a + b =~= a);
        assert(whole + Seq::<char>::empty() =~= whole);
    } else {
        let init = b.drop_last();
        rules_are_listed_in_order(a, init, registry, names);
        assert((a + b).drop_last() =~= a + init);
        assert((a + b).last() == b.last());
        let x = introspect::rules_text(init, registry, names);
        let y = introspect::listed_text(b.last(), registry, names);
        assert(whole + x + y =~= whole + (x + y));
    }
}

/// How many of some rules are on the first `n` surfaces of a forest.
spec fn counted(rules: Seq<RuleView>, v: IndexView, n: int) -> nat
    decreases n,
{
    if n <= 0 {
        0
    } else {
        counted(rules, v, n - 1) + rules.filter(
            |r: RuleView| r.surface == v.forest[n - 1].id@,
        ).len()
    }
}

proof fn one_more_rule_is_counted_once(rules: Seq<RuleView>, rule: RuleView, v: IndexView, n: int)
    requires
        0 <= n <= v.forest.len(),
        forall|i: int, j: int|
            0 <= i < j < v.forest.len() ==> (#[trigger] v.forest[i]).id@ != (
            #[trigger] v.forest[j]).id@,
    ensures
        counted(rules.push(rule), v, n) == counted(rules, v, n) + (if exists|s: int|
            0 <= s < n && (#[trigger] v.forest[s]).id@ == rule.surface {
            1nat
        } else {
            0
        }),
    decreases n,
{
    if n > 0 {
        one_more_rule_is_counted_once(rules, rule, v, n - 1);
        let p = |r: RuleView| r.surface == v.forest[n - 1].id@;
        reveal(Seq::filter);
        assert(rules.push(rule).drop_last() =~= rules);
        if p(rule) {
            assert(v.forest[n - 1].id@ == rule.surface);
            assert(rules.push(rule).filter(p) == rules.filter(p).push(rule));
            assert forall|s: int| 0 <= s < n - 1 implies (#[trigger] v.forest[s]).id@
                != rule.surface by {
                assert(v.forest[s].id@ != v.forest[n - 1].id@);
            }
        } else {
            assert(rules.push(rule).filter(p) == rules.filter(p));
            if exists|s: int| 0 <= s < n && (#[trigger] v.forest[s]).id@ == rule.surface {
                let s = choose|s: int| 0 <= s < n && (#[trigger] v.forest[s]).id@ == rule.surface;
                assert(s < n - 1);
            }
        }
    }
}

proof fn every_rule_is_counted(rules: Seq<RuleView>, v: IndexView)
    requires
        forall|i: int, j: int|
            0 <= i < j < v.forest.len() ==> (#[trigger] v.forest[i]).id@ != (
            #[trigger] v.forest[j]).id@,
        forall|k: int|
            0 <= k < rules.len() ==> exists|s: int|
                0 <= s < v.forest.len() && (#[trigger] v.forest[s]).id@ == (
                #[trigger] rules[k]).surface,
    ensures
        counted(rules, v, v.forest.len() as int) == rules.len(),
    decreases rules.len(),
{
    let n = v.forest.len() as int;
    if rules.len() == 0 {
        nothing_is_counted(rules, v, n);
    } else {
        let init = rules.drop_last();
        assert forall|k: int| 0 <= k < init.len() implies exists|s: int|
            0 <= s < v.forest.len() && (#[trigger] v.forest[s]).id@ == (
            #[trigger] init[k]).surface by {
            assert(init[k] == rules[k]);
        }
        every_rule_is_counted(init, v);
        one_more_rule_is_counted_once(init, rules.last(), v, n);
        assert(init.push(rules.last()) =~= rules);
        assert(rules[rules.len() - 1] == rules.last());
    }
}

proof fn nothing_is_counted(rules: Seq<RuleView>, v: IndexView, n: int)
    requires
        rules.len() == 0,
    ensures
        counted(rules, v, n) == 0,
    decreases n,
{
    if n > 0 {
        nothing_is_counted(rules, v, n - 1);
        reveal(Seq::filter);
    }
}

proof fn listed_is_counted(v: IndexView, n: int)
    ensures
        introspect::total_listed(v, n) == counted(v.rules(), v, n),
    decreases n,
{
    if n > 0 {
        listed_is_counted(v, n - 1);
    }
}

proof fn three_regrouped(a: Seq<char>, b: Seq<char>, c: Seq<char>, d: Seq<char>)
    ensures
        a + b + c + d == a + (b + c + d),
{
    assert(a + b + c + d =~= a + (b + c + d));
}

#[verifier::spinoff_prover]
proof fn the_count_is_listed(
    v: IndexView,
    registry: Seq<ActionSpec>,
    ds: Seq<PanelDiagnostic>,
    names: KeyNames,
)
    ensures
        holds(
            introspect::listing(v, registry, ds, names),
            "--- "@ + text::decimal(introspect::total_listed(v, v.forest.len() as int))
                + " binding(s) ---\n"@,
        ),
{
    let n = v.forest.len() as int;
    let head = "--- panel bindings ---\n"@ + introspect::surfaces_text(v, registry, names, n);
    let d = text::decimal(introspect::total_listed(v, n));
    let count = "--- "@ + d + " binding(s) ---\n"@;
    let rest = if ds.len() == 0 {
        Seq::empty()
    } else {
        "--- "@ + text::decimal(ds.len()) + " rejected line(s) — these bound NOTHING ---\n"@
            + introspect::diagnostics_text(ds, names)
    };
    held_between(head, count, rest);
    three_regrouped(head, "--- "@, d, " binding(s) ---\n"@);
}

/// The listing counts every live rule once, where no surface is declared twice
/// and every rule is on a declared one.
pub proof fn the_listing_counts_every_rule_once(
    v: IndexView,
    registry: Seq<ActionSpec>,
    ds: Seq<PanelDiagnostic>,
    names: KeyNames,
)
    requires
        forall|i: int, j: int|
            0 <= i < j < v.forest.len() ==> (#[trigger] v.forest[i]).id@ != (
            #[trigger] v.forest[j]).id@,
        forall|k: int|
            0 <= k < v.rules().len() ==> exists|s: int|
                0 <= s < v.forest.len() && (#[trigger] v.forest[s]).id@ == (
                #[trigger] v.rules()[k]).surface,
    ensures
        holds(
            introspect::listing(v, registry, ds, names),
            "--- "@ + text::decimal(v.rules().len()) + " binding(s) ---\n"@,
        ),
{
    listed_is_counted(v, v.forest.len() as int);
    every_rule_is_counted(v.rules(), v);
    the_count_is_listed(v, registry, ds, names);
}

/// A surface without rules is listed as such, a barrier as one; and one with
/// rules under its name, with its parent and its seal.
#[verifier::spinoff_prover]
pub proof fn a_surface_is_listed_as_what_it_is(
    v: IndexView,
    registry: Seq<ActionSpec>,
    ds: Seq<PanelDiagnostic>,
    names: KeyNames,
    s: int,
)
    requires
        0 <= s < v.forest.len(),
        forall|j: int| 0 <= j < s ==> (#[trigger] v.forest[j]).id@ != v.forest[s].id@,
    ensures
        ({
            let spec = v.forest[s];
            let id = spec.id@;
            let all = introspect::listing(v, registry, ds, names);
            let seal = match spec.seal {
                Seal::Open => "Open"@,
                Seal::Sealed => "Sealed"@,
                Seal::Barrier => "Barrier"@,
            };
            let parent = match spec.parent {
                Some(parent) => parent@,
                None => "-"@,
            };
            if v.rules_on(id).len() > 0 {
                holds(all, id + "  (parent: "@ + parent + ", seal: "@ + seal + ")\n"@)
            } else if spec.seal is Barrier {
                holds(all, id + "  (barrier — takes no bindings)"@ + "\n"@)
            } else {
                holds(all, id + "  (no bindings)"@ + "\n"@)
            }
        }),
{
    let spec = v.forest[s];
    let id = spec.id@;
    let all = introspect::listing(v, registry, ds, names);
    crate::surface::first_is_place_of(v.forest, id, s);
    each_surface_is_listed(v, registry, ds, names, s);
    if v.rules_on(id).len() > 0 {
        let parent = match spec.parent {
            Some(parent) => parent@,
            None => "-"@,
        };
        let a = introspect::heading_text(id, parent, spec.seal);
        let b = introspect::rules_text(v.rules_on(id), registry, names);
        let c = introspect::reservations_text(v, id, names, v.reservations(id));
        let whole = introspect::surface_text(v, registry, names, id);
        let none = Seq::<char>::empty();
        held_between(none, a, b + c);
        assert(none + a + (b + c) =~= whole);
        held_in_what_is_held(all, whole, a);
    }
}

// ── The explanation ───────────────────────────────────────────────────

proof fn each_place_is_within(
    v: IndexView,
    registry: Seq<ActionSpec>,
    path: SurfacePath,
    names: KeyNames,
    key: KeyEvent,
    n: int,
    j: int,
)
    requires
        0 <= j < n <= path.ids@.len(),
    ensures
        holds(
            introspect::stack_text(v, registry, path, names, key, n),
            introspect::candidates_text(v, registry, path, names, path.ids@[j], key),
        ),
    decreases n,
{
    let before = introspect::stack_text(v, registry, path, names, key, n - 1);
    let last = introspect::candidates_text(v, registry, path, names, path.ids@[n - 1], key);
    let part = introspect::candidates_text(v, registry, path, names, path.ids@[j], key);
    let none = Seq::<char>::empty();
    if j < n - 1 {
        each_place_is_within(v, registry, path, names, key, n - 1, j);
    } else {
        held_between(none, part, none);
        assert(none + part + none =~= part);
    }
    held_in_a_sum(before, last, part);
}

#[verifier::spinoff_prover]
proof fn each_place_is_explained(
    lhs: Seq<char>,
    sequence: bool,
    chain: FocusChain,
    facts: ChainFacts,
    path: SurfacePath,
    v: IndexView,
    registry: Seq<ActionSpec>,
    names: KeyNames,
    key: KeyEvent,
    verdict: Resolution,
    j: int,
)
    requires
        0 <= j < path.ids@.len(),
    ensures
        holds(
            introspect::explanation(
                lhs,
                sequence,
                chain,
                facts,
                path,
                v,
                registry,
                names,
                key,
                verdict,
            ),
            introspect::candidates_text(v, registry, path, names, path.ids@[j], key),
        ),
{
    let n = path.ids@.len() as int;
    let stack = introspect::stack_text(v, registry, path, names, key, n);
    let part = introspect::candidates_text(v, registry, path, names, path.ids@[j], key);
    each_place_is_within(v, registry, path, names, key, n, j);
    let a = introspect::setting_text(lhs, sequence, chain, facts, path, names, key);
    let c = introspect::resolution_text(verdict, names);
    held_in_a_sum(a, stack, part);
    held_in_a_sum(a + stack, c, part);
}

#[verifier::spinoff_prover]
proof fn what_a_place_says(
    v: IndexView,
    registry: Seq<ActionSpec>,
    path: SurfacePath,
    names: KeyNames,
    j: int,
    key: KeyEvent,
)
    requires
        0 <= j < path.ids@.len(),
    ensures
        ({
            let id = path.ids@[j];
            let part = introspect::candidates_text(v, registry, path, names, id, key);
            &&& v.reserves(id@, key) ==> holds(part, introspect::reserved_text(v, names, id, key))
            &&& match v.rule_for(id@, seq![key]) {
                Some(rule) => holds(
                    part,
                    introspect::reached_text(rule, registry, path.caps, names, id, key),
                ),
                None => !v.reserves(id@, key) ==> holds(
                    part,
                    "  "@ + id@ + ": no rule for this key\n"@,
                ),
            }
        }),
{
    let id = path.ids@[j];
    let reserved = v.reserves(id@, key);
    let shadows = introspect::shadow_texts(v.rules_on(id@), registry, names);
    let x = introspect::when(reserved, introspect::reserved_text(v, names, id, key));
    let y = match v.rule_for(id@, seq![key]) {
        Some(rule) => introspect::reached_text(rule, registry, path.caps, names, id, key),
        None => introspect::when(!reserved, "  "@ + id@ + ": no rule for this key\n"@),
    };
    let z = introspect::when(
        introspect::sees_guess(v, path, id) && shadows.len() > 0,
        introspect::shadows_text(id, shadows),
    );
    let none = Seq::<char>::empty();
    held_between(x, y, z);
    held_between(none, x, y);
    assert(none + x + y =~= x + y);
    held_in_a_sum(x + y, z, x);
}

#[verifier::spinoff_prover]
proof fn a_reservation_says_its_key(
    v: IndexView,
    names: KeyNames,
    path: SurfacePath,
    j: int,
    key: KeyEvent,
)
    requires
        0 <= j < path.ids@.len(),
    ensures
        holds(
            introspect::reserved_text(v, names, path.ids@[j], key),
            "  "@ + path.ids@[j]@ + ": RESERVED — "@ + names.spec_text(key),
        ),
{
    let id = path.ids@[j];
    let said = "  "@ + id@ + ": RESERVED — "@ + names.spec_text(key);
    let a = " is consumed bare here and the plugin waits timeoutlen for: "@;
    let b = introspect::sequences_text(v, id@, names, key);
    let none = Seq::<char>::empty();
    held_between(none, said, a);
    assert(none + said + a =~= said + a);
    held_in_a_sum(said + a, b, said);
    held_in_a_sum(said + a + b, "\n"@, said);
}

/// The explanation says of every surface of the path what it makes of the key:
/// that the key is reserved there; which rule it leads to, and what becomes of
/// that; or that there is no rule for it.
#[verifier::spinoff_prover]
pub proof fn every_surface_of_the_path_is_explained(
    lhs: Seq<char>,
    sequence: bool,
    chain: FocusChain,
    facts: ChainFacts,
    path: SurfacePath,
    v: IndexView,
    registry: Seq<ActionSpec>,
    names: KeyNames,
    key: KeyEvent,
    verdict: Resolution,
    j: int,
)
    requires
        0 <= j < path.ids@.len(),
    ensures
        ({
            let id = path.ids@[j];
            let report = introspect::explanation(
                lhs,
                sequence,
                chain,
                facts,
                path,
                v,
                registry,
                names,
                key,
                verdict,
            );
            &&& v.reserves(id@, key) ==> holds(
                report,
                "  "@ + id@ + ": RESERVED — "@ + names.spec_text(key),
            )
            &&& match v.rule_for(id@, seq![key]) {
                Some(rule) => holds(
                    report,
                    "  "@ + id@ + ": "@ + introspect::rule_text(rule, registry, names) + " via "@
                        + names.spec_text(key) + " -> "@ + introspect::verdict_text(rule, registry, path.caps) + "\n"@,
                ),
                None => !v.reserves(id@, key) ==> holds(
                    report,
                    "  "@ + id@ + ": no rule for this key\n"@,
                ),
            }
        }),
{
    let id = path.ids@[j];
    let report = introspect::explanation(
        lhs,
        sequence,
        chain,
        facts,
        path,
        v,
        registry,
        names,
        key,
        verdict,
    );
    let part = introspect::candidates_text(v, registry, path, names, id, key);
    each_place_is_explained(
        lhs,
        sequence,
        chain,
        facts,
        path,
        v,
        registry,
        names,
        key,
        verdict,
        j,
    );
    what_a_place_says(v, registry, path, names, j, key);
    match v.rule_for(id@, seq![key]) {
        Some(rule) => {
            let line = introspect::reached_text(rule, registry, path.caps, names, id, key);
            held_in_what_is_held(report, part, line);
        },
        None => {
            if !v.reserves(id@, key) {
                let line = "  "@ + id@ + ": no rule for this key\n"@;
                held_in_what_is_held(report, part, line);
            }
        },
    }
    if v.reserves(id@, key) {
        let said = "  "@ + id@ + ": RESERVED — "@ + names.spec_text(key);
        let line = introspect::reserved_text(v, names, id, key);
        a_reservation_says_its_key(v, names, path, j, key);
        held_in_what_is_held(report, part, line);
        held_in_what_is_held(report, line, said);
    }
}

/// What the explanation says of a surface and a key that no guess bears on is
/// one line, or two where the key is both reserved and bound without waiting.
#[verifier::spinoff_prover]
pub proof fn nothing_else_is_said_of_a_surface(
    v: IndexView,
    registry: Seq<ActionSpec>,
    path: SurfacePath,
    names: KeyNames,
    j: int,
    key: KeyEvent,
)
    requires
        0 <= j < path.ids@.len(),
        path.anchor_refuses_positional || forall|k: int|
            0 <= k < v.rules().len() ==> (#[trigger] v.rules()[k]).surface != path.ids@[j]@
                || !v.rules()[k].physical,
    ensures
        ({
            let id = path.ids@[j];
            let said = introspect::candidates_text(v, registry, path, names, id, key);
            let reserved = introspect::reserved_text(v, names, id, key);
            match v.rule_for(id@, seq![key]) {
                Some(rule) => {
                    let line = introspect::reached_text(
                        rule,
                        registry,
                        path.caps,
                        names,
                        id,
                        key,
                    );
                    said == if v.reserves(id@, key) {
                        reserved + line
                    } else {
                        line
                    }
                },
                None => said == if v.reserves(id@, key) {
                    reserved
                } else {
                    "  "@ + id@ + ": no rule for this key\n"@
                },
            }
        }),
{
    let id = path.ids@[j];
    assert(!introspect::sees_guess(v, path, id));
    let said = introspect::candidates_text(v, registry, path, names, id, key);
    let reserved = introspect::reserved_text(v, names, id, key);
    match v.rule_for(id@, seq![key]) {
        Some(rule) => {
            let line = introspect::reached_text(rule, registry, path.caps, names, id, key);
            if v.reserves(id@, key) {
                assert(said =~= reserved + line);
            } else {
                assert(said =~= line);
            }
        },
        None => {
            if v.reserves(id@, key) {
                assert(said =~= reserved);
            } else {
                assert(said =~= "  "@ + id@ + ": no rule for this key\n"@);
            }
        },
    }
}

/// What is said of a rule: that it is eligible, by its verb's name, exactly
/// where its verb may run; that it is skipped where it may not; that the key is
/// handed back, or that its shortcut is not dispatched, where those are its
/// target.
pub proof fn a_rule_is_called_eligible_where_it_may_run(
    rule: RuleView,
    registry: Seq<ActionSpec>,
    path: SurfacePath,
)
    ensures
        ({
            let said = introspect::verdict_text(rule, registry, path.caps);
            match rule.target {
                TargetView::Action(id) => if walk_laws::may_run(rule, registry, path.caps) {
                    said == "eligible ("@ + registry[id.0 as int].id@ + ")"@
                } else {
                    &&& text::begins_with(said, "SKIPPED"@)
                    &&& id.0 < registry.len() ==> {
                        let spec = registry[id.0 as int];
                        &&& holds(said, spec.id@)
                        &&& holds(said, " needs "@ + caps::caps_text(spec.requires))
                        &&& holds(said, ", path offers "@ + caps::caps_text(path.caps))
                    }
                },
                TargetView::Native => text::begins_with(said, "native"@),
                TargetView::Shortcut(shortcut) => text::begins_with(said, "NOT DISPATCHED"@)
                    && holds(said, shortcut),
            }
        }),
{
    reveal_strlit("SKIPPED");
    reveal_strlit("SKIPPED — ");
    reveal_strlit("SKIPPED (action not registered)");
    reveal_strlit("native");
    reveal_strlit("native — hands the key back and stops the walk");
    reveal_strlit("NOT DISPATCHED");
    reveal_strlit("NOT DISPATCHED — editor shortcut ");
    let said = introspect::verdict_text(rule, registry, path.caps);
    match rule.target {
        TargetView::Action(id) => {
            if !walk_laws::may_run(rule, registry, path.caps) {
                assert(said.take(7) =~= "SKIPPED"@);
                if id.0 < registry.len() {
                    let spec = registry[id.0 as int];
                    let a = "SKIPPED — "@;
                    let b = " needs "@;
                    let c = caps::caps_text(spec.requires);
                    let d = ", path offers "@;
                    let e = caps::caps_text(path.caps);
                    held_between(a, spec.id@, b);
                    held_in_two_more(a + spec.id@ + b, c, d, spec.id@);
                    held_in_a_sum(a + spec.id@ + b + c + d, e, spec.id@);
                    pair_is_held(a + spec.id@, b, c);
                    held_in_two_more(a + spec.id@ + b + c, d, e, b + c);
                    pair_is_held(a + spec.id@ + b + c, d, e);
                }
            }
        },
        TargetView::Native => {
            assert(said.take(6) =~= "native"@);
        },
        TargetView::Shortcut(shortcut) => {
            held_between("NOT DISPATCHED — editor shortcut "@, shortcut, " always declines"@);
            assert(said.take(14) =~= "NOT DISPATCHED"@);
        },
    }
}

/// The explanation tells the policy of what runs: a void rule is said to consume
/// always, any other only if its verb accepts; and a suppressed repeat adds one
/// sentence to what is said.
#[verifier::spinoff_prover]
pub proof fn the_policy_of_what_runs_is_told(c: CandidateView)
    ensures
        c.consume == Consumption::Void ==> holds(introspect::running_text(c), "consumed ALWAYS"@),
        c.consume == Consumption::Elastic ==> holds(
            introspect::running_text(c),
            "consumed only if the action accepts"@,
        ),
        introspect::running_text(CandidateView { repeat: Repeat::Suppress, ..c })
            == introspect::running_text(CandidateView { repeat: Repeat::Allow, ..c })
            + "repeat: key-repeat echoes are consumed WITHOUT running the action\n"@,
{
    let head = "runs: "@ + (match c.target {
        crate::resolve::CandidateTargetView::Action(_, spec) => spec.id@,
        crate::resolve::CandidateTargetView::Shortcut(path) => "<Shortcut>("@ + path
            + ") — NOT DISPATCHED, always declines"@,
    }) + " on '"@ + c.surface@ + "'\n"@ + "consumption: "@;
    let void =
        "consumed ALWAYS (void) — even if the action declines, and the walk stops"@;
    let elastic =
        "consumed only if the action accepts (elastic); otherwise Godot gets the key"@;
    let policy = match c.consume {
        Consumption::Void => void,
        Consumption::Elastic => elastic,
    };
    let repeat = introspect::when(
        c.repeat == Repeat::Suppress,
        "repeat: key-repeat echoes are consumed WITHOUT running the action\n"@,
    );
    let said = introspect::running_text(c);
    assert(said == head + policy + "\n"@ + repeat);
    held_between(head, policy, "\n"@ + repeat);
    assert(head + policy + ("\n"@ + repeat) =~= said);
    reveal_strlit("consumed ALWAYS");
    reveal_strlit("consumed ALWAYS (void) — even if the action declines, and the walk stops");
    reveal_strlit("consumed only if the action accepts");
    reveal_strlit("consumed only if the action accepts (elastic); otherwise Godot gets the key");
    assert(void.subrange(0, 0int + "consumed ALWAYS"@.len()) =~= "consumed ALWAYS"@);
    assert(elastic.subrange(0, 0int + "consumed only if the action accepts"@.len())
        =~= "consumed only if the action accepts"@);
    if c.consume == Consumption::Void {
        held_in_what_is_held(said, void, "consumed ALWAYS"@);
    } else {
        held_in_what_is_held(said, elastic, "consumed only if the action accepts"@);
    }
    assert(introspect::running_text(CandidateView { repeat: Repeat::Suppress, ..c })
        =~= introspect::running_text(CandidateView { repeat: Repeat::Allow, ..c })
        + "repeat: key-repeat echoes are consumed WITHOUT running the action\n"@);
}

#[verifier::spinoff_prover]
proof fn held_in_the_setting(
    lhs: Seq<char>,
    sequence: bool,
    chain: FocusChain,
    facts: ChainFacts,
    path: SurfacePath,
    names: KeyNames,
    key: KeyEvent,
    part: Seq<char>,
)
    requires
        holds(introspect::title_text(lhs), part) || holds(introspect::chain_text(chain), part)
            || holds(introspect::facts_text(chain, facts), part) || holds(
            introspect::path_text(path),
            part,
        ) || holds(introspect::probes_text(names, key), part),
    ensures
        holds(introspect::setting_text(lhs, sequence, chain, facts, path, names, key), part),
{
    let a = introspect::title_text(lhs);
    let b = introspect::when(
        sequence,
        "a sequence resolves one keystroke at a time against the pending buffer; explaining the first key only\n"@,
    );
    let c = introspect::chain_text(chain);
    let d = introspect::facts_text(chain, facts);
    let e = introspect::path_text(path);
    let f = introspect::probes_text(names, key);
    let g = "candidates:\n"@;
    if holds(a, part) {
        held_in_a_sum(a, b, part);
    }
    if holds(a + b, part) || holds(c, part) {
        held_in_a_sum(a + b, c, part);
    }
    if holds(a + b + c, part) || holds(d, part) {
        held_in_a_sum(a + b + c, d, part);
    }
    if holds(a + b + c + d, part) || holds(e, part) {
        held_in_a_sum(a + b + c + d, e, part);
    }
    if holds(a + b + c + d + e, part) || holds(f, part) {
        held_in_a_sum(a + b + c + d + e, f, part);
    }
    held_in_a_sum(a + b + c + d + e + f, g, part);
}

#[verifier::spinoff_prover]
proof fn held_in_the_explanation(
    lhs: Seq<char>,
    sequence: bool,
    chain: FocusChain,
    facts: ChainFacts,
    path: SurfacePath,
    v: IndexView,
    registry: Seq<ActionSpec>,
    names: KeyNames,
    key: KeyEvent,
    verdict: Resolution,
    part: Seq<char>,
)
    requires
        holds(introspect::setting_text(lhs, sequence, chain, facts, path, names, key), part)
            || holds(introspect::resolution_text(verdict, names), part),
    ensures
        holds(
            introspect::explanation(
                lhs,
                sequence,
                chain,
                facts,
                path,
                v,
                registry,
                names,
                key,
                verdict,
            ),
            part,
        ),
{
    let a = introspect::setting_text(lhs, sequence, chain, facts, path, names, key);
    let n = path.ids@.len() as int;
    let b = introspect::stack_text(v, registry, path, names, key, n);
    let c = introspect::resolution_text(verdict, names);
    if holds(a, part) {
        held_in_a_sum(a, b, part);
    }
    held_in_a_sum(a + b, c, part);
}

proof fn each_node_is_within(nodes: Seq<ChainNode>, n: int, i: int)
    requires
        0 <= i < n <= nodes.len(),
    ensures
        holds(
            introspect::nodes_text(nodes, n),
            "] "@ + text::compact_text(nodes[i].class) + " ("@ + text::compact_text(nodes[i].name),
        ),
    decreases n,
{
    let before = introspect::nodes_text(nodes, n - 1);
    let part = "] "@ + text::compact_text(nodes[i].class) + " ("@ + text::compact_text(
        nodes[i].name,
    );
    if i < n - 1 {
        each_node_is_within(nodes, n - 1, i);
        let a = "  ["@;
        let b = text::decimal((n - 1) as nat);
        let c = "] "@;
        let d = text::compact_text(nodes[n - 1].class);
        let e = " ("@;
        let f = text::compact_text(nodes[n - 1].name);
        held_in_a_sum(before, a, part);
        held_in_a_sum(before + a, b, part);
        held_in_a_sum(before + a + b, c, part);
        held_in_a_sum(before + a + b + c, d, part);
        held_in_a_sum(before + a + b + c + d, e, part);
        held_in_a_sum(before + a + b + c + d + e, f, part);
        held_in_a_sum(before + a + b + c + d + e + f, ")\n"@, part);
    } else {
        let head = before + "  ["@ + text::decimal((n - 1) as nat);
        held_between(head, part, ")\n"@);
        assert(introspect::nodes_text(nodes, n) =~= head + part + ")\n"@);
    }
}

/// The explanation tells where the focus is: every node of the chain, by its
/// class and its name, from the focused control outward, or that there is none.
#[verifier::spinoff_prover]
pub proof fn every_node_of_the_chain_is_told(
    lhs: Seq<char>,
    sequence: bool,
    chain: FocusChain,
    facts: ChainFacts,
    path: SurfacePath,
    v: IndexView,
    registry: Seq<ActionSpec>,
    names: KeyNames,
    key: KeyEvent,
    verdict: Resolution,
    i: int,
)
    requires
        0 <= i < chain.nodes@.len() || chain.nodes@.len() == 0,
    ensures
        ({
            let report = introspect::explanation(
                lhs,
                sequence,
                chain,
                facts,
                path,
                v,
                registry,
                names,
                key,
                verdict,
            );
            if chain.nodes@.len() == 0 {
                holds(report, "<no focus owner>"@)
            } else {
                let node = chain.nodes@[i];
                holds(
                    report,
                    "] "@ + text::compact_text(node.class) + " ("@ + text::compact_text(node.name),
                )
            }
        }),
{
    let whole = introspect::chain_text(chain);
    let head = "focus chain (leaf first):\n"@;
    let part = if chain.nodes@.len() == 0 {
        "<no focus owner>"@
    } else {
        "] "@ + text::compact_text(chain.nodes@[i].class) + " ("@ + text::compact_text(
            chain.nodes@[i].name,
        )
    };
    if chain.nodes@.len() == 0 {
        reveal_strlit("  <no focus owner>\n");
        reveal_strlit("<no focus owner>");
        let line = "  <no focus owner>\n"@;
        assert(line.subrange(2, 2int + part.len()) =~= part);
        held_in_a_sum(head, line, part);
    } else {
        let n = chain.nodes@.len() as int;
        each_node_is_within(chain.nodes@, n, i);
        held_in_a_sum(head, introspect::nodes_text(chain.nodes@, n), part);
    }
    assert(holds(whole, part));
    held_in_the_setting(lhs, sequence, chain, facts, path, names, key, part);
    held_in_the_explanation(
        lhs,
        sequence,
        chain,
        facts,
        path,
        v,
        registry,
        names,
        key,
        verdict,
        part,
    );
}

/// The word for a truth value.
pub open spec fn word(b: bool) -> Seq<char> {
    if b {
        "true"@
    } else {
        "false"@
    }
}

#[verifier::spinoff_prover]
proof fn pair_is_held(head: Seq<char>, x: Seq<char>, y: Seq<char>)
    ensures
        holds(head + x + y, x + y),
{
    let whole = head + x + y;
    let part = x + y;
    let i = head.len() as int;
    assert(whole.subrange(i, i + part.len()) =~= part);
}

proof fn held_in_two_more(whole: Seq<char>, x: Seq<char>, y: Seq<char>, part: Seq<char>)
    requires
        holds(whole, part),
    ensures
        holds(whole + x + y, part),
{
    held_in_a_sum(whole, x, part);
    held_in_a_sum(whole + x, y, part);
}

#[verifier::spinoff_prover]
proof fn what_the_facts_say(chain: FocusChain, facts: ChainFacts)
    ensures
        ({
            let said = introspect::facts_text(chain, facts);
            &&& holds(said, "attached_editor="@ + facts.attached_editor@)
            &&& holds(said, " mode="@ + facts.editor_mode@)
            &&& holds(said, " in_filesystem_dock="@ + word(chain.in_filesystem_dock))
            &&& holds(said, " sibling_nav="@ + word(chain.sibling_nav_control is Some))
            &&& holds(said, " prompt="@ + word(chain.is_plugin_prompt))
        }),
{
    let said = introspect::facts_text(chain, facts);
    reveal_strlit("facts: attached_editor=");
    reveal_strlit("attached_editor=");
    let a0 = "facts: "@;
    let a = "facts: attached_editor="@;
    reveal_strlit("facts: ");
    assert(a =~= a0 + "attached_editor="@);
    let b = facts.attached_editor@;
    let c = " mode="@;
    let d = facts.editor_mode@;
    let e = " in_filesystem_dock="@;
    let f = word(chain.in_filesystem_dock);
    let g = " sibling_nav="@;
    let h = word(chain.sibling_nav_control is Some);
    let i = " prompt="@;
    let j = word(chain.is_plugin_prompt);
    let k = "\n"@;
    assert(said == a + b + c + d + e + f + g + h + i + j + k);
    let s1 = a + b;
    let s2 = s1 + c + d;
    let s3 = s2 + e + f;
    let s4 = s3 + g + h;
    let s5 = s4 + i + j;
    let p1 = "attached_editor="@ + b;
    pair_is_held(a0, "attached_editor="@, b);
    pair_is_held(s1, c, d);
    pair_is_held(s2, e, f);
    pair_is_held(s3, g, h);
    pair_is_held(s4, i, j);
    held_in_two_more(s1, c, d, p1);
    held_in_two_more(s2, e, f, p1);
    held_in_two_more(s2, e, f, c + d);
    held_in_two_more(s3, g, h, p1);
    held_in_two_more(s3, g, h, c + d);
    held_in_two_more(s3, g, h, e + f);
    held_in_two_more(s4, i, j, p1);
    held_in_two_more(s4, i, j, c + d);
    held_in_two_more(s4, i, j, e + f);
    held_in_two_more(s4, i, j, g + h);
    held_in_a_sum(s5, k, p1);
    held_in_a_sum(s5, k, c + d);
    held_in_a_sum(s5, k, e + f);
    held_in_a_sum(s5, k, g + h);
    held_in_a_sum(s5, k, i + j);
}

#[verifier::spinoff_prover]
proof fn what_the_offer_says(path: SurfacePath)
    ensures
        ({
            let said = introspect::offer_text(path);
            let seal = match path.seal {
                Seal::Open => "Open"@,
                Seal::Sealed => "Sealed"@,
                Seal::Barrier => "Barrier"@,
            };
            &&& holds(said, "  caps: "@ + caps::caps_text(path.caps))
            &&& holds(said, "  seal: "@ + seal)
            &&& holds(said, "  yields_to_engine: "@ + word(path.anchor_yields_to_engine))
            &&& holds(said, "  refuses_positional: "@ + word(path.anchor_refuses_positional))
        }),
{
    let said = introspect::offer_text(path);
    let a = "anchor: "@ + introspect::anchor_text(path.anchor);
    let b = "  caps: "@;
    let c = caps::caps_text(path.caps);
    let d = "  seal: "@;
    let e = introspect::seal_text(path.seal);
    let f = "  yields_to_engine: "@;
    let g = word(path.anchor_yields_to_engine);
    let h = "  refuses_positional: "@;
    let i = word(path.anchor_refuses_positional);
    let j = "\n"@;
    assert(said == a + b + c + d + e + f + g + h + i + j);
    let s1 = a + b + c;
    let s2 = s1 + d + e;
    let s3 = s2 + f + g;
    let s4 = s3 + h + i;
    pair_is_held(a, b, c);
    pair_is_held(s1, d, e);
    pair_is_held(s2, f, g);
    pair_is_held(s3, h, i);
    held_in_two_more(s1, d, e, b + c);
    held_in_two_more(s2, f, g, b + c);
    held_in_two_more(s2, f, g, d + e);
    held_in_two_more(s3, h, i, b + c);
    held_in_two_more(s3, h, i, d + e);
    held_in_two_more(s3, h, i, f + g);
    held_in_a_sum(s4, j, b + c);
    held_in_a_sum(s4, j, d + e);
    held_in_a_sum(s4, j, f + g);
    held_in_a_sum(s4, j, h + i);
}

/// The explanation tells which key is explained, as written and as typed; what
/// was sampled beside the chain, each fact by its own name; and what the path
/// is: every surface of it, what it offers, its seal, and whether it yields or
/// refuses the guess.
#[verifier::spinoff_prover]
pub proof fn the_facts_and_the_path_are_told(
    lhs: Seq<char>,
    sequence: bool,
    chain: FocusChain,
    facts: ChainFacts,
    path: SurfacePath,
    v: IndexView,
    registry: Seq<ActionSpec>,
    names: KeyNames,
    key: KeyEvent,
    verdict: Resolution,
    j: int,
    part: Seq<char>,
)
    requires
        0 <= j < path.ids@.len(),
        ({
            ||| part == "--- panelmap "@ + lhs
            ||| part == "probes: "@ + names.spec_text(key)
            ||| part == "attached_editor="@ + facts.attached_editor@
            ||| part == " mode="@ + facts.editor_mode@
            ||| part == " in_filesystem_dock="@ + word(chain.in_filesystem_dock)
            ||| part == " sibling_nav="@ + word(chain.sibling_nav_control is Some)
            ||| part == " prompt="@ + word(chain.is_plugin_prompt)
            ||| part == path.ids@[j]@
            ||| part == "  caps: "@ + caps::caps_text(path.caps)
            ||| part == "  seal: "@ + (match path.seal {
                Seal::Open => "Open"@,
                Seal::Sealed => "Sealed"@,
                Seal::Barrier => "Barrier"@,
            })
            ||| part == "  yields_to_engine: "@ + word(path.anchor_yields_to_engine)
            ||| part == "  refuses_positional: "@ + word(path.anchor_refuses_positional)
        }),
    ensures
        holds(
            introspect::explanation(
                lhs,
                sequence,
                chain,
                facts,
                path,
                v,
                registry,
                names,
                key,
                verdict,
            ),
            part,
        ),
{
    what_the_facts_say(chain, facts);
    what_the_offer_says(path);
    let none = Seq::<char>::empty();
    let title = "--- panelmap "@ + lhs;
    held_between(none, title, " ---\n"@);
    assert(none + title + " ---\n"@ =~= introspect::title_text(lhs));
    let typed = "probes: "@ + names.spec_text(key);
    let typed_rest =
        " (as typed only — a real keystroke on a non-QWERTY layout also carries a Latin collapse and a US-QWERTY position, which a written LHS cannot derive)\n"@;
    held_between(none, typed, typed_rest);
    assert(none + typed + typed_rest =~= introspect::probes_text(names, key));
    let ids = text::views(path.ids@);
    assert(ids[j] == path.ids@[j]@);
    held_in_a_list(ids, " -> "@, j);
    let a = "surface stack (deepest first): "@;
    let b = text::joined(ids, " -> "@);
    held_in_a_sum(a, b, path.ids@[j]@);
    held_in_a_sum(a + b, "\n"@, path.ids@[j]@);
    if holds(introspect::ids_text(path), part) || holds(introspect::offer_text(path), part) {
        held_in_a_sum(introspect::ids_text(path), introspect::offer_text(path), part);
    }
    held_in_the_setting(lhs, sequence, chain, facts, path, names, key, part);
    held_in_the_explanation(
        lhs,
        sequence,
        chain,
        facts,
        path,
        v,
        registry,
        names,
        key,
        verdict,
        part,
    );
}

/// Where something runs, the explanation tells which key matched.
#[verifier::spinoff_prover]
pub proof fn the_matched_key_is_told(
    lhs: Seq<char>,
    sequence: bool,
    chain: FocusChain,
    facts: ChainFacts,
    path: SurfacePath,
    v: IndexView,
    registry: Seq<ActionSpec>,
    names: KeyNames,
    key: KeyEvent,
    matched: KeyEvent,
    candidates: Vec<Candidate>,
)
    ensures
        holds(
            introspect::explanation(
                lhs,
                sequence,
                chain,
                facts,
                path,
                v,
                registry,
                names,
                key,
                Resolution::Run { matched, candidates },
            ),
            "matched: "@ + names.spec_text(matched) + "\n"@,
        ),
{
    let verdict = Resolution::Run { matched, candidates };
    let part = "matched: "@ + names.spec_text(matched) + "\n"@;
    let rest = introspect::all_running_text(crate::resolve::candidate_views(candidates@));
    let none = Seq::<char>::empty();
    held_between(none, part, rest);
    assert(none + part + rest =~= introspect::resolution_text(verdict, names));
    held_in_the_explanation(
        lhs,
        sequence,
        chain,
        facts,
        path,
        v,
        registry,
        names,
        key,
        verdict,
        part,
    );
}

/// A sequence is explained by its first key alone, and the explanation says so;
/// a single key is explained without that sentence.
#[verifier::spinoff_prover]
pub proof fn a_sequence_is_explained_by_its_first_key(
    lhs: Seq<char>,
    chain: FocusChain,
    facts: ChainFacts,
    path: SurfacePath,
    names: KeyNames,
    key: KeyEvent,
)
    ensures
        ({
            let one = introspect::setting_text(lhs, false, chain, facts, path, names, key);
            let several = introspect::setting_text(lhs, true, chain, facts, path, names, key);
            let said =
                "a sequence resolves one keystroke at a time against the pending buffer; explaining the first key only\n"@;
            &&& several.len() == one.len() + said.len()
            &&& holds(several, said)
        }),
{
    let said =
        "a sequence resolves one keystroke at a time against the pending buffer; explaining the first key only\n"@;
    let a = introspect::title_text(lhs);
    let c = introspect::chain_text(chain);
    let d = introspect::facts_text(chain, facts);
    let e = introspect::path_text(path);
    let f = introspect::probes_text(names, key);
    let g = "candidates:\n"@;
    held_between(a, said, c);
    held_in_two_more(a + said + c, d, e, said);
    held_in_two_more(a + said + c + d + e, f, g, said);
}

/// Why nothing runs is told by its own sentence, which names the surface that
/// keeps the key or hands it back, or the key that the engine claims.
#[verifier::spinoff_prover]
pub proof fn a_stop_names_what_stopped_it(stop: Stop, names: KeyNames)
    ensures
        ({
            let said = introspect::stop_text(stop, names);
            match stop {
                Stop::Barrier => holds(said, "is a barrier"@),
                Stop::Sealed(surface) => text::begins_with(
                    said,
                    "'"@ + surface@ + "' is sealed"@,
                ),
                Stop::Native(surface) => text::begins_with(
                    said,
                    "'"@ + surface@ + "' binds this key to `native`"@,
                ),
                Stop::Yielded(key) => text::begins_with(
                    said,
                    "the script editor has focus and the Vim engine claims "@ + names.spec_text(key),
                ),
                Stop::Exhausted => text::begins_with(said, "no surface on the stack binds"@),
            }
        }),
{
    let said = introspect::stop_text(stop, names);
    match stop {
        Stop::Barrier => {
            reveal_strlit(
                "the anchor surface is a barrier (a foreign text input, or the editor in an insert-like mode). Nothing is ever intercepted there.",
            );
            reveal_strlit("is a barrier");
            assert(said.subrange(19, 19int + "is a barrier"@.len()) =~= "is a barrier"@);
        },
        Stop::Sealed(surface) => {
            reveal_strlit(
                "' is sealed and this key carries no Ctrl/Alt/Meta, so it stops at the anchor and reaches the control's own input handling. A modifier-bearing key would have continued to the forest root.",
            );
            reveal_strlit("' is sealed");
            let part = "'"@ + surface@ + "' is sealed"@;
            assert(said.take(part.len() as int) =~= part);
        },
        Stop::Native(surface) => {
            reveal_strlit(
                "' binds this key to `native`, which hands it back to Godot and terminates the walk. `panelunmap` is the other verb: it removes the rule and lets the walk continue to the parent surface.",
            );
            reveal_strlit("' binds this key to `native`");
            let part = "'"@ + surface@ + "' binds this key to `native`"@;
            assert(said.take(part.len() as int) =~= part);
        },
        Stop::Yielded(key) => {
            let part = "the script editor has focus and the Vim engine claims "@ + names.spec_text(
                key,
            );
            assert(said.take(part.len() as int) =~= part);
        },
        Stop::Exhausted => {
            reveal_strlit(
                "no surface on the stack binds this key, or every candidate was gated out by a missing capability (see above).",
            );
            reveal_strlit("no surface on the stack binds");
            let part = "no surface on the stack binds"@;
            assert(said.take(part.len() as int) =~= part);
        },
    }
}

/// The rules that another key can reach by its place are the single characters
/// whose rules ask for the guess, in the order of the rules: each of them is
/// told, and no other rule.
pub proof fn what_a_place_can_reach_is_told(
    rules: Seq<RuleView>,
    registry: Seq<ActionSpec>,
    names: KeyNames,
    rule: RuleView,
)
    ensures
        ({
            let can = rule.physical && rule.lhs.len() == 1 && rule.lhs[0].key is Char;
            let said = introspect::shadow_texts(rules, registry, names);
            let more = introspect::shadow_texts(rules.push(rule), registry, names);
            if can {
                &&& more.len() == said.len() + 1
                &&& more.drop_last() == said
                &&& more.last() == names.spec_text(rule.lhs[0]) + " -> "@ + introspect::target_text(
                    rule.target,
                    registry,
                )
            } else {
                more == said
            }
        }),
{
    assert(rules.push(rule).drop_last() =~= rules);
    let said = introspect::shadow_texts(rules, registry, names);
    let more = introspect::shadow_texts(rules.push(rule), registry, names);
    if rule.physical && rule.lhs.len() == 1 && rule.lhs[0].key is Char {
        assert(more.drop_last() =~= said);
    }
}

/// A written key is explained as itself alone, in its one spelling, without a
/// guess.
pub proof fn a_written_key_is_itself_alone(key: KeyEvent)
    ensures
        introspect::written(key).keys.len() == 1,
        introspect::written(key).keys[0] == keys::canonical(key),
        introspect::written(key).positional is None,
{
}

// ── Refusals in words ─────────────────────────────────────────────────

/// The message of a refusal names what was refused: the surface, the verb, the
/// key or the target, and both where two are at odds.
#[verifier::spinoff_prover]
pub proof fn a_refusal_names_what_it_is_about(reject: RejectView, names: KeyNames)
    ensures
        ({
            let said = reject.message(names);
            match reject {
                RejectView::Parse(fault) => said == fault.message(),
                RejectView::UnknownSurface(surface) => holds(said, surface),
                RejectView::UnknownAction(verb) => holds(said, verb),
                RejectView::BarrierSurface(surface) => holds(said, surface),
                RejectView::MultiKeyOnEditorPath(surface) => holds(said, surface),
                RejectView::VimGrammarPrefix(key) => holds(said, names.spec_text(key)),
                RejectView::UnsatisfiableCapability { surface, action } => holds(said, surface)
                    && holds(said, action),
                RejectView::UndispatchedTarget { surface, target } => holds(said, surface)
                    && holds(said, target),
            }
        }),
{
    match reject {
        RejectView::Parse(_) => {},
        RejectView::UnknownSurface(surface) => {
            held_between("no surface named '"@, surface, "' is declared"@);
        },
        RejectView::UnknownAction(verb) => {
            held_between("no action named '"@, verb, "' is registered"@);
        },
        RejectView::BarrierSurface(surface) => {
            held_between(
                "surface '"@,
                surface,
                "' is a barrier and takes no bindings; keys there belong to the control that has focus"@,
            );
        },
        RejectView::MultiKeyOnEditorPath(surface) => {
            held_between(
                "surface '"@,
                surface,
                "' is reachable from the script editor, so its bindings must be a single key"@,
            );
        },
        RejectView::VimGrammarPrefix(key) => {
            held_between(
                "'"@,
                names.spec_text(key),
                "' begins a Vim command sequence; binding it here would destroy the key that follows it"@,
            );
        },
        RejectView::UnsatisfiableCapability { surface, action } => {
            let a = "surface '"@;
            let b =
                "' is reached by an explicit transport lookup, never by classifying the focus chain, so it grants no capabilities; '"@;
            let c = "' declares requirements that can never be satisfied there"@;
            held_between(a, surface, b);
            held_in_a_sum(a + surface + b, action, surface);
            held_in_a_sum(a + surface + b + action, c, surface);
            held_between(a + surface + b, action, c);
        },
        RejectView::UndispatchedTarget { surface, target } => {
            let a = "surface '"@;
            let b = "' has no transport that can dispatch '"@;
            let c = "', so the key would be consumed and do nothing"@;
            held_between(a, surface, b);
            held_in_a_sum(a + surface + b, target, surface);
            held_in_a_sum(a + surface + b + target, c, surface);
            held_between(a + surface + b, target, c);
        },
    }
}

/// A diagnostic leads with the source and the number of the line where there is
/// one, and ends with why the line did not load.
pub proof fn a_diagnostic_leads_with_its_place(d: DiagnosticView, names: KeyNames)
    ensures
        ({
            let said = d.message(names);
            let why = d.reject.message(names);
            &&& text::begins_with(said, d.source)
            &&& d.line matches Some(n) ==> text::begins_with(
                said,
                d.source + ":"@ + text::decimal(n as nat),
            )
            &&& why.len() <= said.len() && said.skip(said.len() - why.len()) == why
        }),
{
    let said = d.message(names);
    let why = d.reject.message(names);
    assert(said.take(d.source.len() as int) =~= d.source);
    if let Some(n) = d.line {
        let head = d.source + ":"@ + text::decimal(n as nat);
        assert(said.take(head.len() as int) =~= head);
    }
    assert(said.skip(said.len() - why.len()) =~= why);
}

/// The message of a left-hand side that does not load holds what is wrong with
/// it: the symbol, the notation, or how many keys there are.
pub proof fn a_faulty_left_hand_side_is_quoted(fault: LhsFault)
    ensures
        match fault {
            LhsFault::UnspellableShift(c) => holds(fault.message(), seq![c]),
            LhsFault::Unparseable(notation) => holds(fault.message(), notation),
            LhsFault::Empty => fault.message().len() > 0,
            LhsFault::TooLong(n) => holds(fault.message(), text::decimal(n)),
        },
{
    match fault {
        LhsFault::UnspellableShift(c) => {
            let rest =
                "> is layout-dependent and can never match; write the literal character instead"@;
            held_between("<S-"@, seq![c], rest);
            assert("<S-"@ + seq![c] + rest =~= ("<S-"@).push(c) + rest);
        },
        LhsFault::Unparseable(notation) => {
            held_between("cannot parse key notation '"@, notation, "'"@);
        },
        LhsFault::Empty => {
            reveal_strlit("empty key sequence");
        },
        LhsFault::TooLong(n) => {
            held_between(
                "key sequence is "@,
                text::decimal(n),
                " keys long; at most 8 are supported"@,
            );
        },
    }
}

/// The message of a line that does not parse says which part is missing or
/// which count is out of range, or is the reader's own.
pub proof fn a_line_that_does_not_parse_is_told(fault: ParseFault)
    ensures
        match fault {
            ParseFault::MissingOperand(what) => holds(fault.message(), what),
            ParseFault::CountOutOfRange(n) => holds(
                fault.message(),
                text::signed_decimal(n as int),
            ),
            ParseFault::Other(words) => fault.message() == words,
        },
{
    match fault {
        ParseFault::MissingOperand(what) => {
            let none = Seq::<char>::empty();
            held_between("missing "@, what, none);
            assert("missing "@ + what + none =~= "missing "@ + what);
        },
        ParseFault::CountOutOfRange(n) => {
            held_between("count "@, text::signed_decimal(n as int), " is out of range"@);
        },
        ParseFault::Other(_) => {},
    }
}

} // verus!
