//! What a keystroke comes to: whose rule runs, with what, and when.

use vstd::prelude::*;
use crate::action::{ActionSpec, TargetView};
use crate::bind;
use crate::bind::{Consumption, IndexView, Repeat, RuleView};
use crate::bind_laws;
use crate::caps::Caps;
use crate::key::KeyEvent;
use crate::keys::ProbeList;
use crate::outcome::Outcome;
use crate::resolve;
use crate::resolve::{
    Candidate, CandidateTargetView, CandidateView, Disposition, HitView, Resolution, Stop, Walked,
};
use crate::sequence;
use crate::sequence::{PendingView, SeqStep, StepView, TimeoutRange};
use crate::surface::{Seal, SurfaceId, SurfacePath};
use crate::trie;
use crate::trie::{EntryView, LookupView};

verus! {

// ── Rules and candidates ──────────────────────────────────────────────

/// Whether a rule's verb is registered and some capabilities are all that it
/// requires.
pub open spec fn may_run(rule: RuleView, registry: Seq<ActionSpec>, caps: Caps) -> bool {
    match rule.target {
        TargetView::Action(id) => {
            &&& id.0 < registry.len()
            &&& registry[id.0 as int].requires.vnav ==> caps.vnav
            &&& registry[id.0 as int].requires.hierarchy ==> caps.hierarchy
            &&& registry[id.0 as int].requires.activate ==> caps.activate
            &&& registry[id.0 as int].requires.textentry ==> caps.textentry
            &&& registry[id.0 as int].requires.fileops ==> caps.fileops
        },
        TargetView::Native => false,
        TargetView::Shortcut(_) => true,
    }
}

/// Whether a candidate is that of a rule on a surface: what the rule names
/// runs, with the rule's own parameters and under its own policy.
pub open spec fn is_candidate_of(
    c: CandidateView,
    rule: RuleView,
    surface: SurfaceId,
    registry: Seq<ActionSpec>,
) -> bool {
    &&& c.surface == surface
    &&& c.params == rule.params
    &&& c.consume == rule.consume
    &&& c.repeat == rule.repeat
    &&& match rule.target {
        TargetView::Action(id) => c.target == CandidateTargetView::Action(
            id,
            registry[id.0 as int],
        ),
        TargetView::Shortcut(path) => c.target == CandidateTargetView::Shortcut(path),
        TargetView::Native => false,
    }
}

/// A hit is that of the live rule behind it: it runs exactly where the rule may
/// run, as the rule says, and hands the key back exactly where the rule does.
pub proof fn a_hit_is_its_rule(
    v: IndexView,
    registry: Seq<ActionSpec>,
    caps: Caps,
    surface: SurfaceId,
    entry: EntryView,
)
    ensures
        ({
            let hit = resolve::hit_of(v, registry, caps, surface, entry);
            match v.rule_of(entry) {
                Some(rule) => {
                    &&& hit is Run <==> may_run(rule, registry, caps)
                    &&& hit is Native <==> rule.target is Native
                    &&& hit matches HitView::Run(c) ==> is_candidate_of(c, rule, surface, registry)
                },
                None => hit is Miss,
            }
        }),
{
}

/// The live rule that one spelling leads to on a surface, where the spelling
/// was typed or the rule asks for the guess.
pub open spec fn answering(
    v: IndexView,
    surface: SurfaceId,
    key: KeyEvent,
    guess: bool,
) -> Option<RuleView> {
    match v.rule_for(surface@, seq![key]) {
        Some(rule) => if guess && !rule.physical {
            None
        } else {
            Some(rule)
        },
        None => None,
    }
}

/// What one spelling yields on a surface is what the live rule there yields.
proof fn a_spelling_is_answered_by_its_rule(
    v: IndexView,
    registry: Seq<ActionSpec>,
    caps: Caps,
    surface: SurfaceId,
    key: KeyEvent,
    guess: bool,
)
    ensures
        ({
            let hit = resolve::hit_at(v, registry, caps, surface, key, guess);
            match answering(v, surface, key, guess) {
                Some(rule) => {
                    &&& hit is Run <==> may_run(rule, registry, caps)
                    &&& hit is Native <==> rule.target is Native
                    &&& hit matches HitView::Run(c) ==> is_candidate_of(c, rule, surface, registry)
                },
                None => hit is Miss,
            }
        }),
{
    if let LookupView::ExactOnly(entry) = v.lookup(surface@, seq![key]) {
        a_hit_is_its_rule(v, registry, caps, surface, entry);
    }
}

/// What resolving yields is the rule that stands at the matched key on its
/// surface: its verb, its parameters, its consumption and its repeat policy;
/// and a key is handed back only where a rule on that surface says so.
pub proof fn what_runs_is_the_rule_at_the_matched_key(
    v: IndexView,
    registry: Seq<ActionSpec>,
    path: SurfacePath,
    probes: ProbeList,
)
    requires
        probes.valid(),
    ensures
        match resolve::walk_of(v, registry, path, probes) {
            Walked::Found(c, key) => {
                &&& path.ids@.contains(c.surface)
                &&& probes.keys.contains(key)
                &&& v.rule_for(c.surface@, seq![key]) matches Some(rule) && is_candidate_of(
                    c,
                    rule,
                    c.surface,
                    registry,
                ) && may_run(rule, registry, path.caps)
            },
            Walked::Stopped(Stop::Native(surface)) => {
                &&& path.ids@.contains(surface)
                &&& exists|i: int|
                    0 <= i < probes.keys.len() && (v.rule_for(
                        surface@,
                        seq![#[trigger] probes.keys[i]],
                    ) matches Some(rule) && rule.target is Native)
            },
            Walked::Stopped(Stop::Sealed(surface)) => path.seal == Seal::Sealed && path.ids@.len()
                > 0 && surface == path.ids@[0],
            Walked::Stopped(stop) => stop == Stop::Exhausted,
        },
{
    resolve::what_decides_is_a_hit(v, registry, path, probes);
    if let Some((hit, surface, key)) = resolve::deciding(v, registry, path, probes) {
        a_spelling_is_answered_by_its_rule(v, registry, path.caps, surface, key, false);
        a_spelling_is_answered_by_its_rule(v, registry, path.caps, surface, key, true);
        let i = choose|i: int| 0 <= i < probes.keys.len() && probes.keys[i] == key;
        assert(probes.keys[i] == key);
    }
}

/// Whether a spelling is bound on a surface to something that can happen: a
/// verb that may run there, or a key that is handed back.
pub open spec fn decides(
    v: IndexView,
    registry: Seq<ActionSpec>,
    caps: Caps,
    surface: SurfaceId,
    key: KeyEvent,
    guess: bool,
) -> bool {
    answering(v, surface, key, guess) matches Some(rule) && (rule.target is Native || may_run(
        rule,
        registry,
        caps,
    ))
}

/// Whether a keystroke is kept to the deepest surface: it is sealed, and no
/// spelling holds Ctrl, Alt or Meta.
pub open spec fn stays_at_the_anchor(path: SurfacePath, probes: ProbeList) -> bool {
    &&& path.seal == Seal::Sealed
    &&& path.ids@.len() > 0
    &&& forall|i: int|
        0 <= i < probes.keys.len() ==> !(#[trigger] probes.keys[i]).modifiers.ctrl
            && !probes.keys[i].modifiers.alt && !probes.keys[i].modifiers.meta
}

/// Whether a keystroke can reach a place of a path: every place, or only the
/// first where it is kept there.
pub open spec fn within_reach(path: SurfacePath, probes: ProbeList, j: int) -> bool {
    0 <= j < path.ids@.len() && (stays_at_the_anchor(path, probes) ==> j == 0)
}

proof fn reach_is_reach(path: SurfacePath, probes: ProbeList)
    ensures
        0 <= resolve::reach(path, probes) <= path.ids@.len(),
        forall|j: int|
            0 <= j < resolve::reach(path, probes) <==> #[trigger] within_reach(path, probes, j),
        resolve::is_kept(path, probes) == stays_at_the_anchor(path, probes),
{
    if probes.commands() {
        let i = choose|i: int|
            0 <= i < probes.keys.len() && (#[trigger] probes.keys[i]).modifiers.spec_command();
        assert(probes.keys[i].modifiers.ctrl || probes.keys[i].modifiers.alt
            || probes.keys[i].modifiers.meta);
    } else {
        assert forall|i: int| 0 <= i < probes.keys.len() implies !(
        #[trigger] probes.keys[i]).modifiers.ctrl && !probes.keys[i].modifiers.alt
            && !probes.keys[i].modifiers.meta by {
            assert(!probes.keys[i].modifiers.spec_command());
        }
    }
}

/// The spelling that leads decides at the deepest place within reach that
/// binds it to something; what stands there is what happens.
pub proof fn the_typed_key_happens_where_it_is_bound(
    v: IndexView,
    registry: Seq<ActionSpec>,
    path: SurfacePath,
    probes: ProbeList,
    j: int,
)
    requires
        probes.valid(),
        probes.keys.len() > 0,
        probes.positional != Some(0nat),
        within_reach(path, probes, j),
        decides(v, registry, path.caps, path.ids@[j], probes.keys[0], false),
        forall|i: int|
            0 <= i < j ==> !decides(
                v,
                registry,
                path.caps,
                #[trigger] path.ids@[i],
                probes.keys[0],
                false,
            ),
    ensures
        ({
            let rule = v.rule_for(path.ids@[j]@, seq![probes.keys[0]])->0;
            match resolve::walk_of(v, registry, path, probes) {
                Walked::Found(c, key) => {
                    &&& key == probes.keys[0]
                    &&& may_run(rule, registry, path.caps)
                    &&& is_candidate_of(c, rule, path.ids@[j], registry)
                },
                Walked::Stopped(stop) => rule.target is Native && stop == Stop::Native(
                    path.ids@[j],
                ),
            }
        }),
{
    reach_is_reach(path, probes);
    let typed = probes.scoped(false);
    assert(typed.len() > 0 && typed[0] == probes.keys[0]);
    let key = typed[0];
    a_spelling_is_answered_by_its_rule(v, registry, path.caps, path.ids@[j], key, false);
    assert forall|i: int| 0 <= i < j implies resolve::hit_at(
        v,
        registry,
        path.caps,
        #[trigger] path.ids@[i],
        key,
        false,
    ) is Miss by {
        assert(!decides(v, registry, path.caps, path.ids@[i], key, false));
        a_spelling_is_answered_by_its_rule(v, registry, path.caps, path.ids@[i], key, false);
    }
    resolve::the_deepest_surface_wins(v, registry, path, probes, j);
}

proof fn the_first_surface_that_hits(
    v: IndexView,
    registry: Seq<ActionSpec>,
    caps: Caps,
    scope: Seq<SurfaceId>,
    key: KeyEvent,
    guess: bool,
    j: int,
)
    requires
        0 <= j <= scope.len(),
        forall|x: int|
            0 <= x < j ==> !decides(v, registry, caps, #[trigger] scope[x], key, guess),
    ensures
        j == scope.len() ==> resolve::first_hit(v, registry, caps, scope, key, guess) is None,
        j < scope.len() && decides(v, registry, caps, scope[j], key, guess) ==> resolve::first_hit(
            v,
            registry,
            caps,
            scope,
            key,
            guess,
        ) == Some((resolve::hit_at(v, registry, caps, scope[j], key, guess), scope[j])),
    decreases j,
{
    if scope.len() > 0 {
        a_spelling_is_answered_by_its_rule(v, registry, caps, scope[0], key, guess);
    }
    if j > 0 {
        let rest = scope.skip(1);
        assert(!decides(v, registry, caps, scope[0], key, guess));
        assert forall|x: int| 0 <= x < j - 1 implies !decides(
            v,
            registry,
            caps,
            #[trigger] rest[x],
            key,
            guess,
        ) by {
            assert(rest[x] == scope[x + 1]);
        }
        the_first_surface_that_hits(v, registry, caps, rest, key, guess, j - 1);
        if j < scope.len() {
            assert(rest[j - 1] == scope[j]);
        }
    }
}

proof fn the_first_spelling_that_hits(
    v: IndexView,
    registry: Seq<ActionSpec>,
    caps: Caps,
    scope: Seq<SurfaceId>,
    typed: Seq<KeyEvent>,
    i: int,
)
    requires
        0 <= i <= typed.len(),
        forall|y: int|
            0 <= y < i ==> resolve::first_hit(
                v,
                registry,
                caps,
                scope,
                #[trigger] typed[y],
                false,
            ) is None,
    ensures
        i == typed.len() ==> resolve::first_typed_hit(v, registry, caps, scope, typed) is None,
        i < typed.len() ==> (resolve::first_hit(
            v,
            registry,
            caps,
            scope,
            typed[i],
            false,
        ) matches Some((hit, surface)) ==> resolve::first_typed_hit(
            v,
            registry,
            caps,
            scope,
            typed,
        ) == Some((hit, surface, typed[i]))),
    decreases i,
{
    if i > 0 {
        let rest = typed.skip(1);
        assert(resolve::first_hit(v, registry, caps, scope, typed[0], false) is None);
        assert forall|y: int| 0 <= y < i - 1 implies resolve::first_hit(
            v,
            registry,
            caps,
            scope,
            #[trigger] rest[y],
            false,
        ) is None by {
            assert(rest[y] == typed[y + 1]);
        }
        the_first_spelling_that_hits(v, registry, caps, scope, rest, i - 1);
        if i < typed.len() {
            assert(rest[i - 1] == typed[i]);
        }
    }
}

/// The spellings are tried in order, each on every surface within reach before
/// the next: the first that is bound anywhere to something that can happen
/// decides, on the deepest surface that binds it so. The guess is tried only
/// after all that was typed, and not at all where the anchor refuses it.
pub proof fn the_first_spelling_that_is_bound_decides(
    v: IndexView,
    registry: Seq<ActionSpec>,
    path: SurfacePath,
    probes: ProbeList,
    i: int,
    j: int,
)
    requires
        probes.valid(),
        0 <= i < probes.keys.len(),
        probes.positional matches Some(at) ==> i <= at,
        probes.positional == Some(i as nat) ==> !path.anchor_refuses_positional,
        within_reach(path, probes, j),
        ({
            let guess = probes.positional == Some(i as nat);
            &&& decides(v, registry, path.caps, path.ids@[j], probes.keys[i], guess)
            &&& forall|x: int|
                0 <= x < j ==> !decides(
                    v,
                    registry,
                    path.caps,
                    #[trigger] path.ids@[x],
                    probes.keys[i],
                    guess,
                )
        }),
        forall|y: int, x: int|
            0 <= y < i && within_reach(path, probes, x) ==> !decides(
                v,
                registry,
                path.caps,
                #[trigger] path.ids@[x],
                #[trigger] probes.keys[y],
                false,
            ),
    ensures
        ({
            let rule = v.rule_for(path.ids@[j]@, seq![probes.keys[i]])->0;
            match resolve::walk_of(v, registry, path, probes) {
                Walked::Found(c, key) => {
                    &&& key == probes.keys[i]
                    &&& may_run(rule, registry, path.caps)
                    &&& is_candidate_of(c, rule, path.ids@[j], registry)
                },
                Walked::Stopped(stop) => rule.target is Native && stop == Stop::Native(
                    path.ids@[j],
                ),
            }
        }),
{
    reach_is_reach(path, probes);
    let scope = path.ids@.take(resolve::reach(path, probes));
    let typed = probes.scoped(false);
    let guess = probes.positional == Some(i as nat);
    let key = probes.keys[i];
    assert forall|y: int| 0 <= y < i implies resolve::first_hit(
        v,
        registry,
        path.caps,
        scope,
        #[trigger] typed[y],
        false,
    ) is None by {
        assert(typed[y] == probes.keys[y]);
        assert forall|x: int| 0 <= x < scope.len() implies !decides(
            v,
            registry,
            path.caps,
            #[trigger] scope[x],
            typed[y],
            false,
        ) by {
            assert(within_reach(path, probes, x));
            assert(scope[x] == path.ids@[x]);
        }
        the_first_surface_that_hits(
            v,
            registry,
            path.caps,
            scope,
            typed[y],
            false,
            scope.len() as int,
        );
    }
    assert(scope[j] == path.ids@[j]);
    assert forall|x: int| 0 <= x < j implies !decides(
        v,
        registry,
        path.caps,
        #[trigger] scope[x],
        key,
        guess,
    ) by {
        assert(scope[x] == path.ids@[x]);
    }
    the_first_surface_that_hits(v, registry, path.caps, scope, key, guess, j);
    the_first_spelling_that_hits(v, registry, path.caps, scope, typed, i);
    a_spelling_is_answered_by_its_rule(v, registry, path.caps, path.ids@[j], key, guess);
}

/// Where nothing runs and nothing is handed back, nothing within reach binds
/// any spelling to anything that can happen there: no bound key is dead.
pub proof fn no_bound_key_is_dead(
    v: IndexView,
    registry: Seq<ActionSpec>,
    path: SurfacePath,
    probes: ProbeList,
    i: int,
    j: int,
)
    requires
        probes.valid(),
        within_reach(path, probes, j),
        0 <= i < probes.keys.len(),
        probes.positional matches Some(at) ==> i <= at,
        ({
            let guess = probes.positional == Some(i as nat);
            &&& decides(v, registry, path.caps, path.ids@[j], probes.keys[i], guess)
            &&& guess ==> !path.anchor_refuses_positional
        }),
    ensures
        match resolve::walk_of(v, registry, path, probes) {
            Walked::Found(_, _) => true,
            Walked::Stopped(stop) => stop is Native,
        },
{
    reach_is_reach(path, probes);
    let guess = probes.positional == Some(i as nat);
    let key = probes.keys[i];
    a_spelling_is_answered_by_its_rule(v, registry, path.caps, path.ids@[j], key, guess);
    let typed = probes.scoped(false);
    if guess {
        resolve::a_guess_within_reach_is_not_lost(v, registry, path, probes, j);
    } else {
        assert(i < typed.len() && typed[i] == key);
        resolve::a_guess_never_outranks_what_was_typed(v, registry, path, probes, i, j);
    }
    resolve::what_decides_is_a_hit(v, registry, path, probes);
}

/// Behind a barrier there is nothing; elsewhere what the walk finds runs, unless
/// the anchor yields and the engine claims the very key that matched.
pub proof fn the_engine_has_the_last_word_only_where_the_anchor_yields<
    F: Fn(KeyEvent) -> bool,
>(
    v: IndexView,
    registry: Seq<ActionSpec>,
    path: SurfacePath,
    probes: ProbeList,
    claims: F,
    r: Resolution,
)
    requires
        resolve::is_verdict(v, registry, path, probes, claims, r),
    ensures
        path.seal is Barrier <==> r == Resolution::Nothing(Stop::Barrier),
        match r {
            Resolution::Run { matched, candidates } => {
                &&& candidates@.len() == 1
                &&& resolve::walk_of(v, registry, path, probes) == Walked::Found(
                    candidates@[0]@,
                    matched,
                )
                &&& path.anchor_yields_to_engine ==> call_ensures(claims, (matched,), false)
            },
            Resolution::Nothing(Stop::Yielded(key)) => {
                &&& path.anchor_yields_to_engine
                &&& call_ensures(claims, (key,), true)
                &&& resolve::walk_of(v, registry, path, probes) matches Walked::Found(_, matched)
                    && matched == key
            },
            Resolution::Nothing(stop) => path.seal is Barrier || resolve::walk_of(
                v,
                registry,
                path,
                probes,
            ) == Walked::Stopped(stop),
        },
{
    walks_stop_for_their_own_reasons(v, registry, path, probes);
    if let Resolution::Run { matched, candidates } = r {
        let views = resolve::candidate_views(candidates@);
        assert(views.len() == candidates@.len());
        assert(views.len() == 1);
        assert(views[0] == candidates@[0]@);
    }
}

proof fn walks_stop_for_their_own_reasons(
    v: IndexView,
    registry: Seq<ActionSpec>,
    path: SurfacePath,
    probes: ProbeList,
)
    ensures
        resolve::walk_of(v, registry, path, probes) matches Walked::Stopped(stop) ==> !(
        stop is Barrier) && !(stop is Yielded),
{
}

// ── From a line to a run ──────────────────────────────────────────────

/// A rule for one key, once installed, is what the key runs there: its verb
/// with its parameters and its policy, whatever was bound to the key before.
pub proof fn an_installed_key_runs_its_rule(
    v: IndexView,
    rule: RuleView,
    registry: Seq<ActionSpec>,
    path: SurfacePath,
    probes: ProbeList,
)
    requires
        bind_laws::index_wf(v),
        v.slots.len() < u32::MAX,
        v.arena.len() < u32::MAX,
        path.ids@.len() > 0,
        path.ids@[0]@ == rule.surface,
        probes.valid(),
        probes.keys.len() > 0,
        probes.positional != Some(0nat),
        rule.lhs == seq![probes.keys[0]],
        rule.nowait || !v.reserves(rule.surface, probes.keys[0]),
        may_run(rule, registry, path.caps),
    ensures
        resolve::walk_of(v.upserted(rule), registry, path, probes) matches Walked::Found(c, key)
            && key == probes.keys[0] && is_candidate_of(c, rule, path.ids@[0], registry),
{
    let u = v.upserted(rule);
    let key = probes.keys[0];
    bind_laws::upsert_keeps_the_invariant(v, rule);
    bind_laws::the_last_writer_is_found(v, rule, 0);
    let b = u.bindings(rule.surface)->0;
    if trie::has_longer(b.trie, rule.lhs) && !rule.nowait {
        let entry = trie::exact_at(b.trie, rule.lhs)->0;
        assert(u.lookup(rule.surface, seq![key]) is Prefix);
        bind_laws::waiting_means_reserved(u, rule.surface, key);
        bind_laws::installing_reserves_only_its_own_first_key(v, rule, rule.surface, key);
    }
    assert(u.rule_for(rule.surface, rule.lhs) == Some(rule));
    the_typed_key_happens_where_it_is_bound(u, registry, path, probes, 0);
}

/// A sequence, once installed, is what its keys run when the waiting is over:
/// the verb with its parameters and its policy, whatever its length, and the
/// last key is the one that counts.
pub proof fn an_installed_sequence_runs_at_its_timeout(
    v: IndexView,
    rule: RuleView,
    registry: Seq<ActionSpec>,
    p: PendingView,
)
    requires
        bind_laws::index_wf(v),
        v.slots.len() < u32::MAX,
        v.arena.len() < u32::MAX,
        p.surface matches Some(surface) && surface@ == rule.surface,
        p.keys == rule.lhs,
        p.keys.len() > 0,
    ensures
        match sequence::at_timeout(p, v.upserted(rule), registry) {
            Some((c, key)) => {
                &&& may_run(rule, registry, p.caps)
                &&& is_candidate_of(c, rule, p.surface->0, registry)
                &&& key == p.keys[p.keys.len() - 1]
            },
            None => !may_run(rule, registry, p.caps),
        },
{
    bind_laws::the_last_writer_is_found(v, rule, 0);
    the_timeout_runs_what_is_buffered(p, v.upserted(rule), registry);
}

// ── Sequences ─────────────────────────────────────────────────────────

/// The live rule that stands at exactly a key sequence on a surface.
pub open spec fn standing_at(v: IndexView, id: Seq<char>, keys: Seq<KeyEvent>) -> Option<RuleView> {
    match v.bindings(id) {
        Some(b) => if b.trie.dom().contains(keys) {
            v.rule_of(b.trie[keys])
        } else {
            None
        },
        None => None,
    }
}

/// When the waiting is over, the rule that stands at exactly what is buffered
/// runs, of whatever length that is, where the capabilities that the buffer
/// started with satisfy it, and the last key is the one that counts; otherwise
/// nothing runs.
pub proof fn the_timeout_runs_what_is_buffered(
    p: PendingView,
    v: IndexView,
    registry: Seq<ActionSpec>,
)
    requires
        p.surface is Some ==> p.keys.len() > 0,
    ensures
        ({
            let ran = sequence::at_timeout(p, v, registry);
            match p.surface {
                None => ran is None,
                Some(surface) => match standing_at(v, surface@, p.keys) {
                    None => ran is None,
                    Some(rule) => {
                        &&& ran is Some <==> may_run(rule, registry, p.caps)
                        &&& ran matches Some((c, key)) ==> is_candidate_of(
                            c,
                            rule,
                            surface,
                            registry,
                        ) && key == p.keys[p.keys.len() - 1]
                    },
                },
            }
        }),
{
    if let Some(surface) = p.surface {
        if let Some(b) = v.bindings(surface@) {
            if b.trie.dom().contains(p.keys) {
                a_hit_is_its_rule(v, registry, p.caps, surface, b.trie[p.keys]);
            }
        }
    }
}

/// Whether anything is mapped at a key sequence or beyond it on a surface.
pub open spec fn leads_on(v: IndexView, id: Seq<char>, keys: Seq<KeyEvent>) -> bool {
    v.bindings(id) matches Some(b) && exists|k: Seq<KeyEvent>|
        {
            &&& #[trigger] b.trie.dom().contains(k)
            &&& k.len() >= keys.len()
            &&& k.take(keys.len() as int) == keys
        }
}

/// Whether something longer than a key sequence is waited for on a surface:
/// it is mapped, and the rule at the sequence itself does not forbid waiting.
pub open spec fn waits(v: IndexView, id: Seq<char>, keys: Seq<KeyEvent>) -> bool {
    v.bindings(id) matches Some(b) && {
        &&& exists|k: Seq<KeyEvent>|
            {
                &&& #[trigger] b.trie.dom().contains(k)
                &&& k.len() > keys.len()
                &&& k.take(keys.len() as int) == keys
            }
        &&& !(b.trie.dom().contains(keys) && b.trie[keys].nowait)
    }
}

/// The lookup answers in three ways: nothing starts so; something longer is
/// waited for, with what stands at the sequence itself; or what stands there is
/// all there is to it.
pub proof fn the_lookup_is_three_way(v: IndexView, id: Seq<char>, keys: Seq<KeyEvent>)
    ensures
        v.lookup(id, keys) is NoMatch <==> !leads_on(v, id, keys),
        v.lookup(id, keys) is Prefix <==> waits(v, id, keys),
        v.bindings(id) matches Some(b) ==> match v.lookup(id, keys) {
            LookupView::NoMatch => !b.trie.dom().contains(keys),
            LookupView::ExactOnly(entry) => b.trie.dom().contains(keys) && entry == b.trie[keys],
            LookupView::Prefix { exact: Some(entry) } => b.trie.dom().contains(keys) && entry
                == b.trie[keys],
            LookupView::Prefix { exact: None } => !b.trie.dom().contains(keys),
        },
{
    if let Some(b) = v.bindings(id) {
        let n = keys.len() as int;
        assert(keys.take(n) =~= keys);
        if b.trie.dom().contains(keys) {
            assert(keys.len() >= keys.len() && keys.take(n) == keys);
        }
        if trie::has_longer(b.trie, keys) {
            let k = choose|k: Seq<KeyEvent>| #[trigger]
                b.trie.dom().contains(k) && trie::extends(k, keys);
            assert(b.trie.dom().contains(k) && k.len() > keys.len() && k.take(n) == keys);
        }
        if leads_on(v, id, keys) {
            let k = choose|k: Seq<KeyEvent>|
                {
                    &&& #[trigger] b.trie.dom().contains(k)
                    &&& k.len() >= keys.len()
                    &&& k.take(keys.len() as int) == keys
                };
            if k.len() == keys.len() {
                assert(k.take(n) =~= k);
            } else {
                assert(trie::extends(k, keys));
            }
        }
        if exists|k: Seq<KeyEvent>|
            {
                &&& #[trigger] b.trie.dom().contains(k)
                &&& k.len() > keys.len()
                &&& k.take(keys.len() as int) == keys
            } {
            let k = choose|k: Seq<KeyEvent>|
                {
                    &&& #[trigger] b.trie.dom().contains(k)
                    &&& k.len() > keys.len()
                    &&& k.take(keys.len() as int) == keys
                };
            assert(trie::extends(k, keys));
        }
    }
}

/// What a spelling makes of an open buffer, if it continues the sequence.
proof fn what_a_spelling_continues(
    p: PendingView,
    v: IndexView,
    registry: Seq<ActionSpec>,
    surface: SurfaceId,
    key: KeyEvent,
)
    requires
        p.surface == Some(surface),
    ensures
        match sequence::continued(p, v, registry, key) {
            Some((after, step)) => leads_on(v, surface@, p.keys.push(key)) && continues(
                p,
                v,
                registry,
                surface,
                key,
                after,
                step,
            ),
            None => !leads_on(v, surface@, p.keys.push(key)),
        },
{
    let keys = p.keys.push(key);
    the_lookup_is_three_way(v, surface@, keys);
    if let LookupView::ExactOnly(entry) = v.lookup(surface@, keys) {
        a_hit_is_its_rule(v, registry, p.caps, surface, entry);
    }
}

/// Whether a step is what a key makes of an open buffer that it continues: it
/// is buffered where something longer is waited for; otherwise the buffer is
/// closed, and the rule at exactly what was typed runs where the capabilities
/// that the buffer started with allow it.
pub open spec fn continues(
    p: PendingView,
    v: IndexView,
    registry: Seq<ActionSpec>,
    surface: SurfaceId,
    key: KeyEvent,
    after: PendingView,
    step: StepView,
) -> bool {
    let keys = p.keys.push(key);
    if waits(v, surface@, keys) {
        &&& step is Buffered
        &&& after.keys == keys
        &&& after.surface == Some(surface)
        &&& after.caps == p.caps
    } else {
        &&& after.keys.len() == 0
        &&& after.surface is None
        &&& match standing_at(v, surface@, keys) {
            Some(rule) => if may_run(rule, registry, p.caps) {
                step matches StepView::Run(c, at) && at == key && is_candidate_of(
                    c,
                    rule,
                    surface,
                    registry,
                )
            } else {
                step == StepView::DeadPrefix(surface)
            },
            None => step == StepView::DeadPrefix(surface),
        }
    }
}

proof fn the_first_that_continues(
    p: PendingView,
    v: IndexView,
    registry: Seq<ActionSpec>,
    keys: Seq<KeyEvent>,
    i: int,
)
    requires
        0 <= i <= keys.len(),
        forall|j: int|
            0 <= j < i ==> sequence::continued(p, v, registry, #[trigger] keys[j]) is None,
    ensures
        i < keys.len() && sequence::continued(p, v, registry, keys[i]) is Some
            ==> sequence::first_continued(p, v, registry, keys) == sequence::continued(
            p,
            v,
            registry,
            keys[i],
        ),
        i == keys.len() ==> sequence::first_continued(p, v, registry, keys) is None,
    decreases i,
{
    if i > 0 {
        let rest = keys.skip(1);
        assert(sequence::continued(p, v, registry, keys[0]) is None);
        assert forall|j: int| 0 <= j < i - 1 implies sequence::continued(
            p,
            v,
            registry,
            #[trigger] rest[j],
        ) is None by {
            assert(rest[j] == keys[j + 1]);
        }
        the_first_that_continues(p, v, registry, rest, i - 1);
        if i < keys.len() {
            assert(rest[i - 1] == keys[i]);
        }
    }
}

/// Whether a buffer is open on a surface that is still on the path.
pub open spec fn is_open_on(p: PendingView, path: SurfacePath, surface: SurfaceId) -> bool {
    &&& p.surface == Some(surface)
    &&& exists|i: int| 0 <= i < path.ids@.len() && #[trigger] path.ids@[i]@ == surface@
}

proof fn an_open_buffer_is_kept(p: PendingView, path: SurfacePath, surface: SurfaceId)
    requires
        p.surface == Some(surface),
    ensures
        is_open_on(p, path, surface) ==> sequence::kept(p, path) == p,
        !is_open_on(p, path, surface) ==> sequence::kept(p, path) == PendingView::idle(),
{
    if is_open_on(p, path, surface) {
        let i = choose|i: int|
            0 <= i < path.ids@.len() && #[trigger] path.ids@[i]@ == surface@;
        assert(path.ids@[i]@ == surface@);
    }
}

/// An open buffer owns the key that follows: the first of the typed spellings
/// that leads on continues the sequence; where none does, and no rule that asks
/// for the guess leads on with it, the buffer dies and the key with it, as it
/// does at the longest length.
pub proof fn an_open_buffer_owns_the_next_key(
    p: PendingView,
    v: IndexView,
    registry: Seq<ActionSpec>,
    path: SurfacePath,
    probes: ProbeList,
    surface: SurfaceId,
    i: int,
)
    requires
        is_open_on(p, path, surface),
        probes.valid(),
        0 <= i <= probes.scoped(false).len(),
        forall|j: int|
            0 <= j < i ==> !leads_on(v, surface@, p.keys.push(#[trigger] probes.scoped(false)[j])),
        i < probes.scoped(false).len() ==> leads_on(
            v,
            surface@,
            p.keys.push(probes.scoped(false)[i]),
        ),
    ensures
        ({
            let (after, step) = sequence::stepped(p, v, registry, path, probes, false);
            if p.keys.len() >= 8 {
                &&& after.surface is None
                &&& after.keys.len() == 0
                &&& step == StepView::DeadPrefix(surface)
            } else if i < probes.scoped(false).len() {
                continues(p, v, registry, surface, probes.scoped(false)[i], after, step)
            } else {
                ||| {
                    &&& after.surface is None
                    &&& after.keys.len() == 0
                    &&& step == StepView::DeadPrefix(surface)
                }
                ||| {
                    &&& !path.anchor_refuses_positional
                    &&& probes.positional matches Some(at) && ({
                        let key = probes.keys[at as int];
                        &&& exists|k: int|
                            {
                                &&& 0 <= k < v.rules_on(surface@).len()
                                &&& (#[trigger] v.rules_on(surface@)[k]).physical
                                &&& v.rules_on(surface@)[k].lhs.len() > p.keys.len()
                                &&& v.rules_on(surface@)[k].lhs.take(p.keys.len() as int + 1)
                                    == p.keys.push(key)
                            }
                        &&& continues(p, v, registry, surface, key, after, step)
                    })
                }
            }
        }),
{
    an_open_buffer_is_kept(p, path, surface);
    let typed = probes.scoped(false);
    assert forall|j: int| 0 <= j < i implies sequence::continued(
        p,
        v,
        registry,
        #[trigger] typed[j],
    ) is None by {
        what_a_spelling_continues(p, v, registry, surface, typed[j]);
        assert(!leads_on(v, surface@, p.keys.push(typed[j])));
    }
    if i < typed.len() {
        what_a_spelling_continues(p, v, registry, surface, typed[i]);
    }
    the_first_that_continues(p, v, registry, typed, i);
    if let Some(key) = resolve::guess_of(probes) {
        what_a_spelling_continues(p, v, registry, surface, key);
        let id = p.surface->0@;
        if sequence::guess_continues(p, v, key) {
            let k = choose|k: int|
                0 <= k < v.rules_on(id).len() && sequence::asks_for(
                    #[trigger] v.rules_on(id)[k],
                    p.keys.push(key),
                );
            assert(v.rules_on(surface@)[k].physical);
            assert(v.rules_on(surface@)[k].lhs.take(p.keys.len() as int + 1) == p.keys.push(key));
        }
    }
}

/// The guess continues a buffer that no typed spelling does, where a rule of
/// the surface that asks for the guess starts with the keys it leads to.
pub proof fn a_rule_that_asks_is_reached_by_the_guess(
    p: PendingView,
    v: IndexView,
    registry: Seq<ActionSpec>,
    path: SurfacePath,
    probes: ProbeList,
    surface: SurfaceId,
    k: int,
)
    requires
        bind_laws::index_wf(v),
        is_open_on(p, path, surface),
        p.keys.len() < 8,
        probes.valid(),
        probes.positional is Some,
        !path.anchor_refuses_positional,
        forall|j: int|
            0 <= j < probes.scoped(false).len() ==> !leads_on(
                v,
                surface@,
                p.keys.push(#[trigger] probes.scoped(false)[j]),
            ),
        leads_on(v, surface@, p.keys.push(probes.keys[probes.positional->0 as int])),
        0 <= k < v.rules_on(surface@).len(),
        v.rules_on(surface@)[k].physical,
        v.rules_on(surface@)[k].lhs.len() > p.keys.len(),
        v.rules_on(surface@)[k].lhs.take(p.keys.len() as int + 1) == p.keys.push(
            probes.keys[probes.positional->0 as int],
        ),
    ensures
        ({
            let (after, step) = sequence::stepped(p, v, registry, path, probes, false);
            continues(
                p,
                v,
                registry,
                surface,
                probes.keys[probes.positional->0 as int],
                after,
                step,
            )
        }),
{
    an_open_buffer_is_kept(p, path, surface);
    let typed = probes.scoped(false);
    let key = probes.keys[probes.positional->0 as int];
    assert forall|j: int| 0 <= j < typed.len() implies sequence::continued(
        p,
        v,
        registry,
        #[trigger] typed[j],
    ) is None by {
        what_a_spelling_continues(p, v, registry, surface, typed[j]);
        assert(!leads_on(v, surface@, p.keys.push(typed[j])));
    }
    the_first_that_continues(p, v, registry, typed, typed.len() as int);
    what_a_spelling_continues(p, v, registry, surface, key);
    let rule = v.rules_on(surface@)[k];
    assert(sequence::asks_for(rule, p.keys.push(key)));
    rules_of_a_surface_are_rules(v, surface@, k);
    assert(v.physical_on(surface@));
    assert(sequence::guess_continues(p, v, key));
}

/// The rules of a surface are rules of the index, for that surface.
proof fn rules_of_a_surface_are_rules(v: IndexView, id: Seq<char>, k: int)
    requires
        0 <= k < v.rules_on(id).len(),
    ensures
        v.rules_on(id)[k].surface == id,
        exists|i: int|
            0 <= i < v.rules().len() && #[trigger] v.rules()[i] == v.rules_on(id)[k],
{
    let p = |r: RuleView| r.surface == id;
    broadcast use vstd::seq_lib::group_filter_ensures;

    v.rules().lemma_filter_contains_rev(p, v.rules_on(id)[k]);
    assert(p(v.rules_on(id)[k]));
    assert(v.rules().contains(v.rules_on(id)[k]));
}

/// Whether a key may open a buffer on a surface: something longer that starts
/// with it is waited for there, and, for a guess, a sequence of the surface
/// that starts with it asks for the guess.
pub open spec fn may_open(v: IndexView, surface: SurfaceId, key: KeyEvent, guess: bool) -> bool {
    &&& waits(v, surface@, seq![key])
    &&& guess ==> exists|k: int|
        {
            &&& 0 <= k < v.rules_on(surface@).len()
            &&& (#[trigger] v.rules_on(surface@)[k]).physical
            &&& v.rules_on(surface@)[k].lhs.len() > 1
            &&& v.rules_on(surface@)[k].lhs[0] == key
        }
}

proof fn what_opens_may_open(v: IndexView, surface: SurfaceId, key: KeyEvent)
    requires
        bind_laws::index_wf(v),
    ensures
        sequence::opens(v, surface, key) == may_open(v, surface, key, false),
        sequence::guess_opens(v, surface, key) == may_open(v, surface, key, true),
{
    let id = surface@;
    the_lookup_is_three_way(v, id, seq![key]);
    bind_laws::waiting_means_reserved(v, id, key);
    let f = |r: RuleView| bind::is_sequence_from(r.lhs, key);
    let all = v.rules_on(id);
    let some = sequence::sequences(v, surface, key);
    broadcast use vstd::seq_lib::group_filter_ensures;

    if sequence::guess_opens(v, surface, key) {
        let i = choose|i: int| 0 <= i < some.len() && (#[trigger] some[i]).physical;
        all.lemma_filter_contains_rev(f, some[i]);
        assert(f(some[i]));
        let k = choose|k: int| 0 <= k < all.len() && all[k] == some[i];
        assert(all[k].physical);
    }
    if may_open(v, surface, key, true) {
        let k = choose|k: int|
            {
                &&& 0 <= k < all.len()
                &&& (#[trigger] all[k]).physical
                &&& all[k].lhs.len() > 1
                &&& all[k].lhs[0] == key
            };
        assert(f(all[k]));
        assert(all.contains(all[k]));
        assert(some.contains(all[k]));
        let i = choose|i: int| 0 <= i < some.len() && some[i] == all[k];
        assert(some[i].physical);
        rules_of_a_surface_are_rules(v, id, k);
    }
}

proof fn the_first_surface_that_opens(
    v: IndexView,
    scope: Seq<SurfaceId>,
    key: KeyEvent,
    guess: bool,
    j: int,
)
    requires
        bind_laws::index_wf(v),
        0 <= j <= scope.len(),
        forall|x: int| 0 <= x < j ==> !may_open(v, #[trigger] scope[x], key, guess),
    ensures
        j < scope.len() && may_open(v, scope[j], key, guess) ==> sequence::first_open(
            v,
            scope,
            key,
            guess,
        ) == Some(scope[j]),
        j == scope.len() ==> sequence::first_open(v, scope, key, guess) is None,
    decreases j,
{
    if scope.len() > 0 {
        what_opens_may_open(v, scope[0], key);
    }
    if j > 0 {
        let rest = scope.skip(1);
        assert(!may_open(v, scope[0], key, guess));
        assert forall|x: int| 0 <= x < j - 1 implies !may_open(
            v,
            #[trigger] rest[x],
            key,
            guess,
        ) by {
            assert(rest[x] == scope[x + 1]);
        }
        the_first_surface_that_opens(v, rest, key, guess, j - 1);
        if j < scope.len() {
            assert(rest[j - 1] == scope[j]);
        }
    }
}

proof fn the_first_spelling_that_opens(
    v: IndexView,
    scope: Seq<SurfaceId>,
    typed: Seq<KeyEvent>,
    i: int,
)
    requires
        0 <= i <= typed.len(),
        forall|x: int|
            0 <= x < i ==> sequence::first_open(v, scope, #[trigger] typed[x], false) is None,
    ensures
        i == typed.len() ==> sequence::first_typed(v, scope, typed) is None,
        i < typed.len() ==> (sequence::first_open(v, scope, typed[i], false) matches Some(surface)
            ==> sequence::first_typed(v, scope, typed) == Some((surface, typed[i]))),
    decreases i,
{
    if i > 0 {
        let rest = typed.skip(1);
        assert(sequence::first_open(v, scope, typed[0], false) is None);
        assert forall|x: int| 0 <= x < i - 1 implies sequence::first_open(
            v,
            scope,
            #[trigger] rest[x],
            false,
        ) is None by {
            assert(rest[x] == typed[x + 1]);
        }
        the_first_spelling_that_opens(v, scope, rest, i - 1);
        if i < typed.len() {
            assert(rest[i - 1] == typed[i]);
        }
    }
}

/// Whether no buffer is open, or the one that is has left the path.
pub open spec fn is_idle_on(p: PendingView, path: SurfacePath) -> bool {
    p.wf() && (p.surface matches Some(surface) ==> !is_open_on(p, path, surface))
}

/// A key opens a buffer at the first typed spelling that may open one within
/// reach, on the deepest surface where it may; the buffer then holds that key
/// alone, belongs to that surface, and keeps the capabilities of the path.
pub proof fn the_first_typed_spelling_opens_the_buffer(
    p: PendingView,
    v: IndexView,
    registry: Seq<ActionSpec>,
    path: SurfacePath,
    probes: ProbeList,
    i: int,
    j: int,
)
    requires
        bind_laws::index_wf(v),
        is_idle_on(p, path),
        0 <= i < probes.scoped(false).len(),
        within_reach(path, probes, j),
        may_open(v, path.ids@[j], probes.scoped(false)[i], false),
        forall|x: int|
            0 <= x < j ==> !may_open(v, #[trigger] path.ids@[x], probes.scoped(false)[i], false),
        forall|y: int, x: int|
            0 <= y < i && within_reach(path, probes, x) ==> !may_open(
                v,
                #[trigger] path.ids@[x],
                #[trigger] probes.scoped(false)[y],
                false,
            ),
    ensures
        ({
            let (after, step) = sequence::stepped(p, v, registry, path, probes, false);
            &&& step is Buffered
            &&& after.keys.len() == 1 && after.keys[0] == probes.scoped(false)[i]
            &&& after.surface == Some(path.ids@[j])
            &&& after.caps == path.caps
        }),
{
    reach_is_reach(path, probes);
    let scope = path.ids@.take(resolve::reach(path, probes));
    let typed = probes.scoped(false);
    if let Some(surface) = p.surface {
        an_open_buffer_is_kept(p, path, surface);
    }
    assert forall|y: int| 0 <= y < i implies sequence::first_open(
        v,
        scope,
        #[trigger] typed[y],
        false,
    ) is None by {
        assert forall|x: int| 0 <= x < scope.len() implies !may_open(
            v,
            #[trigger] scope[x],
            typed[y],
            false,
        ) by {
            assert(within_reach(path, probes, x));
            assert(scope[x] == path.ids@[x]);
        }
        the_first_surface_that_opens(v, scope, typed[y], false, scope.len() as int);
    }
    assert(scope[j] == path.ids@[j]);
    assert forall|x: int| 0 <= x < j implies !may_open(v, #[trigger] scope[x], typed[i], false) by {
        assert(scope[x] == path.ids@[x]);
    }
    the_first_surface_that_opens(v, scope, typed[i], false, j);
    the_first_spelling_that_opens(v, scope, typed, i);
}

/// Where no typed spelling may open a buffer, the guess opens one on the
/// deepest surface within reach where it may, unless the anchor refuses it; and
/// where nothing may, the keystroke passes through and no buffer is open.
pub proof fn only_then_does_the_guess_open_one(
    p: PendingView,
    v: IndexView,
    registry: Seq<ActionSpec>,
    path: SurfacePath,
    probes: ProbeList,
    j: int,
)
    requires
        bind_laws::index_wf(v),
        is_idle_on(p, path),
        probes.valid(),
        forall|y: int, x: int|
            0 <= y < probes.scoped(false).len() && within_reach(path, probes, x) ==> !may_open(
                v,
                #[trigger] path.ids@[x],
                #[trigger] probes.scoped(false)[y],
                false,
            ),
        ({
            ||| probes.positional is None
            ||| path.anchor_refuses_positional
            ||| ({
                let guess = probes.keys[probes.positional->0 as int];
                &&& forall|x: int|
                    0 <= x < j ==> !may_open(v, #[trigger] path.ids@[x], guess, true)
                &&& ({
                    ||| within_reach(path, probes, j) && may_open(v, path.ids@[j], guess, true)
                    ||| j == path.ids@.len()
                })
            })
        }),
    ensures
        ({
            let (after, step) = sequence::stepped(p, v, registry, path, probes, false);
            if probes.positional is Some && !path.anchor_refuses_positional && j
                < path.ids@.len() {
                &&& step is Buffered
                &&& after.keys.len() == 1
                &&& after.keys[0] == probes.keys[probes.positional->0 as int]
                &&& after.surface == Some(path.ids@[j])
                &&& after.caps == path.caps
            } else {
                &&& step is Passthrough
                &&& after.keys.len() == 0
                &&& after.surface is None
            }
        }),
{
    reach_is_reach(path, probes);
    let scope = path.ids@.take(resolve::reach(path, probes));
    let typed = probes.scoped(false);
    if let Some(surface) = p.surface {
        an_open_buffer_is_kept(p, path, surface);
    }
    assert forall|y: int| 0 <= y < typed.len() implies sequence::first_open(
        v,
        scope,
        #[trigger] typed[y],
        false,
    ) is None by {
        assert forall|x: int| 0 <= x < scope.len() implies !may_open(
            v,
            #[trigger] scope[x],
            typed[y],
            false,
        ) by {
            assert(within_reach(path, probes, x));
            assert(scope[x] == path.ids@[x]);
        }
        the_first_surface_that_opens(v, scope, typed[y], false, scope.len() as int);
    }
    the_first_spelling_that_opens(v, scope, typed, typed.len() as int);
    if let Some(at) = probes.positional {
        if !path.anchor_refuses_positional {
            let guess = probes.keys[at as int];
            let n = if j < path.ids@.len() {
                j
            } else {
                scope.len() as int
            };
            assert forall|x: int| 0 <= x < n implies !may_open(
                v,
                #[trigger] scope[x],
                guess,
                true,
            ) by {
                assert(scope[x] == path.ids@[x]);
            }
            if j < path.ids@.len() {
                assert(scope[j] == path.ids@[j]);
            }
            the_first_surface_that_opens(v, scope, guess, true, n);
        }
    }
}

/// A key that is held down neither opens a buffer nor extends one: with a
/// buffer open it is used up, and otherwise it passes through.
pub proof fn a_held_key_is_not_typed_again(
    p: PendingView,
    v: IndexView,
    registry: Seq<ActionSpec>,
    path: SurfacePath,
    probes: ProbeList,
)
    requires
        p.wf(),
    ensures
        ({
            let (after, step) = sequence::stepped(p, v, registry, path, probes, true);
            match p.surface {
                Some(surface) => if is_open_on(p, path, surface) {
                    step is Echo && after == p
                } else {
                    step is Passthrough && after.surface is None && after.keys.len() == 0
                },
                None => step is Passthrough && after == p,
            }
        }),
{
    if let Some(surface) = p.surface {
        an_open_buffer_is_kept(p, path, surface);
    }
}

/// A sequence, once installed, is buffered key by key and runs its rule with
/// its last key, where nothing on the way does not wait and nothing goes on
/// after it.
pub proof fn an_installed_sequence_is_typed_key_by_key(
    v: IndexView,
    rule: RuleView,
    registry: Seq<ActionSpec>,
    p: PendingView,
    path: SurfacePath,
    probes: ProbeList,
    surface: SurfaceId,
)
    requires
        bind_laws::index_wf(v),
        v.slots.len() < u32::MAX,
        v.arena.len() < u32::MAX,
        rule.surface == surface@,
        rule.lhs.len() <= 8,
        is_open_on(p, path, surface),
        p.keys.len() < rule.lhs.len(),
        p.keys == rule.lhs.take(p.keys.len() as int),
        probes.valid(),
        probes.scoped(false).len() > 0,
        probes.scoped(false)[0] == rule.lhs[p.keys.len() as int],
    ensures
        ({
            let u = v.upserted(rule);
            let (after, step) = sequence::stepped(p, u, registry, path, probes, false);
            let typed = rule.lhs.take(p.keys.len() as int + 1);
            if typed.len() < rule.lhs.len() {
                waits(u, surface@, typed) ==> step is Buffered && after.keys == typed
                    && after.surface == p.surface && after.caps == p.caps
            } else if !waits(u, surface@, rule.lhs) {
                &&& after.surface is None
                &&& after.keys.len() == 0
                &&& if may_run(rule, registry, p.caps) {
                    step matches StepView::Run(c, key) && key == rule.lhs.last()
                        && is_candidate_of(c, rule, surface, registry)
                } else {
                    step == StepView::DeadPrefix(surface)
                }
            } else {
                step is Buffered && after.keys == rule.lhs
            }
        }),
{
    let u = v.upserted(rule);
    let key = probes.scoped(false)[0];
    let typed = rule.lhs.take(p.keys.len() as int + 1);
    bind_laws::the_last_writer_is_found(v, rule, 0);
    assert(p.keys.push(key) =~= typed);
    let b = u.bindings(surface@)->0;
    assert(b.trie.dom().contains(rule.lhs));
    assert(rule.lhs.take(typed.len() as int) =~= typed);
    assert(leads_on(u, surface@, typed));
    if typed.len() == rule.lhs.len() {
        assert(typed =~= rule.lhs);
    }
    an_open_buffer_owns_the_next_key(p, u, registry, path, probes, surface, 0);
}

// ── What runs ─────────────────────────────────────────────────────────

/// The candidates that run are the first ones, in their order, each with its own
/// answer: a suppressed repeat never runs, and nothing runs after one that is
/// void or does not decline.
pub proof fn what_runs_is_what_comes_first(
    candidates: Seq<Candidate>,
    is_echo: bool,
    answers: Seq<Outcome>,
    i: int,
)
    requires
        resolve::all_asked(candidates, is_echo, answers),
        0 <= i < answers.len(),
    ensures
        answers.len() <= candidates.len(),
        resolve::ran_on(candidates, answers).len() == answers.len(),
        resolve::ran_on(candidates, answers)[i] == (candidates[i]@, answers[i]),
        !(is_echo && candidates[i].repeat == Repeat::Suppress),
        i < answers.len() - 1 ==> candidates[i].consume == Consumption::Elastic && answers[i]
            == Outcome::Declined,
{
}

/// A keystroke is used up exactly where what ran last was void or did not
/// decline, or where a suppressed repeat came next; otherwise every candidate
/// ran and declined.
pub proof fn why_a_keystroke_is_used_up(
    candidates: Seq<Candidate>,
    is_echo: bool,
    answers: Seq<Outcome>,
    r: Disposition,
)
    requires
        resolve::all_asked(candidates, is_echo, answers),
        resolve::disposed(candidates, is_echo, answers, 0) == Some(r),
    ensures
        r == Disposition::Consume <==> {
            ||| answers.len() > 0 && (candidates[answers.len() - 1].consume == Consumption::Void
                || answers.last() != Outcome::Declined)
            ||| answers.len() < candidates.len() && is_echo && candidates[answers.len() as int].repeat
                == Repeat::Suppress
        },
        r == Disposition::Ignore ==> answers.len() == candidates.len(),
{
    let n = answers.len() as int;
    let settled = n > 0 && (candidates[n - 1].consume == Consumption::Void || answers.last()
        != Outcome::Declined);
    let i = if settled {
        n - 1
    } else {
        n
    };
    assert forall|j: int| 0 <= j < i implies {
        &&& !(is_echo && (#[trigger] candidates[j]).repeat == Repeat::Suppress)
        &&& candidates[j].consume == Consumption::Elastic
        &&& answers[j] == Outcome::Declined
    } by {
        if j == n - 1 {
            assert(answers[j] == answers.last());
        } else {
            assert(candidates[j].consume != Consumption::Void && !answers[j].consumes());
        }
    }
    resolve::the_first_that_does_not_decline_consumes(candidates, is_echo, answers, i);
    if settled {
        assert(answers[i] == answers.last());
    }
}

/// The waiting time is the engine's where it says one, else the user's setting,
/// else the default; and it is never below the range nor above it.
pub proof fn the_engine_sets_the_waiting_time(
    from_engine: Option<u32>,
    from_settings: Option<i64>,
    range: TimeoutRange,
)
    requires
        range.min <= range.max,
    ensures
        ({
            let ms = sequence::waiting_time(from_engine, from_settings, range);
            let wanted: int = match from_engine {
                Some(n) => n as int,
                None => match from_settings {
                    Some(n) => n as int,
                    None => range.default as int,
                },
            };
            &&& range.min <= ms <= range.max
            &&& range.min <= wanted <= range.max ==> ms == wanted
            &&& wanted < range.min ==> ms == range.min
            &&& wanted > range.max ==> ms == range.max
        }),
{
}

/// A step of the sequence layer says one thing: what it runs is one candidate
/// with the key that completed the sequence, and a dead prefix names its
/// surface.
pub proof fn a_step_says_one_thing(step: SeqStep, want: StepView)
    requires
        sequence::says(step, want),
    ensures
        match step {
            SeqStep::Passthrough => want is Passthrough,
            SeqStep::Echo => want is Echo,
            SeqStep::Buffered => want is Buffered,
            SeqStep::Run(candidates, key) => candidates@.len() == 1 && want == StepView::Run(
                candidates@[0]@,
                key,
            ),
            SeqStep::DeadPrefix(surface) => want == StepView::DeadPrefix(surface),
        },
{
    if let SeqStep::Run(candidates, key) = step {
        let views = resolve::candidate_views(candidates@);
        assert(views.len() == candidates@.len());
        assert(views.len() == 1);
        assert(views[0] == candidates@[0]@);
    }
}

/// The engine is asked about a key exactly where the anchor is no barrier and
/// yields, and that key is the one by which the walk found something to run.
pub proof fn when_the_engine_is_asked(
    v: IndexView,
    registry: Seq<ActionSpec>,
    path: SurfacePath,
    probes: ProbeList,
    key: KeyEvent,
)
    ensures
        resolve::is_asked(v, registry, path, probes, key) <==> {
            &&& !(path.seal is Barrier)
            &&& path.anchor_yields_to_engine
            &&& match resolve::walk_of(v, registry, path, probes) {
                Walked::Found(_, matched) => matched == key,
                Walked::Stopped(_) => false,
            }
        },
{
}

} // verus!
