//! What a line of configuration means: the rule it makes, why it is refused,
//! and what it does to the bindings.

use vstd::prelude::*;
use crate::action;
use crate::action::{ActionId, ActionSpec, TargetView};
use crate::bind;
use crate::bind::{
    Consumption, DiagnosticView, IndexView, OwnerView, PanelLine, PanelMap, RejectView, Repeat,
    RuleView, TargetSpec,
};
use crate::bind_laws;
use crate::key::KeyEvent;
use crate::providers;
use crate::surface;
use crate::surface::{Seal, SurfaceSpec};
use crate::text;

verus! {

// ── The rule that a line makes ────────────────────────────────────────

/// Whether a surface is declared.
pub open spec fn is_declared(forest: Seq<SurfaceSpec>, id: Seq<char>) -> bool {
    exists|i: int| 0 <= i < forest.len() && (#[trigger] forest[i]).id@ == id
}

/// Whether a verb of a name is registered.
pub open spec fn is_registered(registry: Seq<ActionSpec>, name: Seq<char>) -> bool {
    exists|i: int| 0 <= i < registry.len() && (#[trigger] registry[i]).id@ == name
}

proof fn declared_is_placed(forest: Seq<SurfaceSpec>, id: Seq<char>)
    ensures
        is_declared(forest, id) <==> surface::place_of(forest, id) is Some,
{
    surface::place_of_is_first(forest, id);
}

proof fn registered_is_placed(registry: Seq<ActionSpec>, name: Seq<char>)
    ensures
        is_registered(registry, name) <==> action::spec_place(registry, name) is Some,
        action::spec_place(registry, name) matches Some(i) ==> 0 <= i < registry.len()
            && registry[i].id@ == name,
{
    let names = action::spec_names(registry);
    if is_registered(registry, name) {
        let i = choose|i: int| 0 <= i < registry.len() && (#[trigger] registry[i]).id@ == name;
        assert(names[i] == name);
        assert(names.contains(name));
    }
    if names.contains(name) {
        let i = names.index_of(name);
        let j = choose|j: int| 0 <= j < names.len() && names[j] == name;
        assert(names[i] == name);
        assert(registry[i].id@ == name);
    }
}

/// Each flag of a line sets its own field of the rule and no other, whatever
/// the other flags say: `<void>` the consumption, `<norepeat>` the repeat
/// policy, `<physical>`, `<shift>` and `<nowait>` theirs. The surface, the keys
/// and the parameters are the line's, and the rule belongs to whoever wrote it.
pub proof fn each_flag_sets_its_own_field(
    map: PanelMap,
    registry: Seq<ActionSpec>,
    forest: Seq<SurfaceSpec>,
    owner: OwnerView,
)
    ensures
        bind::rule_of_line(map, registry, forest, owner) matches Ok(rule) ==> {
            &&& rule.consume == Consumption::Void <==> map.flags.void
            &&& rule.consume == Consumption::Elastic <==> !map.flags.void
            &&& rule.repeat == Repeat::Suppress <==> map.flags.norepeat
            &&& rule.repeat == Repeat::Allow <==> !map.flags.norepeat
            &&& rule.physical <==> map.flags.physical
            &&& rule.shift_tolerant <==> map.flags.shift
            &&& rule.nowait <==> map.flags.nowait
            &&& rule.surface == text::compact_text(map.surface)
            &&& rule.lhs == map.lhs@
            &&& rule.params == map.params@
            &&& rule.owner == owner
        },
{
}

/// Two lines that differ in their flags alone load or fail alike, and their
/// rules differ in nothing but the fields of the flags that differ.
pub proof fn flags_change_nothing_else(
    a: PanelMap,
    b: PanelMap,
    registry: Seq<ActionSpec>,
    forest: Seq<SurfaceSpec>,
    owner: OwnerView,
)
    requires
        text::compact_text(a.surface) == text::compact_text(b.surface),
        a.lhs@ == b.lhs@,
        a.target == b.target,
        a.params@ == b.params@,
    ensures
        match (
            bind::rule_of_line(a, registry, forest, owner),
            bind::rule_of_line(b, registry, forest, owner),
        ) {
            (Ok(x), Ok(y)) => {
                &&& x.surface == y.surface && x.lhs == y.lhs && x.target == y.target
                &&& x.params == y.params && x.owner == y.owner && x.desc == y.desc
                &&& (x.consume == y.consume) == (a.flags.void == b.flags.void)
                &&& (x.repeat == y.repeat) == (a.flags.norepeat == b.flags.norepeat)
                &&& (x.physical == y.physical) == (a.flags.physical == b.flags.physical)
                &&& (x.shift_tolerant == y.shift_tolerant) == (a.flags.shift == b.flags.shift)
                &&& (x.nowait == y.nowait) == (a.flags.nowait == b.flags.nowait)
            },
            (Err(x), Err(y)) => x == y,
            _ => false,
        },
{
}

/// A line that binds makes a rule where its surface is declared and its verb is
/// registered, and says which of the two is not: the surface first. The rule
/// targets the verb of the name that the line has, and carries its description;
/// or the editor, or the shortcut of the line.
pub proof fn a_line_makes_a_rule_or_says_why(
    map: PanelMap,
    registry: Seq<ActionSpec>,
    forest: Seq<SurfaceSpec>,
    owner: OwnerView,
)
    requires
        registry.len() <= u32::MAX,
    ensures
        ({
            let id = text::compact_text(map.surface);
            let r = bind::rule_of_line(map, registry, forest, owner);
            if !is_declared(forest, id) {
                r == Err::<RuleView, RejectView>(RejectView::UnknownSurface(id))
            } else {
                match map.target {
                    TargetSpec::Action(name) => if is_registered(
                        registry,
                        text::compact_text(name),
                    ) {
                        r matches Ok(rule) && rule.target matches TargetView::Action(at) && at.0
                            < registry.len() && registry[at.0 as int].id@ == text::compact_text(
                            name,
                        ) && rule.desc == registry[at.0 as int].desc@
                    } else {
                        r == Err::<RuleView, RejectView>(
                            RejectView::UnknownAction(text::compact_text(name)),
                        )
                    },
                    TargetSpec::Native => r matches Ok(rule) && rule.target is Native && rule.desc
                        == "give the key back to Godot"@,
                    TargetSpec::Shortcut(path) => r matches Ok(rule) && rule.target
                        == TargetView::Shortcut(text::compact_text(path)) && rule.desc
                        == "editor shortcut "@ + text::compact_text(path),
                }
            }
        }),
{
    declared_is_placed(forest, text::compact_text(map.surface));
    if let TargetSpec::Action(name) = map.target {
        registered_is_placed(registry, text::compact_text(name));
    }
}

// ── Refusals ──────────────────────────────────────────────────────────

/// Whether a rule's surface is declared and is a barrier.
pub open spec fn is_barred(forest: Seq<SurfaceSpec>, id: Seq<char>) -> bool {
    exists|i: int|
        {
            &&& 0 <= i < forest.len()
            &&& (#[trigger] forest[i]).id@ == id
            &&& forest[i].seal is Barrier
            &&& forall|j: int| 0 <= j < i ==> (#[trigger] forest[j]).id@ != id
        }
}

/// Whether a verb needs anything at all, or is not there.
pub open spec fn needs_something(registry: Seq<ActionSpec>, id: ActionId) -> bool {
    id.0 < registry.len() ==> {
        let needs = registry[id.0 as int].requires;
        needs.vnav || needs.hierarchy || needs.activate || needs.textentry || needs.fileops
    }
}

proof fn barred_is_a_barrier(forest: Seq<SurfaceSpec>, id: Seq<char>)
    ensures
        surface::place_of(forest, id) matches Some(i) ==> is_barred(forest, id) == (forest[i].seal
            == Seal::Barrier),
{
    surface::place_of_is_first(forest, id);
    if is_barred(forest, id) {
        let k = choose|k: int|
            {
                &&& 0 <= k < forest.len()
                &&& (#[trigger] forest[k]).id@ == id
                &&& forest[k].seal is Barrier
                &&& forall|j: int| 0 <= j < k ==> (#[trigger] forest[j]).id@ != id
            };
        surface::first_is_place_of(forest, id, k);
    }
}

proof fn what_is_never_allowed(registry: Seq<ActionSpec>, id: ActionId)
    ensures
        bind::never_allowed(registry, id) == needs_something(registry, id),
{
}

/// A rule is refused for one reason, the first that holds: its surface is not
/// declared; it is a barrier; no path leads there and its verb needs something;
/// its target is a shortcut, which nothing dispatches; and, where the script
/// editor is within reach, it has more than one key, or none, or its key starts
/// a command of the editor's grammar. Any other rule is accepted.
pub proof fn a_rule_is_refused_for_the_first_reason_that_holds(
    forest: Seq<SurfaceSpec>,
    rule: RuleView,
    registry: Seq<ActionSpec>,
    grammar: bool,
)
    ensures
        ({
            let r = bind::rejection(forest, rule, registry, grammar);
            let id = rule.surface;
            if !is_declared(forest, id) {
                r == Some(RejectView::UnknownSurface(id))
            } else if is_barred(forest, id) {
                r == Some(RejectView::BarrierSurface(id))
            } else if bind::is_isolated(forest, id) && (rule.target matches TargetView::Action(verb)
                && needs_something(registry, verb)) {
                r matches Some(RejectView::UnsatisfiableCapability { surface, action }) && surface
                    == id && (rule.target matches TargetView::Action(verb) && (verb.0
                    < registry.len() ==> action == registry[verb.0 as int].id@))
            } else if rule.target is Shortcut {
                r matches Some(RejectView::UndispatchedTarget { surface, target }) && surface == id
                    && (rule.target matches TargetView::Shortcut(path) && target == "<Shortcut>("@
                    + path + ")"@)
            } else if bind::reaches_editor(forest, id) && rule.lhs.len() > 1 {
                r == Some(RejectView::MultiKeyOnEditorPath(id))
            } else if bind::reaches_editor(forest, id) && rule.lhs.len() == 0 {
                r matches Some(RejectView::Parse(_))
            } else if bind::reaches_editor(forest, id) && grammar {
                r == Some(RejectView::VimGrammarPrefix(rule.lhs[0]))
            } else {
                r is None
            }
        }),
{
    let id = rule.surface;
    declared_is_placed(forest, id);
    barred_is_a_barrier(forest, id);
    if let TargetView::Action(verb) = rule.target {
        what_is_never_allowed(registry, verb);
    }
}

/// Every editor surface that is declared is within the editor's reach, and so
/// is each surface on the declared path from one; nothing else is.
pub proof fn the_editor_reaches_its_own_surfaces(forest: Seq<SurfaceSpec>, id: Seq<char>)
    ensures
        bind::reaches_editor(forest, id) <==> exists|i: int, j: int|
            #![trigger forest[i], surface::path_of(forest, forest[i].id)[j]]
            {
                &&& 0 <= i < forest.len()
                &&& "editor."@.len() <= forest[i].id@.len()
                &&& forest[i].id@.take("editor."@.len() as int) == "editor."@
                &&& 0 <= j < surface::path_of(forest, forest[i].id).len()
                &&& surface::path_of(forest, forest[i].id)[j]@ == id
            },
{
    if bind::reaches_editor(forest, id) {
        let i = choose|i: int|
            0 <= i < forest.len() && text::begins_with((#[trigger] forest[i]).id@, "editor."@)
                && surface::on_path(surface::path_of(forest, forest[i].id), id);
        let path = surface::path_of(forest, forest[i].id);
        let j = choose|j: int| 0 <= j < path.len() && (#[trigger] path[j])@ == id;
        assert(forest[i].id@.take("editor."@.len() as int) == "editor."@);
        assert(surface::path_of(forest, forest[i].id)[j]@ == id);
    }
    if exists|i: int, j: int|
        #![trigger forest[i], surface::path_of(forest, forest[i].id)[j]]
        {
            &&& 0 <= i < forest.len()
            &&& "editor."@.len() <= forest[i].id@.len()
            &&& forest[i].id@.take("editor."@.len() as int) == "editor."@
            &&& 0 <= j < surface::path_of(forest, forest[i].id).len()
            &&& surface::path_of(forest, forest[i].id)[j]@ == id
        } {
        let (i, j) = choose|i: int, j: int|
            #![trigger forest[i], surface::path_of(forest, forest[i].id)[j]]
            {
                &&& 0 <= i < forest.len()
                &&& "editor."@.len() <= forest[i].id@.len()
                &&& forest[i].id@.take("editor."@.len() as int) == "editor."@
                &&& 0 <= j < surface::path_of(forest, forest[i].id).len()
                &&& surface::path_of(forest, forest[i].id)[j]@ == id
            };
        let path = surface::path_of(forest, forest[i].id);
        assert(path[j]@ == id);
        assert(text::begins_with(forest[i].id@, "editor."@));
    }
}

/// Of the shipped surfaces those of the editor and `panel` are within the
/// editor's reach, and `editor.insert`, `editor.completion` and `foreign` are
/// on no path but their own.
pub proof fn what_the_editor_reaches_of_the_shipped_surfaces(i: int)
    requires
        0 <= i < providers::shipped_surfaces().len(),
    ensures
        ({
            let forest = providers::shipped_surfaces();
            let id = forest[i].id@;
            &&& bind::reaches_editor(forest, id) <==> {
                ||| id == "editor.nav"@
                ||| id == "editor.insert"@
                ||| id == "editor.completion"@
                ||| id == "panel"@
            }
            &&& bind::is_isolated(forest, id) <==> {
                ||| id == "editor.insert"@
                ||| id == "editor.completion"@
                ||| id == "foreign"@
            }
        }),
{
    let forest = providers::shipped_surfaces();
    providers::shipped_places();
    providers::shipped_paths();
    reveal_strlit("editor.");
    reveal_strlit("editor.nav");
    reveal_strlit("editor.insert");
    reveal_strlit("editor.completion");
    reveal_strlit("prompt");
    reveal_strlit("searchbox");
    reveal_strlit("dock.filesystem");
    reveal_strlit("dock.debugger");
    reveal_strlit("dock");
    reveal_strlit("foreign");
    reveal_strlit("unknown");
    reveal_strlit("panel");
    assert("editor.nav"@.take(7) =~= "editor."@);
    assert("editor.insert"@.take(7) =~= "editor."@);
    assert("editor.completion"@.take(7) =~= "editor."@);
    let id = forest[i].id@;
    assert forall|k: int| 3 <= k < 11 implies !text::begins_with(
        (#[trigger] forest[k]).id@,
        "editor."@,
    ) by {
        if "editor."@.len() <= forest[k].id@.len() {
            assert(forest[k].id@[0] != 'e');
            assert(forest[k].id@.take(7)[0] == forest[k].id@[0]);
        }
    }
    let nav = surface::path_of(forest, forest[0].id);
    let insert = surface::path_of(forest, forest[1].id);
    let popup = surface::path_of(forest, forest[2].id);
    assert(nav[0]@ == "editor.nav"@ && nav[1]@ == "panel"@);
    assert(insert[0]@ == "editor.insert"@);
    assert(popup[0]@ == "editor.completion"@);
    assert(text::begins_with(forest[0].id@, "editor."@));
    assert(text::begins_with(forest[1].id@, "editor."@));
    assert(text::begins_with(forest[2].id@, "editor."@));
    assert(bind::is_child_of(forest, forest[0].id@, "panel"@));
    assert(bind::is_child_of(forest, forest[5].id@, "dock"@));
    if i == 1 || i == 2 || i == 8 {
        assert forall|k: int| 0 <= k < forest.len() implies !bind::is_child_of(
            forest,
            (#[trigger] forest[k]).id@,
            id,
        ) by {
            assert("panel"@.len() == 5 && "dock"@.len() == 4);
            assert("foreign"@.len() == 7 && "editor.insert"@.len() == 13
                && "editor.completion"@.len() == 17);
        }
    }
}

// ── Applying lines ────────────────────────────────────────────────────

/// A blank line does nothing; one that does not parse, or whose surface or verb
/// is unknown, or whose rule is refused changes nothing and says why; one that
/// unbinds a key of a declared surface takes the rule there out; and any other
/// installs its rule.
pub proof fn what_a_line_does(
    v: IndexView,
    line: PanelLine,
    registry: Seq<ActionSpec>,
    owner: OwnerView,
)
    ensures
        ({
            let (u, rejected) = bind::line_applied(v, line, registry, owner);
            match line {
                PanelLine::Blank => u == v && rejected is None,
                PanelLine::Fault(e) => u == v && rejected == Some(RejectView::Parse(e@)),
                PanelLine::Unmap { surface, lhs } => if is_declared(
                    v.forest,
                    text::compact_text(surface),
                ) {
                    rejected is None && u == v.removed(text::compact_text(surface), lhs@)
                } else {
                    u == v && rejected == Some(
                        RejectView::UnknownSurface(text::compact_text(surface)),
                    )
                },
                PanelLine::Bind { map, grammar } => match bind::rule_of_line(
                    map,
                    registry,
                    v.forest,
                    owner,
                ) {
                    Err(e) => u == v && rejected == Some(e),
                    Ok(rule) => match bind::rejection(v.forest, rule, registry, grammar) {
                        Some(e) => u == v && rejected == Some(e),
                        None => rejected is None && u == v.upserted(rule),
                    },
                },
            }
        }),
{
    if let PanelLine::Unmap { surface, lhs } = line {
        declared_is_placed(v.forest, text::compact_text(surface));
    }
}

/// What a line that binds leaves behind, where it loads: a listed rule for its
/// surface and keys with its parameters and its flags, which belongs to whoever
/// wrote it; and every other rule stays listed.
pub proof fn a_line_that_loads_lists_its_rule(
    v: IndexView,
    map: PanelMap,
    grammar: bool,
    registry: Seq<ActionSpec>,
    owner: OwnerView,
    k: int,
)
    requires
        bind_laws::index_wf(v),
        v.slots.len() < u32::MAX,
        v.arena.len() < u32::MAX,
        bind::line_applied(v, PanelLine::Bind { map, grammar }, registry, owner).1 is None,
        0 <= k < v.rules().len(),
    ensures
        ({
            let u = bind::line_applied(v, PanelLine::Bind { map, grammar }, registry, owner).0;
            let id = text::compact_text(map.surface);
            &&& exists|i: int|
                {
                    &&& 0 <= i < u.rules().len()
                    &&& (#[trigger] u.rules()[i]).surface == id
                    &&& u.rules()[i].lhs == map.lhs@
                    &&& u.rules()[i].params == map.params@
                    &&& u.rules()[i].owner == owner
                    &&& (u.rules()[i].repeat == Repeat::Suppress) == map.flags.norepeat
                    &&& (u.rules()[i].consume == Consumption::Void) == map.flags.void
                    &&& u.rules()[i].physical == map.flags.physical
                    &&& u.rules()[i].shift_tolerant == map.flags.shift
                    &&& u.rules()[i].nowait == map.flags.nowait
                }
            &&& v.rules()[k].surface != id || v.rules()[k].lhs != map.lhs@ ==> k < u.rules().len()
                && u.rules()[k] == v.rules()[k]
        }),
{
    let rule = bind::rule_of_line(map, registry, v.forest, owner)->Ok_0;
    let u = v.upserted(rule);
    bind_laws::upsert_replaces_in_place_or_appends(v, rule);
    crate::search::first_where_is_first(
        v.rules(),
        bind_laws::of_rule(rule.surface, rule.lhs),
    );
    let at = match bind_laws::rule_place(v.rules(), rule.surface, rule.lhs) {
        Some(i) => i,
        None => v.rules().len() as int,
    };
    each_flag_sets_its_own_field(map, registry, v.forest, owner);
    assert(bind::line_applied(v, PanelLine::Bind { map, grammar }, registry, owner).0 == u);
    assert(u.rules()[at] == rule);
    assert(u.rules()[at].surface == text::compact_text(map.surface));
    if k != at {
        assert(u.rules()[k] == v.rules()[k]);
    }
}

/// A line that unbinds takes out the rule for its surface and keys and no
/// other.
pub proof fn a_line_that_unbinds_takes_its_rule_out(
    v: IndexView,
    surface: compact_str::CompactString,
    lhs: Vec<KeyEvent>,
    registry: Seq<ActionSpec>,
    owner: OwnerView,
    i: int,
)
    requires
        bind_laws::index_wf(v),
        is_declared(v.forest, text::compact_text(surface)),
        0 <= i < v.rules().len(),
    ensures
        ({
            let (u, rejected) = bind::line_applied(
                v,
                PanelLine::Unmap { surface, lhs },
                registry,
                owner,
            );
            let id = text::compact_text(surface);
            &&& rejected is None
            &&& forall|j: int|
                0 <= j < u.rules().len() ==> (#[trigger] u.rules()[j]).surface != id
                    || u.rules()[j].lhs != lhs@
            &&& v.rules()[i].surface != id || v.rules()[i].lhs != lhs@ ==> u.rules().contains(
                v.rules()[i],
            )
        }),
{
    let id = text::compact_text(surface);
    declared_is_placed(v.forest, id);
    let u = v.removed(id, lhs@);
    let p = bind_laws::of_rule(id, lhs@);
    bind_laws::remove_takes_one_rule_out(v, id, lhs@);
    crate::search::first_where_is_first(v.rules(), p);
    match bind_laws::rule_place(v.rules(), id, lhs@) {
        Some(at) => {
            bind_laws::rules_are_listed_once(v);
            let rest = v.rules().remove(at);
            assert forall|j: int| 0 <= j < u.rules().len() implies (#[trigger] u.rules()[j]).surface
                != id || u.rules()[j].lhs != lhs@ by {
                let k = if j < at {
                    j
                } else {
                    j + 1
                };
                assert(rest[j] == v.rules()[k]);
                if k < at {
                    assert(v.rules()[k].surface != v.rules()[at].surface || v.rules()[k].lhs
                        != v.rules()[at].lhs);
                } else {
                    assert(v.rules()[at].surface != v.rules()[k].surface || v.rules()[at].lhs
                        != v.rules()[k].lhs);
                }
            }
            if i < at {
                assert(rest[i] == v.rules()[i]);
            } else if i > at {
                assert(rest[i - 1] == v.rules()[i]);
            }
        },
        None => {
            assert forall|j: int| 0 <= j < u.rules().len() implies (#[trigger] u.rules()[j]).surface
                != id || u.rules()[j].lhs != lhs@ by {
                assert(!p(v.rules()[j]));
            }
        },
    }
}

/// The first line of several is applied to the index as it was, and alone does
/// what it does.
pub proof fn one_line_is_applied_as_it_is(
    v: IndexView,
    line: PanelLine,
    registry: Seq<ActionSpec>,
    owner: OwnerView,
    source: Seq<char>,
)
    ensures
        bind::lines_applied(v, seq![line], 1, registry, owner) == bind::line_applied(
            v,
            line,
            registry,
            owner,
        ).0,
        match bind::line_applied(v, line, registry, owner).1 {
            Some(reject) => bind::lines_rejected(v, seq![line], 1, registry, owner, source)
                == seq![DiagnosticView { line: Some(1u32), source, reject }],
            None => bind::lines_rejected(v, seq![line], 1, registry, owner, source).len() == 0,
        },
{
    reveal_with_fuel(bind::lines_applied, 2);
    reveal_with_fuel(bind::lines_rejected, 2);
    if let Some(reject) = bind::line_applied(v, line, registry, owner).1 {
        assert(bind::lines_rejected(v, seq![line], 1, registry, owner, source) =~= seq![
            DiagnosticView { line: Some(1u32), source, reject },
        ]);
    }
}

/// The diagnostics number the lines that did not load, counted from one and in
/// order, and each says why its own line did not.
pub proof fn diagnostics_number_their_lines(
    v: IndexView,
    lines: Seq<PanelLine>,
    n: int,
    registry: Seq<ActionSpec>,
    owner: OwnerView,
    source: Seq<char>,
    i: int,
)
    requires
        0 <= i < n <= lines.len(),
        n <= u32::MAX,
    ensures
        ({
            let ds = bind::lines_rejected(v, lines, n, registry, owner, source);
            let why = bind::line_applied(
                bind::lines_applied(v, lines, i, registry, owner),
                lines[i],
                registry,
                owner,
            ).1;
            &&& forall|k: int|
                0 <= k < ds.len() ==> (#[trigger] ds[k]).source == source && (ds[k].line matches Some(
                    at,
                ) && 1 <= at <= n)
            &&& forall|j: int, k: int|
                0 <= j < k < ds.len() ==> (#[trigger] ds[j]).line->0 < (#[trigger] ds[k]).line->0
            &&& match why {
                Some(reject) => exists|k: int|
                    0 <= k < ds.len() && (#[trigger] ds[k]).line == Some((i + 1) as u32)
                        && ds[k].reject == reject,
                None => forall|k: int|
                    0 <= k < ds.len() ==> (#[trigger] ds[k]).line != Some((i + 1) as u32),
            }
        }),
    decreases n,
{
    let before = bind::lines_rejected(v, lines, n - 1, registry, owner, source);
    let ds = bind::lines_rejected(v, lines, n, registry, owner, source);
    if n > 1 {
        let at = if i < n - 1 {
            i
        } else {
            0
        };
        diagnostics_number_their_lines(v, lines, n - 1, registry, owner, source, at);
    } else {
        reveal_with_fuel(bind::lines_rejected, 2);
    }
    assert forall|k: int| 0 <= k < before.len() implies ds[k] == before[k] by {}
    let why = bind::line_applied(
        bind::lines_applied(v, lines, i, registry, owner),
        lines[i],
        registry,
        owner,
    ).1;
    if i < n - 1 {
        if let Some(reject) = why {
            let k = choose|k: int|
                0 <= k < before.len() && (#[trigger] before[k]).line == Some((i + 1) as u32)
                    && before[k].reject == reject;
            assert(ds[k] == before[k]);
        }
    } else if why is Some {
        assert(ds[before.len() as int].line == Some((i + 1) as u32));
    }
}

/// Every rule that lines install belongs to whoever wrote the lines; the rules
/// of others stay theirs.
pub proof fn rules_belong_to_whoever_wrote_them(
    v: IndexView,
    lines: Seq<PanelLine>,
    n: int,
    registry: Seq<ActionSpec>,
    owner: OwnerView,
    a: int,
)
    requires
        0 <= n <= lines.len(),
        0 <= a < bind::lines_applied(v, lines, n, registry, owner).arena.len(),
    ensures
        ({
            let u = bind::lines_applied(v, lines, n, registry, owner);
            &&& v.arena.len() <= u.arena.len()
            &&& a < v.arena.len() ==> u.arena[a] == v.arena[a]
            &&& a >= v.arena.len() ==> u.arena[a].owner == owner
        }),
    decreases n,
{
    let u = bind::lines_applied(v, lines, n, registry, owner);
    if n > 0 {
        let w = bind::lines_applied(v, lines, n - 1, registry, owner);
        if a < w.arena.len() {
            rules_belong_to_whoever_wrote_them(v, lines, n - 1, registry, owner, a);
        } else if w.arena.len() > 0 {
            rules_belong_to_whoever_wrote_them(v, lines, n - 1, registry, owner, 0);
        } else {
            arenas_grow(v, lines, n - 1, registry, owner);
        }
    }
}

proof fn arenas_grow(
    v: IndexView,
    lines: Seq<PanelLine>,
    n: int,
    registry: Seq<ActionSpec>,
    owner: OwnerView,
)
    requires
        0 <= n <= lines.len(),
    ensures
        v.arena.len() <= bind::lines_applied(v, lines, n, registry, owner).arena.len(),
    decreases n,
{
    if n > 0 {
        arenas_grow(v, lines, n - 1, registry, owner);
    }
}

/// Every rule of the builtin layer belongs to the provider whose defaults
/// installed it.
pub proof fn every_builtin_rule_belongs_to_its_provider(
    v: IndexView,
    blocks: Seq<Seq<PanelLine>>,
    n: int,
    registry: Seq<ActionSpec>,
    a: int,
)
    requires
        v.arena.len() == 0,
        0 <= n <= blocks.len(),
        n <= providers::shipped_providers().len(),
        0 <= a < bind::blocks_applied(v, blocks, n, registry).arena.len(),
    ensures
        exists|k: int|
            {
                &&& 0 <= k < n
                &&& bind::blocks_applied(v, blocks, k, registry).arena.len() <= a
                &&& a < bind::blocks_applied(v, blocks, k + 1, registry).arena.len()
                &&& bind::blocks_applied(v, blocks, n, registry).arena[a].owner == OwnerView::Host(
                    (#[trigger] providers::shipped_providers()[k]).tag@,
                )
            },
    decreases n,
{
    let u = bind::blocks_applied(v, blocks, n, registry);
    if n > 0 {
        let w = bind::blocks_applied(v, blocks, n - 1, registry);
        let block = blocks[n - 1];
        let owner = OwnerView::Host(providers::shipped_providers()[n - 1].tag@);
        rules_belong_to_whoever_wrote_them(w, block, block.len() as int, registry, owner, a);
        if a < w.arena.len() {
            every_builtin_rule_belongs_to_its_provider(v, blocks, n - 1, registry, a);
            let k = choose|k: int|
                {
                    &&& 0 <= k < n - 1
                    &&& bind::blocks_applied(v, blocks, k, registry).arena.len() <= a
                    &&& a < bind::blocks_applied(v, blocks, k + 1, registry).arena.len()
                    &&& w.arena[a].owner == OwnerView::Host(
                        (#[trigger] providers::shipped_providers()[k]).tag@,
                    )
                };
            assert(u.arena[a].owner == OwnerView::Host(providers::shipped_providers()[k].tag@));
        } else {
            assert(bind::blocks_applied(v, blocks, (n - 1) + 1, registry) == u);
            assert(u.arena[a].owner == OwnerView::Host(
                providers::shipped_providers()[n - 1].tag@,
            ));
        }
    }
}

/// The diagnostics of the builtin layer are those of each provider's defaults,
/// under its tag: there are none exactly where every provider's lines load.
pub proof fn the_builtin_layer_loads_where_every_provider_does(
    v: IndexView,
    blocks: Seq<Seq<PanelLine>>,
    n: int,
    registry: Seq<ActionSpec>,
)
    requires
        0 <= n <= blocks.len(),
        n <= providers::shipped_providers().len(),
    ensures
        bind::blocks_rejected(v, blocks, n, registry).len() == 0 <==> forall|k: int|
            0 <= k < n ==> block_loads(v, blocks, k, registry),
        forall|d: int|
            0 <= d < bind::blocks_rejected(v, blocks, n, registry).len() ==> exists|k: int|
                0 <= k < n && (#[trigger] providers::shipped_providers()[k]).tag@ == (
                #[trigger] bind::blocks_rejected(v, blocks, n, registry)[d]).source,
    decreases n,
{
    if n > 0 {
        the_builtin_layer_loads_where_every_provider_does(v, blocks, n - 1, registry);
        let before = bind::blocks_rejected(v, blocks, n - 1, registry);
        let all = bind::blocks_rejected(v, blocks, n, registry);
        let tag = providers::shipped_providers()[n - 1].tag@;
        let block = blocks[n - 1];
        let own = bind::lines_rejected(
            bind::blocks_applied(v, blocks, n - 1, registry),
            block,
            block.len() as int,
            registry,
            OwnerView::Host(tag),
            tag,
        );
        assert(all == before + own);
        if all.len() == 0 {
            assert forall|k: int| 0 <= k < n implies block_loads(v, blocks, k, registry) by {
                assert(k == n - 1 || k < n - 1);
            }
        }
        if forall|k: int| 0 <= k < n ==> block_loads(v, blocks, k, registry) {
            assert(block_loads(v, blocks, n - 1, registry));
        }
        assert forall|d: int| 0 <= d < all.len() implies exists|k: int|
            0 <= k < n && (#[trigger] providers::shipped_providers()[k]).tag@ == (
            #[trigger] all[d]).source by {
            if d < before.len() {
                assert(all[d] == before[d]);
                let k = choose|k: int|
                    0 <= k < n - 1 && (#[trigger] providers::shipped_providers()[k]).tag@
                        == before[d].source;
                assert(providers::shipped_providers()[k].tag@ == all[d].source);
            } else {
                sources_are_told(
                    bind::blocks_applied(v, blocks, n - 1, registry),
                    block,
                    block.len() as int,
                    registry,
                    OwnerView::Host(tag),
                    tag,
                    d - before.len(),
                );
                assert(all[d] == own[d - before.len()]);
                assert(providers::shipped_providers()[n - 1].tag@ == all[d].source);
            }
        }
    }
}

/// Whether every line of a provider's block loads, after the blocks before it.
pub open spec fn block_loads(
    v: IndexView,
    blocks: Seq<Seq<PanelLine>>,
    k: int,
    registry: Seq<ActionSpec>,
) -> bool {
    let tag = providers::shipped_providers()[k].tag@;
    bind::lines_rejected(
        bind::blocks_applied(v, blocks, k, registry),
        blocks[k],
        blocks[k].len() as int,
        registry,
        OwnerView::Host(tag),
        tag,
    ).len() == 0
}

proof fn sources_are_told(
    v: IndexView,
    lines: Seq<PanelLine>,
    n: int,
    registry: Seq<ActionSpec>,
    owner: OwnerView,
    source: Seq<char>,
    k: int,
)
    requires
        0 <= k < bind::lines_rejected(v, lines, n, registry, owner, source).len(),
    ensures
        bind::lines_rejected(v, lines, n, registry, owner, source)[k].source == source,
    decreases n,
{
    if n > 0 {
        let before = bind::lines_rejected(v, lines, n - 1, registry, owner, source);
        if k < before.len() {
            sources_are_told(v, lines, n - 1, registry, owner, source, k);
        }
    }
}

} // verus!
