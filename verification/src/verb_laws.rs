//! What each verb does, what it asks the editor for, and how verbs are named.

use vstd::prelude::*;
use crate::action;
use crate::action::{ActionId, ActionRegistry, ActionSpec};
use crate::caps::Caps;
use crate::outcome::Outcome;
use crate::ports::{
    ActionCtx, CompletionOps, DockKind, Effect, HierarchyAction, HostCall, NavDirection, PanelCall,
    PanelOps, PopupCall, Step, WindowNavAction, WindowNavDirection, WindowNavResult,
};
use crate::providers;
use crate::specs;
use crate::specs::Verb;
use crate::surface::KeyHook;

verus! {

// ── What is left to the editor ────────────────────────────────────────

/// Each call that only the editor can make is asked for by one verb and by no
/// other, with what the verb needs there and of the kind of the focused
/// control: deleting by `fs.delete` alone, copying a path by `fs.yank_path`
/// alone, and so on.
pub proof fn each_call_belongs_to_one_verb<P: PanelOps, C: CompletionOps>(
    verb: Verb,
    before: ActionCtx<P, C>,
    after: ActionCtx<P, C>,
    step: Step,
    kind: DockKind,
    n: u32,
)
    requires
        specs::ran(verb, before, after, step),
    ensures
        step == Step::Host(HostCall::DeleteSelected) <==> verb == Verb::FsDelete,
        step == Step::Host(HostCall::RenameSelected) <==> verb == Verb::FsRename,
        step == Step::Host(HostCall::ScanFilesystem) <==> verb == Verb::FsRefresh,
        step == Step::Host(HostCall::EscapeFromDock) <==> verb == Verb::FocusEditor,
        step == Step::Host(HostCall::External(n)) <==> verb == Verb::External(n),
        step == Step::Host(HostCall::YankSelectedPath(kind)) <==> verb == Verb::FsYankPath
            && before.panel is Some && before.kind == Some(kind),
        step == Step::Host(HostCall::Enter(kind)) <==> verb == Verb::Activate && before.panel is Some
            && before.kind == Some(kind),
        step == Step::Host(HostCall::BeginCreate(kind)) <==> verb == Verb::FsCreate
            && before.panel is Some && before.kind == Some(kind) && before.explorer,
        step == Step::Host(HostCall::Slash) <==> verb == Verb::DockSearch && before.panel is Some,
        step == Step::Host(HostCall::LeaveSearch) <==> verb == Verb::SearchAccept
            && before.panel is Some,
        step == Step::Host(HostCall::CopyRow) <==> verb == Verb::YankFrame && before.panel is Some
            && (before.row matches Some(text) && text@.len() > 0),
        step != Step::Host(HostCall::PromptTick),
{
}

/// A verb that is left to the editor changes nothing itself, and where what it
/// needs is not there it declines.
pub proof fn what_is_left_to_the_editor_changes_nothing<P: PanelOps, C: CompletionOps>(
    verb: Verb,
    before: ActionCtx<P, C>,
    after: ActionCtx<P, C>,
    step: Step,
)
    requires
        specs::ran(verb, before, after, step),
    ensures
        step is Host ==> after == before,
        (verb is Activate || verb is FocusEditor || verb is DockSearch || verb is SearchAccept
            || verb is FsCreate || verb is FsDelete || verb is FsRename || verb is FsYankPath
            || verb is FsRefresh || verb is YankFrame || verb is External) ==> {
            &&& after == before
            &&& step matches Step::Done(r) ==> r == Outcome::Declined
        },
{
}

/// The prompt is ticked on every key of a surface with that hook where the
/// explorer is lent, and nothing is asked for without it.
pub proof fn the_hook_ticks_the_prompt(hook: KeyHook, explorer: bool)
    ensures
        hook.asks(explorer) == if explorer {
            Some(HostCall::PromptTick)
        } else {
            None::<HostCall>
        },
{
}

/// An effect is either recorded or handed back, never both: recorded at the end
/// of the record where a recorder listens, and otherwise handed back as it is;
/// it is dropped only where it needs a target and there is none. Nothing else
/// of the context changes.
pub proof fn an_effect_is_recorded_or_handed_back<P: PanelOps, C: CompletionOps>(
    before: ActionCtx<P, C>,
    after: ActionCtx<P, C>,
    effect: Effect,
    needs_target: bool,
    r: Option<Effect>,
)
    requires
        before.passes_on(after, effect, needs_target, r),
    ensures
        after.panel == before.panel && after.kind == before.kind && after.row == before.row,
        after.params == before.params && after.explorer == before.explorer,
        after.completion == before.completion,
        (after.recorder is Some) == (before.recorder is Some),
        before.recorder matches Some(sink) ==> {
            &&& r is None
            &&& after.recorder->0@.len() == sink@.len() + 1
            &&& after.recorder->0@.last() == effect
            &&& after.recorder->0@.drop_last() == sink@
        },
        before.recorder is None ==> (r is None <==> needs_target && before.panel is None),
        r matches Some(handed) ==> handed == effect,
{
    if let Some(sink) = before.recorder {
        assert(sink@.push(effect).drop_last() =~= sink@);
    }
}

// ── Moving ────────────────────────────────────────────────────────────

/// Whether nothing but the focused control differs between two contexts.
pub open spec fn only_the_control_differs<P: PanelOps, C: CompletionOps>(
    before: ActionCtx<P, C>,
    after: ActionCtx<P, C>,
) -> bool {
    &&& after.kind == before.kind
    &&& after.row == before.row
    &&& after.params == before.params
    &&& after.recorder == before.recorder
    &&& after.explorer == before.explorer
    &&& after.completion == before.completion
    &&& (after.panel is Some) == (before.panel is Some)
}

/// Whether some calls are a walk: steps in one direction alone, at least one
/// and at most `limit`; each but the last succeeded, and it ended before the
/// limit only where a step was refused.
pub open spec fn is_walk_of(calls: Seq<PanelCall>, direction: NavDirection, limit: int) -> bool {
    &&& 1 <= calls.len() <= limit
    &&& forall|i: int|
        0 <= i < calls.len() ==> (#[trigger] calls[i] == PanelCall::Nav(direction, true) || (i
            == calls.len() - 1 && calls[i] == PanelCall::Nav(direction, false)))
    &&& calls.len() < limit ==> calls.last() == PanelCall::Nav(direction, false)
}

proof fn walks_are_walks<P: PanelOps, C: CompletionOps>(
    before: ActionCtx<P, C>,
    after: ActionCtx<P, C>,
    direction: NavDirection,
    limit: int,
    r: Outcome,
)
    requires
        specs::walked(before, after, direction, limit, r),
        limit >= 1,
    ensures
        only_the_control_differs(before, after),
        before.panel is None ==> r == Outcome::Declined,
        before.panel matches Some(ops) ==> exists|calls: Seq<PanelCall>|
            {
                &&& #[trigger] is_walk_of(calls, direction, limit)
                &&& after.panel->0.calls() == ops.calls() + calls
                &&& r == if calls[0] == PanelCall::Nav(direction, true) {
                    Outcome::Handled
                } else {
                    Outcome::Declined
                }
            },
{
    if let Some(ops) = before.panel {
        let answers = choose|answers: Seq<bool>|
            {
                &&& #[trigger] specs::is_walk(answers, limit)
                &&& after.panel->0.calls() == ops.calls() + specs::steps(direction, answers)
                &&& r == specs::walk_outcome(answers)
            };
        let calls = specs::steps(direction, answers);
        assert(calls.len() == answers.len());
        assert forall|i: int| 0 <= i < calls.len() implies (#[trigger] calls[i] == PanelCall::Nav(
            direction,
            true,
        ) || (i == calls.len() - 1 && calls[i] == PanelCall::Nav(direction, false))) by {
            assert(calls[i] == PanelCall::Nav(direction, answers[i]));
            if i < calls.len() - 1 {
                assert(answers[i]);
            }
        }
        assert(calls[0] == PanelCall::Nav(direction, answers[0]));
        if calls.len() < limit {
            assert(calls.last() == PanelCall::Nav(direction, answers.last()));
        }
        assert(is_walk_of(calls, direction, limit));
    }
}

/// Whether a verb moves along a list, which way, and how far at most.
pub open spec fn walks(verb: Verb, count: int) -> Option<(NavDirection, int)> {
    match verb {
        Verb::Nav(direction) => Some((direction, count)),
        Verb::FrameStep(direction) => Some((direction, count)),
        Verb::FrameLast => Some((NavDirection::Next, 200)),
        _ => None,
    }
}

/// A verb that moves along a list steps its own way, as often as it was asked
/// to or up to the end of a debugger tree, and stops at the first refusal; it
/// is handled where its first step succeeded. Without a control it declines.
pub proof fn a_moving_verb_steps_its_own_way<P: PanelOps, C: CompletionOps>(
    verb: Verb,
    before: ActionCtx<P, C>,
    after: ActionCtx<P, C>,
    step: Step,
)
    requires
        specs::ran(verb, before, after, step),
    ensures
        walks(verb, action::count_of(before.params@) as int) matches Some((direction, limit)) ==> {
            &&& step is Done
            &&& only_the_control_differs(before, after)
            &&& before.panel is None ==> step == Step::Done(Outcome::Declined)
            &&& before.panel matches Some(ops) ==> exists|calls: Seq<PanelCall>|
                {
                    &&& #[trigger] is_walk_of(calls, direction, limit)
                    &&& after.panel->0.calls() == ops.calls() + calls
                    &&& step == Step::Done(
                        if calls[0] == PanelCall::Nav(direction, true) {
                            Outcome::Handled
                        } else {
                            Outcome::Declined
                        },
                    )
                }
        },
{
    let count = action::count_of(before.params@) as int;
    if let Some((direction, limit)) = walks(verb, count) {
        if let Step::Done(r) = step {
            walks_are_walks(before, after, direction, limit, r);
        }
    }
}

/// A verb that acts on a hierarchy or on the focus makes one call, its own, and
/// answers by what came of it; without a control it declines.
pub proof fn a_single_step_is_its_own<P: PanelOps, C: CompletionOps>(
    verb: Verb,
    before: ActionCtx<P, C>,
    after: ActionCtx<P, C>,
    step: Step,
)
    requires
        specs::ran(verb, before, after, step),
    ensures
        (verb is Hierarchy || verb is FocusDir || verb is FocusCycle) ==> {
            &&& step is Done
            &&& only_the_control_differs(before, after)
            &&& before.panel is None ==> step == Step::Done(Outcome::Declined)
            &&& before.panel matches Some(ops) ==> {
                let made = after.panel->0.calls();
                &&& made.len() == ops.calls().len() + 1
                &&& made.drop_last() == ops.calls()
                &&& match verb {
                    Verb::Hierarchy(h) => {
                        ||| made.last() == PanelCall::Hierarchy(h, true) && step == Step::Done(
                            Outcome::Handled,
                        )
                        ||| made.last() == PanelCall::Hierarchy(h, false) && step == Step::Done(
                            Outcome::Declined,
                        )
                    },
                    Verb::FocusDir(d) => {
                        ||| made.last() == PanelCall::MoveFocus(d, WindowNavResult::Focused) && step
                            == Step::Done(Outcome::FocusChanged)
                        ||| made.last() == PanelCall::MoveFocus(d, WindowNavResult::Ignored) && step
                            == Step::Done(Outcome::Declined)
                    },
                    Verb::FocusCycle(c) => made.last() == PanelCall::CycleFocus(c) && step
                        == Step::Done(Outcome::FocusChanged),
                    _ => true,
                }
            }
        },
{
    if let Some(ops) = before.panel {
        if verb is Hierarchy || verb is FocusDir || verb is FocusCycle {
            let made = after.panel->0.calls();
            assert(made.drop_last() =~= ops.calls());
        }
    }
}

// ── The popup ─────────────────────────────────────────────────────────

/// Whether nothing but the popup differs between two contexts.
pub open spec fn only_the_popup_differs<P: PanelOps, C: CompletionOps>(
    before: ActionCtx<P, C>,
    after: ActionCtx<P, C>,
) -> bool {
    &&& after.panel == before.panel
    &&& after.kind == before.kind
    &&& after.row == before.row
    &&& after.params == before.params
    &&& after.recorder == before.recorder
    &&& after.explorer == before.explorer
    &&& (after.completion is Some) == (before.completion is Some)
}

/// Whether a place is where a ring of candidates comes to after some steps.
pub open spec fn is_place_on_ring(place: i32, target: int, options: i32) -> bool {
    0 <= place < options && exists|turns: int| target == #[trigger] (turns * options) + place
}

/// A place on a ring is one of its candidates; without candidates there is
/// none. A place within the ring is itself, one past the last is the first, and
/// one before the first is the last.
pub proof fn a_ring_has_no_end(target: int, options: i32)
    ensures
        match providers::completion::wrapped(target, options) {
            Some(place) => options > 0 && is_place_on_ring(place, target, options),
            None => options <= 0,
        },
        0 <= target < options ==> providers::completion::wrapped(target, options) == Some(
            target as i32,
        ),
        options > 0 && target == options ==> providers::completion::wrapped(target, options)
            == Some(0i32),
        options > 0 && target == -1 ==> providers::completion::wrapped(target, options) == Some(
            (options - 1) as i32,
        ),
{
    if options > 0 {
        let n = options as int;
        vstd::arithmetic::div_mod::lemma_fundamental_div_mod(target, n);
        vstd::arithmetic::div_mod::lemma_mod_bound(target, n);
        let turns = target / n;
        assert(n * turns == turns * n) by (nonlinear_arith);
        assert(target == turns * options + (target % n));
        if 0 <= target < n {
            vstd::arithmetic::div_mod::lemma_small_mod(target as nat, n as nat);
        }
        if target == n {
            vstd::arithmetic::div_mod::lemma_mod_self_0(n);
        }
        if target == -1 {
            vstd::arithmetic::div_mod::lemma_fundamental_div_mod_converse(target, n, -1, n - 1);
        }
    }
}

/// Each popup verb gives the popup its own command and answers as it should:
/// opening asks for the popup where completion is on; the next and the previous
/// candidate go round the ring; accepting, closing and letting the control move
/// act only on a popup that is up, and closing lets the key through. Without a
/// popup to talk to every one of them declines.
pub proof fn each_popup_verb_gives_its_own_command<P: PanelOps, C: CompletionOps>(
    verb: Verb,
    before: ActionCtx<P, C>,
    after: ActionCtx<P, C>,
    step: Step,
)
    requires
        specs::ran(verb, before, after, step),
        verb is CompletionTrigger || verb is CompletionNext || verb is CompletionPrev
            || verb is CompletionConfirm || verb is CompletionDismiss || verb is CompletionNavigate,
    ensures
        step is Done,
        only_the_popup_differs(before, after),
        before.completion is None ==> step == Step::Done(Outcome::Declined),
        before.completion matches Some(ops) ==> {
            let state = ops.popup();
            let now = after.completion->0;
            let made = now.calls();
            let handled = step == Step::Done(Outcome::Handled);
            let declined = step == Step::Done(Outcome::Declined);
            match verb {
                Verb::CompletionTrigger => if state.enabled {
                    handled && made == ops.calls().push(PopupCall::Request(true))
                } else {
                    declined && now == ops
                },
                Verb::CompletionNext => if state.visible && state.options > 0 {
                    handled && exists|place: i32|
                        {
                            &&& #[trigger] is_place_on_ring(
                                place,
                                state.selected + 1,
                                state.options,
                            )
                            &&& made == ops.calls().push(PopupCall::Select(place))
                        }
                } else if !state.visible && state.enabled {
                    handled && made == ops.calls().push(PopupCall::Request(true))
                } else {
                    declined && now == ops
                },
                Verb::CompletionPrev => if state.visible && state.options > 0 {
                    handled && exists|place: i32|
                        {
                            &&& #[trigger] is_place_on_ring(
                                place,
                                state.selected - 1,
                                state.options,
                            )
                            &&& made == ops.calls().push(PopupCall::Select(place))
                        }
                } else if !state.visible && state.enabled {
                    handled && exists|opened: C|
                        {
                            &&& (#[trigger] opened.calls()) == ops.calls().push(
                                PopupCall::Request(true),
                            )
                            &&& if opened.popup().visible && opened.popup().options > 0 {
                                made == opened.calls().push(
                                    PopupCall::Select((opened.popup().options - 1) as i32),
                                )
                            } else {
                                made == opened.calls()
                            }
                        }
                } else {
                    declined && now == ops
                },
                Verb::CompletionConfirm => if state.visible {
                    handled && made == ops.calls().push(PopupCall::Confirm)
                } else {
                    declined && now == ops
                },
                Verb::CompletionDismiss => declined && if state.visible {
                    made == ops.calls().push(PopupCall::Cancel)
                } else {
                    now == ops
                },
                Verb::CompletionNavigate => if state.visible {
                    handled && made == ops.calls().push(PopupCall::HandToEditor)
                } else {
                    declined && now == ops
                },
                _ => true,
            }
        },
{
    if let Some(ops) = before.completion {
        let state = ops.popup();
        a_ring_has_no_end(state.selected + 1, state.options);
        a_ring_has_no_end(state.selected - 1, state.options);
        if verb is CompletionPrev && !state.visible && state.enabled {
            let made = after.completion->0.calls();
            let opened = choose|opened: C|
                {
                    &&& (#[trigger] opened.calls()) == ops.calls().push(PopupCall::Request(true))
                    &&& made == opened.calls() + providers::completion::last_of(opened.popup())
                };
            if opened.popup().visible && opened.popup().options > 0 {
                assert(made =~= opened.calls().push(
                    PopupCall::Select((opened.popup().options - 1) as i32),
                ));
            } else {
                assert(made =~= opened.calls());
            }
        }
    }
}

// ── Parameters ────────────────────────────────────────────────────────

/// A parameter is worth its first entry's value, or the default without one.
pub proof fn a_parameter_is_its_first_entry(
    params: Seq<(Seq<char>, i64)>,
    key: Seq<char>,
    default: i64,
    i: int,
)
    requires
        0 <= i <= params.len(),
        forall|j: int| 0 <= j < i ==> (#[trigger] params[j]).0 != key,
        i < params.len() ==> params[i].0 == key,
    ensures
        action::param_or(params, key, default) == if i < params.len() {
            params[i].1
        } else {
            default
        },
{
    action::param_place_is_first(params, key, i);
}

/// The repeat count is the parameter of that name where it lies between one and
/// a hundred, and the nearer bound where it does not; without it, one.
pub proof fn the_count_is_clamped(params: Seq<(Seq<char>, i64)>, i: int)
    requires
        0 <= i <= params.len(),
        forall|j: int| 0 <= j < i ==> (#[trigger] params[j]).0 != "count"@,
        i < params.len() ==> params[i].0 == "count"@,
    ensures
        ({
            let count = action::count_of(params);
            &&& 1 <= count <= 100
            &&& i == params.len() ==> count == 1
            &&& i < params.len() && 1 <= params[i].1 <= 100 ==> count == params[i].1
            &&& i < params.len() && params[i].1 < 1 ==> count == 1
            &&& i < params.len() && params[i].1 > 100 ==> count == 100
        }),
{
    a_parameter_is_its_first_entry(params, "count"@, 1, i);
}

/// Setting a parameter replaces its value where it stands or adds it at the
/// end, and leaves every other entry as it is.
pub proof fn setting_a_parameter_touches_no_other(
    params: Seq<(Seq<char>, i64)>,
    key: Seq<char>,
    value: i64,
    i: int,
    k: int,
)
    requires
        0 <= i <= params.len(),
        forall|j: int| 0 <= j < i ==> (#[trigger] params[j]).0 != key,
        i < params.len() ==> params[i].0 == key,
        0 <= k < params.len(),
    ensures
        ({
            let after = action::with_param(params, key, value);
            &&& after.len() == if i < params.len() {
                params.len()
            } else {
                params.len() + 1
            }
            &&& after[i] == (key, value)
            &&& k != i ==> after[k] == params[k]
        }),
{
    action::param_place_is_first(params, key, i);
}

// ── Names ─────────────────────────────────────────────────────────────

/// A name is a well-formed id exactly where it has a dot and holds nothing but
/// letters, digits, dots and underscores.
pub proof fn an_id_is_dotted_and_plain(name: Seq<char>)
    ensures
        action::is_action_id(name) <==> {
            &&& exists|i: int| 0 <= i < name.len() && #[trigger] name[i] == '.'
            &&& forall|i: int|
                0 <= i < name.len() ==> ({
                    let c = #[trigger] name[i];
                    ('a' <= c && c <= 'z') || ('A' <= c && c <= 'Z') || ('0' <= c && c <= '9') || c
                        == '.' || c == '_'
                })
        },
{
    if action::is_action_id(name) {
        let i = choose|i: int| 0 <= i < name.len() && name[i] == '.';
        assert(name[i] == '.');
        assert forall|i: int| 0 <= i < name.len() implies ({
            let c = #[trigger] name[i];
            ('a' <= c && c <= 'z') || ('A' <= c && c <= 'Z') || ('0' <= c && c <= '9') || c == '.'
                || c == '_'
        }) by {
            assert(action::is_id_char(name[i]));
        }
    }
}

/// A verb is found by its name at the place where it was registered, and a name
/// that no verb has is not found.
pub proof fn a_verb_is_found_by_its_name(all: Seq<ActionSpec>, name: Seq<char>, i: int)
    requires
        action::spec_names(all).no_duplicates(),
    ensures
        0 <= i < all.len() && all[i].id@ == name ==> action::spec_place(all, name) == Some(i),
        (forall|j: int| 0 <= j < all.len() ==> (#[trigger] all[j]).id@ != name)
            ==> action::spec_place(all, name) is None,
{
    let names = action::spec_names(all);
    if 0 <= i < all.len() && all[i].id@ == name {
        assert(names[i] == name);
        assert(names.contains(name));
        assert(names[names.index_of(name)] == name);
    }
    if names.contains(name) {
        let j = choose|j: int| 0 <= j < names.len() && names[j] == name;
        assert(all[j].id@ == name);
    }
}

/// Registering a verb under a new name adds it at the end; under a name that is
/// taken it changes nothing: the first of a name stays.
pub proof fn the_first_of_a_name_stays(all: Seq<ActionSpec>, spec: ActionSpec)
    ensures
        ({
            let after = action::with_spec(all, spec);
            if exists|j: int| 0 <= j < all.len() && (#[trigger] all[j]).id@ == spec.id@ {
                after == all
            } else {
                after == all.push(spec)
            }
        }),
{
    let names = action::spec_names(all);
    if exists|j: int| 0 <= j < all.len() && (#[trigger] all[j]).id@ == spec.id@ {
        let j = choose|j: int| 0 <= j < all.len() && (#[trigger] all[j]).id@ == spec.id@;
        assert(names[j] == spec.id@);
        assert(names.contains(spec.id@));
    } else if names.contains(spec.id@) {
        let j = choose|j: int| 0 <= j < names.len() && names[j] == spec.id@;
        assert(all[j].id@ == spec.id@);
    }
}

/// The name that a shipped verb goes by.
pub open spec fn name_of(verb: Verb) -> Seq<char> {
    match verb {
        Verb::Nav(NavDirection::Next) => "godotvim.item.next"@,
        Verb::Nav(NavDirection::Prev) => "godotvim.item.prev"@,
        Verb::Hierarchy(HierarchyAction::Collapse) => "godotvim.item.collapse"@,
        Verb::Hierarchy(HierarchyAction::Expand) => "godotvim.item.expand"@,
        Verb::Activate => "godotvim.item.activate"@,
        Verb::FocusDir(WindowNavDirection::Left) => "godotvim.focus.left"@,
        Verb::FocusDir(WindowNavDirection::Right) => "godotvim.focus.right"@,
        Verb::FocusDir(WindowNavDirection::Up) => "godotvim.focus.up"@,
        Verb::FocusDir(WindowNavDirection::Down) => "godotvim.focus.down"@,
        Verb::FocusCycle(WindowNavAction::CycleNext) => "godotvim.focus.cycle_next"@,
        Verb::FocusCycle(WindowNavAction::CyclePrev) => "godotvim.focus.cycle_prev"@,
        Verb::FocusEditor => "godotvim.focus.editor"@,
        Verb::DockSearch => "godotvim.dock.search"@,
        Verb::SearchAccept => "godotvim.search.accept"@,
        Verb::FsCreate => "godotvim.fs.create"@,
        Verb::FsDelete => "godotvim.fs.delete"@,
        Verb::FsRename => "godotvim.fs.rename"@,
        Verb::FsYankPath => "godotvim.fs.yank_path"@,
        Verb::FsRefresh => "godotvim.fs.refresh"@,
        Verb::CompletionTrigger => "godotvim.completion.trigger"@,
        Verb::CompletionNext => "godotvim.completion.next"@,
        Verb::CompletionPrev => "godotvim.completion.prev"@,
        Verb::CompletionConfirm => "godotvim.completion.confirm"@,
        Verb::CompletionDismiss => "godotvim.completion.dismiss"@,
        Verb::CompletionNavigate => "godotvim.completion.navigate"@,
        Verb::FrameStep(NavDirection::Next) => "godotvim.debugger.frame_next"@,
        Verb::FrameStep(NavDirection::Prev) => "godotvim.debugger.frame_prev"@,
        Verb::FrameLast => "godotvim.debugger.frame_last"@,
        Verb::YankFrame => "godotvim.debugger.yank_frame"@,
        Verb::External(_) => Seq::empty(),
    }
}

/// Whether a verb works on files.
pub open spec fn is_file_verb(verb: Verb) -> bool {
    verb is FsCreate || verb is FsDelete || verb is FsRename || verb is FsYankPath
        || verb is FsRefresh
}

/// Every shipped verb goes by its own name and requires what it acts on: a list
/// to move along, a hierarchy, something to activate, a text field to leave, or
/// files; and it is invoked by name where it finds its own target: to move the
/// focus and to work on files.
pub proof fn every_verb_has_its_name_and_its_needs(i: int)
    requires
        0 <= i < specs::all_verbs().len(),
    ensures
        ({
            let spec = specs::all_verbs()[i];
            let verb = spec.run;
            &&& !(verb is External)
            &&& spec.id@ == name_of(verb)
            &&& spec.requires.vnav <==> verb is Nav || verb is FrameStep || verb is FrameLast
                || verb is YankFrame
            &&& spec.requires.hierarchy <==> verb is Hierarchy
            &&& spec.requires.activate <==> verb is Activate
            &&& spec.requires.textentry <==> verb is SearchAccept
            &&& spec.requires.fileops <==> is_file_verb(verb)
            &&& spec.host_invocable <==> verb is FocusDir || verb is FocusCycle
                || verb is FocusEditor || is_file_verb(verb)
        }),
{
    let all = specs::all_verbs();
    assert(all.len() == 29);
    assert(providers::contributed().len() == 10);
}

/// Every verb but those of third parties is shipped.
pub proof fn every_verb_is_shipped(verb: Verb)
    requires
        !(verb is External),
    ensures
        exists|i: int|
            0 <= i < specs::all_verbs().len() && (#[trigger] specs::all_verbs()[i]).run == verb,
{
    let all = specs::all_verbs();
    assert(all.len() == 29);
    let i: int = match verb {
        Verb::Nav(NavDirection::Next) => 0,
        Verb::Nav(NavDirection::Prev) => 1,
        Verb::Hierarchy(HierarchyAction::Collapse) => 2,
        Verb::Hierarchy(HierarchyAction::Expand) => 3,
        Verb::Activate => 4,
        Verb::FocusDir(WindowNavDirection::Left) => 5,
        Verb::FocusDir(WindowNavDirection::Right) => 6,
        Verb::FocusDir(WindowNavDirection::Up) => 7,
        Verb::FocusDir(WindowNavDirection::Down) => 8,
        Verb::FocusCycle(WindowNavAction::CycleNext) => 9,
        Verb::FocusCycle(WindowNavAction::CyclePrev) => 10,
        Verb::FocusEditor => 11,
        Verb::DockSearch => 12,
        Verb::SearchAccept => 13,
        Verb::FsCreate => 14,
        Verb::FsDelete => 15,
        Verb::FsRename => 16,
        Verb::FsYankPath => 17,
        Verb::FsRefresh => 18,
        Verb::CompletionTrigger => 19,
        Verb::CompletionNext => 20,
        Verb::CompletionPrev => 21,
        Verb::CompletionConfirm => 22,
        Verb::CompletionDismiss => 23,
        Verb::CompletionNavigate => 24,
        Verb::FrameStep(NavDirection::Next) => 25,
        Verb::FrameStep(NavDirection::Prev) => 26,
        Verb::FrameLast => 27,
        Verb::YankFrame => 28,
        Verb::External(_) => 0,
    };
    assert(all[i].run == verb);
}

/// A verb is behind the id of its place, and nothing is behind any other id; it
/// is allowed exactly where it is there and everything it requires is offered.
pub proof fn a_verb_is_allowed_by_what_it_requires(
    registry: ActionRegistry,
    id: ActionId,
    caps: Caps,
)
    ensures
        match registry.spec_get(id) {
            Some(spec) => {
                &&& id.0 < registry@.len()
                &&& spec == registry@[id.0 as int]
                &&& registry.allows(id, caps) <==> {
                    &&& spec.requires.vnav ==> caps.vnav
                    &&& spec.requires.hierarchy ==> caps.hierarchy
                    &&& spec.requires.activate ==> caps.activate
                    &&& spec.requires.textentry ==> caps.textentry
                    &&& spec.requires.fileops ==> caps.fileops
                }
            },
            None => id.0 >= registry@.len() && !registry.allows(id, caps),
        },
{
}

// ── Capabilities and outcomes ─────────────────────────────────────────

/// Requirements are met exactly where each that is made is offered.
pub proof fn every_requirement_is_met_or_none_is(caps: Caps, needs: Caps)
    ensures
        caps.covers(needs) <==> {
            &&& needs.vnav ==> caps.vnav
            &&& needs.hierarchy ==> caps.hierarchy
            &&& needs.activate ==> caps.activate
            &&& needs.textentry ==> caps.textentry
            &&& needs.fileops ==> caps.fileops
        },
{
}

/// Together two sets of capabilities offer what either of them does.
pub proof fn a_union_offers_what_either_does(a: Caps, b: Caps)
    ensures
        ({
            let r = a.spec_union(b);
            &&& r.vnav == (a.vnav || b.vnav)
            &&& r.hierarchy == (a.hierarchy || b.hierarchy)
            &&& r.activate == (a.activate || b.activate)
            &&& r.textentry == (a.textentry || b.textentry)
            &&& r.fileops == (a.fileops || b.fileops)
        }),
{
}

/// Only declining leaves the keystroke to others.
pub proof fn only_declining_does_not_consume(outcome: Outcome)
    ensures
        outcome.consumes() <==> !(outcome is Declined),
{
}

} // verus!
