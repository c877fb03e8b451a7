//! The shipped verbs and what each does.

use vstd::prelude::*;
use crate::action;
use crate::action::{ActionRegistry, ActionSpec, Params};
use crate::caps::Caps;
use crate::outcome::Outcome;
use crate::ports::{
    ActionCtx, CompletionOps, DockKind, HierarchyAction, HostCall, NavDirection, PanelCall,
    PanelOps, PopupCall, Step, WindowNavAction, WindowNavDirection, WindowNavResult,
};
use crate::providers;

verus! {

/// What a verb does.
#[derive(Debug, Clone, Copy, PartialEq, Eq, Structural)]
pub enum Verb {
    Nav(NavDirection),
    Hierarchy(HierarchyAction),
    Activate,
    FocusDir(WindowNavDirection),
    FocusCycle(WindowNavAction),
    FocusEditor,
    DockSearch,
    SearchAccept,
    FsCreate,
    FsDelete,
    FsRename,
    FsYankPath,
    FsRefresh,
    CompletionTrigger,
    CompletionNext,
    CompletionPrev,
    CompletionConfirm,
    CompletionDismiss,
    CompletionNavigate,
    /// Walk a debugger tree by the repeat count.
    FrameStep(NavDirection),
    /// Walk a debugger tree to its end.
    FrameLast,
    YankFrame,
    /// The body that a third party registered under a number.
    External(u32),
}

// ── Repeated steps ────────────────────────────────────────────────────

/// The calls of a walk with the given answers.
pub open spec fn steps(direction: NavDirection, answers: Seq<bool>) -> Seq<PanelCall> {
    answers.map_values(|a: bool| PanelCall::Nav(direction, a))
}

/// Whether a walk of at most `limit` steps can have these answers: every step
/// but the last succeeded, and it stopped early only at a refusal.
pub open spec fn is_walk(answers: Seq<bool>, limit: int) -> bool {
    &&& answers.len() <= limit
    &&& forall|i: int| 0 <= i < answers.len() - 1 ==> #[trigger] answers[i]
    &&& answers.len() < limit ==> answers.len() > 0 && !answers.last()
}

/// A walk is handled where its first step succeeded.
pub open spec fn walk_outcome(answers: Seq<bool>) -> Outcome {
    if answers.len() > 0 && answers[0] {
        Outcome::Handled
    } else {
        Outcome::Declined
    }
}

/// What a walk of the focused control does and answers.
pub open spec fn walked<P: PanelOps, C: CompletionOps>(
    before: ActionCtx<P, C>,
    after: ActionCtx<P, C>,
    direction: NavDirection,
    limit: int,
    r: Outcome,
) -> bool {
    &&& after.same_but_panel(before)
    &&& match before.panel {
        None => after.panel is None && r == Outcome::Declined,
        Some(ops) => after.panel is Some && exists|answers: Seq<bool>|
            {
                &&& #[trigger] is_walk(answers, limit)
                &&& after.panel->0.calls() == ops.calls() + steps(direction, answers)
                &&& r == walk_outcome(answers)
            },
    }
}

/// Step the focused control in a direction, at most `limit` times, stopping at
/// the first refusal.
///
/// Nothing to move to is a declination, not a failure: the key falls through
/// to the editor's own handling.
pub fn walk<P: PanelOps, C: CompletionOps>(
    cx: &mut ActionCtx<P, C>,
    direction: NavDirection,
    limit: u32,
) -> (r: Outcome)
    requires
        limit > 0,
    ensures
        walked(*old(cx), *final(cx), direction, limit as int, r),
{
    let ghost before = *cx;
    let mut ops: P = match cx.panel.take() {
        Some(ops) => ops,
        None => {
            return Outcome::Declined;
        },
    };
    let ghost start = ops.calls();
    let ghost mut answers: Seq<bool> = Seq::empty();
    let mut moved = false;
    let mut i: u32 = 0;
    let mut going = true;
    assert(start + steps(direction, answers) =~= start);
    while i < limit && going
        invariant
            i <= limit,
            limit > 0,
            answers.len() == i,
            ops.calls() == start + steps(direction, answers),
            forall|j: int| 0 <= j < answers.len() - 1 ==> #[trigger] answers[j],
            going ==> (answers.len() > 0 ==> answers.last()),
            !going ==> answers.len() > 0 && !answers.last(),
            moved == (answers.len() > 0 && answers[0]),
        decreases limit - i,
    {
        let ghost prior = answers;
        let answer = ops.nav_step(direction);
        proof {
            answers = answers.push(answer);
            assert(steps(direction, answers) =~= steps(direction, prior).push(
                PanelCall::Nav(direction, answer),
            ));
            assert(ops.calls() =~= start + steps(direction, answers));
            assert forall|j: int| 0 <= j < answers.len() - 1 implies #[trigger] answers[j] by {
                assert(answers[j] == prior[j]);
            }
        }
        if answer {
            moved = true;
        } else {
            going = false;
        }
        i = i + 1;
    }
    assert(is_walk(answers, limit as int));
    cx.panel = Some(ops);
    if moved {
        Outcome::Handled
    } else {
        Outcome::Declined
    }
}

/// Move along a list by the repeat count.
pub fn nav<P: PanelOps, C: CompletionOps>(
    cx: &mut ActionCtx<P, C>,
    direction: NavDirection,
) -> (r: Outcome)
    ensures
        walked(*old(cx), *final(cx), direction, action::count_of(old(cx).params@) as int, r),
{
    let count: u32 = cx.params.count();
    walk(cx, direction, count)
}

// ── Single calls on the focused control ───────────────────────────────

/// What one expansion or collapse does and answers.
pub open spec fn hierarchy_stepped<P: PanelOps, C: CompletionOps>(
    before: ActionCtx<P, C>,
    after: ActionCtx<P, C>,
    step: HierarchyAction,
    r: Outcome,
) -> bool {
    &&& after.same_but_panel(before)
    &&& match before.panel {
        None => after.panel is None && r == Outcome::Declined,
        Some(ops) => after.panel is Some && {
            ||| after.panel->0.calls() == ops.calls().push(PanelCall::Hierarchy(step, true)) && r
                == Outcome::Handled
            ||| after.panel->0.calls() == ops.calls().push(PanelCall::Hierarchy(step, false)) && r
                == Outcome::Declined
        },
    }
}

/// Expand or collapse the current item.
pub fn hierarchy<P: PanelOps, C: CompletionOps>(
    cx: &mut ActionCtx<P, C>,
    step: HierarchyAction,
) -> (r: Outcome)
    ensures
        hierarchy_stepped(*old(cx), *final(cx), step, r),
{
    let mut ops: P = match cx.panel.take() {
        Some(ops) => ops,
        None => {
            return Outcome::Declined;
        },
    };
    let done = ops.hierarchy_step(step);
    cx.panel = Some(ops);
    if done {
        Outcome::Handled
    } else {
        Outcome::Declined
    }
}

/// The outcome of a move across panels.
pub open spec fn nav_outcome(result: WindowNavResult) -> Outcome {
    match result {
        WindowNavResult::Focused => Outcome::FocusChanged,
        WindowNavResult::Ignored => Outcome::Declined,
    }
}

/// The outcome of a move across panels: a move that found nothing leaves the
/// chord to the editor.
pub fn outcome_of_nav(result: WindowNavResult) -> (r: Outcome)
    ensures
        r == nav_outcome(result),
{
    match result {
        WindowNavResult::Focused => Outcome::FocusChanged,
        WindowNavResult::Ignored => Outcome::Declined,
    }
}

/// What a directional move of focus does and answers.
pub open spec fn focus_moved<P: PanelOps, C: CompletionOps>(
    before: ActionCtx<P, C>,
    after: ActionCtx<P, C>,
    direction: WindowNavDirection,
    r: Outcome,
) -> bool {
    &&& after.same_but_panel(before)
    &&& match before.panel {
        None => after.panel is None && r == Outcome::Declined,
        Some(ops) => after.panel is Some && exists|result: WindowNavResult|
            {
                &&& after.panel->0.calls() == ops.calls().push(
                    PanelCall::MoveFocus(direction, result),
                )
                &&& r == #[trigger] nav_outcome(result)
            },
    }
}

/// Directional movement of focus across panels.
pub fn focus_dir<P: PanelOps, C: CompletionOps>(
    cx: &mut ActionCtx<P, C>,
    direction: WindowNavDirection,
) -> (r: Outcome)
    ensures
        focus_moved(*old(cx), *final(cx), direction, r),
{
    let mut ops: P = match cx.panel.take() {
        Some(ops) => ops,
        None => {
            return Outcome::Declined;
        },
    };
    let result = ops.move_focus(direction);
    cx.panel = Some(ops);
    outcome_of_nav(result)
}

/// What one step of the panel cycle does and answers.
pub open spec fn focus_cycled<P: PanelOps, C: CompletionOps>(
    before: ActionCtx<P, C>,
    after: ActionCtx<P, C>,
    step: WindowNavAction,
    r: Outcome,
) -> bool {
    &&& after.same_but_panel(before)
    &&& match before.panel {
        None => after.panel is None && r == Outcome::Declined,
        Some(ops) => {
            &&& after.panel is Some
            &&& after.panel->0.calls() == ops.calls().push(PanelCall::CycleFocus(step))
            &&& r == Outcome::FocusChanged
        },
    }
}

/// Cycle focus through the panels. There is no miss to observe, so this always
/// changes focus where there is a target.
pub fn focus_cycle<P: PanelOps, C: CompletionOps>(
    cx: &mut ActionCtx<P, C>,
    step: WindowNavAction,
) -> (r: Outcome)
    ensures
        focus_cycled(*old(cx), *final(cx), step, r),
{
    let mut ops: P = match cx.panel.take() {
        Some(ops) => ops,
        None => {
            return Outcome::Declined;
        },
    };
    ops.cycle_focus(step);
    cx.panel = Some(ops);
    Outcome::FocusChanged
}

/// The signal contract of the focused control, where there is a control that
/// follows one.
pub open spec fn target_kind<P: PanelOps, C: CompletionOps>(cx: ActionCtx<P, C>) -> Option<
    DockKind,
> {
    if cx.panel is Some {
        cx.kind
    } else {
        None
    }
}

/// The signal contract of the focused control.
pub fn dock_target<P: PanelOps, C: CompletionOps>(cx: &ActionCtx<P, C>) -> (r: Option<DockKind>)
    ensures
        r == target_kind(*cx),
{
    if cx.panel.is_some() {
        cx.kind
    } else {
        None
    }
}

// ── Running a verb ────────────────────────────────────────────────────

/// What running a verb does to its context and leaves to do.
pub open spec fn ran<P: PanelOps, C: CompletionOps>(
    verb: Verb,
    before: ActionCtx<P, C>,
    after: ActionCtx<P, C>,
    step: Step,
) -> bool {
    let count = action::count_of(before.params@) as int;
    match verb {
        Verb::Nav(direction) => step matches Step::Done(r) && walked(
            before,
            after,
            direction,
            count,
            r,
        ),
        Verb::Hierarchy(h) => step matches Step::Done(r) && hierarchy_stepped(before, after, h, r),
        Verb::FocusDir(d) => step matches Step::Done(r) && focus_moved(before, after, d, r),
        Verb::FocusCycle(c) => step matches Step::Done(r) && focus_cycled(before, after, c, r),
        Verb::FrameStep(direction) => step matches Step::Done(r) && walked(
            before,
            after,
            direction,
            count,
            r,
        ),
        Verb::FrameLast => step matches Step::Done(r) && walked(
            before,
            after,
            NavDirection::Next,
            providers::debugger::MAX_WALK as int,
            r,
        ),
        Verb::CompletionTrigger => step matches Step::Done(r) && providers::completion::with_popup(
            before,
            after,
            r,
            |a: C, b: C, o: Outcome| providers::completion::triggered(a, b, o),
        ),
        Verb::CompletionNext => step matches Step::Done(r) && providers::completion::with_popup(
            before,
            after,
            r,
            |a: C, b: C, o: Outcome| providers::completion::advanced(a, b, o),
        ),
        Verb::CompletionPrev => step matches Step::Done(r) && providers::completion::with_popup(
            before,
            after,
            r,
            |a: C, b: C, o: Outcome| providers::completion::retreated(a, b, o),
        ),
        Verb::CompletionConfirm => step matches Step::Done(r) && providers::completion::with_popup(
            before,
            after,
            r,
            |a: C, b: C, o: Outcome|
                providers::completion::commanded(a, b, PopupCall::Confirm, Outcome::Handled, o),
        ),
        Verb::CompletionDismiss => step matches Step::Done(r) && providers::completion::with_popup(
            before,
            after,
            r,
            |a: C, b: C, o: Outcome|
                providers::completion::commanded(a, b, PopupCall::Cancel, Outcome::Declined, o),
        ),
        Verb::CompletionNavigate => step matches Step::Done(r) && providers::completion::with_popup(
            before,
            after,
            r,
            |a: C, b: C, o: Outcome|
                providers::completion::commanded(
                    a,
                    b,
                    PopupCall::HandToEditor,
                    Outcome::Handled,
                    o,
                ),
        ),
        _ => after == before && step == handed_over(verb, before),
    }
}

/// The call that a verb leaves to the editor, or a declination where what it
/// needs is not there.
pub open spec fn handed_over<P: PanelOps, C: CompletionOps>(
    verb: Verb,
    cx: ActionCtx<P, C>,
) -> Step {
    let declined = Step::Done(Outcome::Declined);
    match verb {
        Verb::Activate => match target_kind(cx) {
            Some(kind) => Step::Host(HostCall::Enter(kind)),
            None => declined,
        },
        Verb::FocusEditor => Step::Host(HostCall::EscapeFromDock),
        Verb::DockSearch => if cx.panel is Some {
            Step::Host(HostCall::Slash)
        } else {
            declined
        },
        Verb::SearchAccept => if cx.panel is Some {
            Step::Host(HostCall::LeaveSearch)
        } else {
            declined
        },
        Verb::FsCreate => match target_kind(cx) {
            Some(kind) => if cx.explorer {
                Step::Host(HostCall::BeginCreate(kind))
            } else {
                declined
            },
            None => declined,
        },
        Verb::FsDelete => Step::Host(HostCall::DeleteSelected),
        Verb::FsRename => Step::Host(HostCall::RenameSelected),
        Verb::FsYankPath => match target_kind(cx) {
            Some(kind) => Step::Host(HostCall::YankSelectedPath(kind)),
            None => declined,
        },
        Verb::FsRefresh => Step::Host(HostCall::ScanFilesystem),
        Verb::YankFrame => providers::debugger::row_yanked(cx),
        Verb::External(n) => Step::Host(HostCall::External(n)),
        _ => declined,
    }
}

impl Verb {
    /// Run the verb against a context.
    ///
    /// Capabilities are not asked about: they gate bindings, and by the time a
    /// verb runs that decision is made.
    pub fn run<P: PanelOps, C: CompletionOps>(self, cx: &mut ActionCtx<P, C>) -> (r: Step)
        ensures
            ran(self, *old(cx), *final(cx), r),
    {
        match self {
            Verb::Nav(direction) => Step::Done(nav(cx, direction)),
            Verb::Hierarchy(step) => Step::Done(hierarchy(cx, step)),
            Verb::Activate => match dock_target(cx) {
                // The two kinds of list have different signal contracts, so
                // activation is the editor's to perform.
                Some(kind) => Step::Host(HostCall::Enter(kind)),
                None => Step::Done(Outcome::Declined),
            },
            Verb::FocusDir(direction) => Step::Done(focus_dir(cx, direction)),
            Verb::FocusCycle(step) => Step::Done(focus_cycle(cx, step)),
            Verb::FocusEditor => Step::Host(HostCall::EscapeFromDock),
            Verb::DockSearch => if cx.panel.is_some() {
                Step::Host(HostCall::Slash)
            } else {
                Step::Done(Outcome::Declined)
            },
            Verb::SearchAccept => if cx.panel.is_some() {
                Step::Host(HostCall::LeaveSearch)
            } else {
                Step::Done(Outcome::Declined)
            },
            Verb::FsCreate => match dock_target(cx) {
                Some(kind) => if cx.explorer {
                    Step::Host(HostCall::BeginCreate(kind))
                } else {
                    // Creating without the prompt would report success and
                    // show nothing.
                    Step::Done(Outcome::Declined)
                },
                None => Step::Done(Outcome::Declined),
            },
            Verb::FsDelete => Step::Host(HostCall::DeleteSelected),
            Verb::FsRename => Step::Host(HostCall::RenameSelected),
            Verb::FsYankPath => match dock_target(cx) {
                Some(kind) => Step::Host(HostCall::YankSelectedPath(kind)),
                None => Step::Done(Outcome::Declined),
            },
            Verb::FsRefresh => Step::Host(HostCall::ScanFilesystem),
            Verb::CompletionTrigger => Step::Done(providers::completion::trigger(cx)),
            Verb::CompletionNext => Step::Done(providers::completion::next(cx)),
            Verb::CompletionPrev => Step::Done(providers::completion::prev(cx)),
            Verb::CompletionConfirm => Step::Done(providers::completion::confirm(cx)),
            Verb::CompletionDismiss => Step::Done(providers::completion::dismiss(cx)),
            Verb::CompletionNavigate => Step::Done(providers::completion::navigate(cx)),
            Verb::FrameStep(direction) => Step::Done(nav(cx, direction)),
            Verb::FrameLast => Step::Done(
                walk(cx, NavDirection::Next, providers::debugger::MAX_WALK),
            ),
            Verb::YankFrame => providers::debugger::yank_frame(cx),
            Verb::External(n) => Step::Host(HostCall::External(n)),
        }
    }
}

// ── The shipped verbs ─────────────────────────────────────────────────

/// The core verbs, in registration order.
pub open spec fn shipped() -> Seq<ActionSpec> {
    seq![
        ActionSpec {
            id: "godotvim.item.next",
            desc: "Move to the next item",
            requires: Caps { vnav: true, ..Caps::spec_empty() },
            host_invocable: false,
            run: Verb::Nav(NavDirection::Next),
        },
        ActionSpec {
            id: "godotvim.item.prev",
            desc: "Move to the previous item",
            requires: Caps { vnav: true, ..Caps::spec_empty() },
            host_invocable: false,
            run: Verb::Nav(NavDirection::Prev),
        },
        ActionSpec {
            id: "godotvim.item.collapse",
            desc: "Collapse the current item",
            requires: Caps { hierarchy: true, ..Caps::spec_empty() },
            host_invocable: false,
            run: Verb::Hierarchy(HierarchyAction::Collapse),
        },
        ActionSpec {
            id: "godotvim.item.expand",
            desc: "Expand the current item",
            requires: Caps { hierarchy: true, ..Caps::spec_empty() },
            host_invocable: false,
            run: Verb::Hierarchy(HierarchyAction::Expand),
        },
        ActionSpec {
            id: "godotvim.item.activate",
            desc: "Open or activate the current item",
            requires: Caps { activate: true, ..Caps::spec_empty() },
            host_invocable: false,
            run: Verb::Activate,
        },
        ActionSpec {
            id: "godotvim.focus.left",
            desc: "Move focus to the panel on the left",
            requires: Caps::spec_empty(),
            host_invocable: true,
            run: Verb::FocusDir(WindowNavDirection::Left),
        },
        ActionSpec {
            id: "godotvim.focus.right",
            desc: "Move focus to the panel on the right",
            requires: Caps::spec_empty(),
            host_invocable: true,
            run: Verb::FocusDir(WindowNavDirection::Right),
        },
        ActionSpec {
            id: "godotvim.focus.up",
            desc: "Move focus to the panel above",
            requires: Caps::spec_empty(),
            host_invocable: true,
            run: Verb::FocusDir(WindowNavDirection::Up),
        },
        ActionSpec {
            id: "godotvim.focus.down",
            desc: "Move focus to the panel below",
            requires: Caps::spec_empty(),
            host_invocable: true,
            run: Verb::FocusDir(WindowNavDirection::Down),
        },
        ActionSpec {
            id: "godotvim.focus.cycle_next",
            desc: "Cycle focus to the next panel",
            requires: Caps::spec_empty(),
            host_invocable: true,
            run: Verb::FocusCycle(WindowNavAction::CycleNext),
        },
        ActionSpec {
            id: "godotvim.focus.cycle_prev",
            desc: "Cycle focus to the previous panel",
            requires: Caps::spec_empty(),
            host_invocable: true,
            run: Verb::FocusCycle(WindowNavAction::CyclePrev),
        },
        ActionSpec {
            id: "godotvim.focus.editor",
            desc: "Return focus to the script editor",
            requires: Caps::spec_empty(),
            host_invocable: true,
            run: Verb::FocusEditor,
        },
        ActionSpec {
            id: "godotvim.dock.search",
            desc: "Focus the dock's filter box",
            requires: Caps::spec_empty(),
            host_invocable: false,
            run: Verb::DockSearch,
        },
        ActionSpec {
            id: "godotvim.search.accept",
            desc: "Leave the filter box, keeping the filter",
            requires: Caps { textentry: true, ..Caps::spec_empty() },
            host_invocable: false,
            run: Verb::SearchAccept,
        },
        ActionSpec {
            id: "godotvim.fs.create",
            desc: "Create a file or folder",
            requires: Caps { fileops: true, ..Caps::spec_empty() },
            host_invocable: true,
            run: Verb::FsCreate,
        },
        ActionSpec {
            id: "godotvim.fs.delete",
            desc: "Delete the selected path",
            requires: Caps { fileops: true, ..Caps::spec_empty() },
            host_invocable: true,
            run: Verb::FsDelete,
        },
        ActionSpec {
            id: "godotvim.fs.rename",
            desc: "Rename the selected path",
            requires: Caps { fileops: true, ..Caps::spec_empty() },
            host_invocable: true,
            run: Verb::FsRename,
        },
        ActionSpec {
            id: "godotvim.fs.yank_path",
            desc: "Copy the selected path to the clipboard",
            requires: Caps { fileops: true, ..Caps::spec_empty() },
            host_invocable: true,
            run: Verb::FsYankPath,
        },
        ActionSpec {
            id: "godotvim.fs.refresh",
            desc: "Rescan the filesystem",
            requires: Caps { fileops: true, ..Caps::spec_empty() },
            host_invocable: true,
            run: Verb::FsRefresh,
        },
    ]
}

/// The core verbs, in registration order.
pub fn shipped_specs() -> (r: Vec<ActionSpec>)
    ensures
        r@ == shipped(),
{
    let r: Vec<ActionSpec> = vec![
        ActionSpec {
            id: "godotvim.item.next",
            desc: "Move to the next item",
            requires: Caps::vnav(),
            host_invocable: false,
            run: Verb::Nav(NavDirection::Next),
        },
        ActionSpec {
            id: "godotvim.item.prev",
            desc: "Move to the previous item",
            requires: Caps::vnav(),
            host_invocable: false,
            run: Verb::Nav(NavDirection::Prev),
        },
        ActionSpec {
            id: "godotvim.item.collapse",
            desc: "Collapse the current item",
            requires: Caps::hierarchy(),
            host_invocable: false,
            run: Verb::Hierarchy(HierarchyAction::Collapse),
        },
        ActionSpec {
            id: "godotvim.item.expand",
            desc: "Expand the current item",
            requires: Caps::hierarchy(),
            host_invocable: false,
            run: Verb::Hierarchy(HierarchyAction::Expand),
        },
        ActionSpec {
            id: "godotvim.item.activate",
            desc: "Open or activate the current item",
            requires: Caps::activate(),
            host_invocable: false,
            run: Verb::Activate,
        },
        ActionSpec {
            id: "godotvim.focus.left",
            desc: "Move focus to the panel on the left",
            requires: Caps::empty(),
            host_invocable: true,
            run: Verb::FocusDir(WindowNavDirection::Left),
        },
        ActionSpec {
            id: "godotvim.focus.right",
            desc: "Move focus to the panel on the right",
            requires: Caps::empty(),
            host_invocable: true,
            run: Verb::FocusDir(WindowNavDirection::Right),
        },
        ActionSpec {
            id: "godotvim.focus.up",
            desc: "Move focus to the panel above",
            requires: Caps::empty(),
            host_invocable: true,
            run: Verb::FocusDir(WindowNavDirection::Up),
        },
        ActionSpec {
            id: "godotvim.focus.down",
            desc: "Move focus to the panel below",
            requires: Caps::empty(),
            host_invocable: true,
            run: Verb::FocusDir(WindowNavDirection::Down),
        },
        ActionSpec {
            id: "godotvim.focus.cycle_next",
            desc: "Cycle focus to the next panel",
            requires: Caps::empty(),
            host_invocable: true,
            run: Verb::FocusCycle(WindowNavAction::CycleNext),
        },
        ActionSpec {
            id: "godotvim.focus.cycle_prev",
            desc: "Cycle focus to the previous panel",
            requires: Caps::empty(),
            host_invocable: true,
            run: Verb::FocusCycle(WindowNavAction::CyclePrev),
        },
        ActionSpec {
            id: "godotvim.focus.editor",
            desc: "Return focus to the script editor",
            requires: Caps::empty(),
            host_invocable: true,
            run: Verb::FocusEditor,
        },
        ActionSpec {
            id: "godotvim.dock.search",
            desc: "Focus the dock's filter box",
            requires: Caps::empty(),
            host_invocable: false,
            run: Verb::DockSearch,
        },
        ActionSpec {
            id: "godotvim.search.accept",
            desc: "Leave the filter box, keeping the filter",
            requires: Caps::textentry(),
            host_invocable: false,
            run: Verb::SearchAccept,
        },
        ActionSpec {
            id: "godotvim.fs.create",
            desc: "Create a file or folder",
            requires: Caps::fileops(),
            host_invocable: true,
            run: Verb::FsCreate,
        },
        ActionSpec {
            id: "godotvim.fs.delete",
            desc: "Delete the selected path",
            requires: Caps::fileops(),
            host_invocable: true,
            run: Verb::FsDelete,
        },
        ActionSpec {
            id: "godotvim.fs.rename",
            desc: "Rename the selected path",
            requires: Caps::fileops(),
            host_invocable: true,
            run: Verb::FsRename,
        },
        ActionSpec {
            id: "godotvim.fs.yank_path",
            desc: "Copy the selected path to the clipboard",
            requires: Caps::fileops(),
            host_invocable: true,
            run: Verb::FsYankPath,
        },
        ActionSpec {
            id: "godotvim.fs.refresh",
            desc: "Rescan the filesystem",
            requires: Caps::fileops(),
            host_invocable: true,
            run: Verb::FsRefresh,
        },
    ];
    assert(r@ =~= shipped());
    r
}

/// Every one of these verbs has a well-formed name.
pub proof fn shipped_ids_are_valid(i: int)
    requires
        0 <= i < shipped().len(),
    ensures
        action::is_action_id(shipped()[i].id@),
{
    reveal_strlit("godotvim.item.next");
    reveal_strlit("godotvim.item.prev");
    reveal_strlit("godotvim.item.collapse");
    reveal_strlit("godotvim.item.expand");
    reveal_strlit("godotvim.item.activate");
    reveal_strlit("godotvim.focus.left");
    reveal_strlit("godotvim.focus.right");
    reveal_strlit("godotvim.focus.up");
    reveal_strlit("godotvim.focus.down");
    reveal_strlit("godotvim.focus.cycle_next");
    reveal_strlit("godotvim.focus.cycle_prev");
    reveal_strlit("godotvim.focus.editor");
    reveal_strlit("godotvim.dock.search");
    reveal_strlit("godotvim.search.accept");
    reveal_strlit("godotvim.fs.create");
    reveal_strlit("godotvim.fs.delete");
    reveal_strlit("godotvim.fs.rename");
    reveal_strlit("godotvim.fs.yank_path");
    reveal_strlit("godotvim.fs.refresh");
    action::literal_id("godotvim.item.next");
    action::literal_id("godotvim.item.prev");
    action::literal_id("godotvim.item.collapse");
    action::literal_id("godotvim.item.expand");
    action::literal_id("godotvim.item.activate");
    action::literal_id("godotvim.focus.left");
    action::literal_id("godotvim.focus.right");
    action::literal_id("godotvim.focus.up");
    action::literal_id("godotvim.focus.down");
    action::literal_id("godotvim.focus.cycle_next");
    action::literal_id("godotvim.focus.cycle_prev");
    action::literal_id("godotvim.focus.editor");
    action::literal_id("godotvim.dock.search");
    action::literal_id("godotvim.search.accept");
    action::literal_id("godotvim.fs.create");
    action::literal_id("godotvim.fs.delete");
    action::literal_id("godotvim.fs.rename");
    action::literal_id("godotvim.fs.yank_path");
    action::literal_id("godotvim.fs.refresh");
    assert(shipped().len() == 19);
}

/// Some verbs registered one after the other: the first of a name stays.
pub open spec fn registered(base: Seq<ActionSpec>, specs: Seq<ActionSpec>) -> Seq<ActionSpec>
    decreases specs.len(),
{
    if specs.len() == 0 {
        base
    } else {
        action::with_spec(registered(base, specs.drop_last()), specs.last())
    }
}

/// Register several verbs in order.
fn register_all(r: &mut ActionRegistry, specs: &Vec<ActionSpec>)
    requires
        old(r).wf(),
        forall|i: int| 0 <= i < specs@.len() ==> action::is_action_id((#[trigger] specs@[i]).id@),
        old(r)@.len() + specs@.len() < u32::MAX,
    ensures
        final(r).wf(),
        final(r)@ == registered(old(r)@, specs@),
        final(r)@.len() <= old(r)@.len() + specs@.len(),
{
    let ghost base = r@;
    let mut i: usize = 0;
    assert(specs@.take(0) =~= Seq::empty());
    while i < specs.len()
        invariant
            i <= specs@.len(),
            r.wf(),
            r@ == registered(base, specs@.take(i as int)),
            r@.len() <= base.len() + i,
            base.len() + specs@.len() < u32::MAX,
            forall|j: int|
                0 <= j < specs@.len() ==> action::is_action_id((#[trigger] specs@[j]).id@),
        decreases specs@.len() - i,
    {
        let _ = r.register(specs[i]);
        assert(specs@.take(i + 1).drop_last() =~= specs@.take(i as int));
        assert(specs@.take(i + 1).last() == specs@[i as int]);
        i = i + 1;
    }
    assert(specs@.take(i as int) =~= specs@);
}

/// Every shipped verb: the core verbs, then every provider's own.
pub open spec fn all_verbs() -> Seq<ActionSpec> {
    shipped() + providers::contributed()
}

/// What tells one shipped name from another: its length and four of its
/// characters.
spec fn mark(name: Seq<char>) -> (nat, char, char, char, char) {
    (
        name.len(),
        name[12],
        name[15],
        if name.len() > 20 {
            name[20]
        } else {
            ' '
        },
        if name.len() > 24 {
            name[24]
        } else {
            ' '
        },
    )
}

/// No two shipped verbs share a name.
pub proof fn verb_names_are_distinct()
    ensures
        action::spec_names(all_verbs()).no_duplicates(),
{
    reveal_strlit("godotvim.item.next");
    reveal_strlit("godotvim.item.prev");
    reveal_strlit("godotvim.item.collapse");
    reveal_strlit("godotvim.item.expand");
    reveal_strlit("godotvim.item.activate");
    reveal_strlit("godotvim.focus.left");
    reveal_strlit("godotvim.focus.right");
    reveal_strlit("godotvim.focus.up");
    reveal_strlit("godotvim.focus.down");
    reveal_strlit("godotvim.focus.cycle_next");
    reveal_strlit("godotvim.focus.cycle_prev");
    reveal_strlit("godotvim.focus.editor");
    reveal_strlit("godotvim.dock.search");
    reveal_strlit("godotvim.search.accept");
    reveal_strlit("godotvim.fs.create");
    reveal_strlit("godotvim.fs.delete");
    reveal_strlit("godotvim.fs.rename");
    reveal_strlit("godotvim.fs.yank_path");
    reveal_strlit("godotvim.fs.refresh");
    reveal_strlit("godotvim.completion.trigger");
    reveal_strlit("godotvim.completion.next");
    reveal_strlit("godotvim.completion.prev");
    reveal_strlit("godotvim.completion.confirm");
    reveal_strlit("godotvim.completion.dismiss");
    reveal_strlit("godotvim.completion.navigate");
    reveal_strlit("godotvim.debugger.frame_next");
    reveal_strlit("godotvim.debugger.frame_prev");
    reveal_strlit("godotvim.debugger.frame_last");
    reveal_strlit("godotvim.debugger.yank_frame");
    let names = action::spec_names(all_verbs());
    assert(names.len() == 29);
    assert forall|i: int, j: int| 0 <= i < names.len() && 0 <= j < names.len() && i != j implies names[i] != names[j] by {
        assert(mark(names[i]) != mark(names[j]));
    }
}

/// Registering verbs whose names are all different adds each of them.
proof fn registered_is_all(base: Seq<ActionSpec>, specs: Seq<ActionSpec>)
    requires
        action::spec_names(base + specs).no_duplicates(),
    ensures
        registered(base, specs) == base + specs,
    decreases specs.len(),
{
    if specs.len() == 0 {
        assert(base + specs =~= base);
    } else {
        let init = specs.drop_last();
        let before = base + init;
        let names = action::spec_names(base + specs);
        assert(base + specs =~= before.push(specs.last()));
        assert forall|i: int, j: int| 0 <= i < before.len() && 0 <= j < before.len() && i
            != j implies action::spec_names(before)[i] != action::spec_names(before)[j] by {
            assert(action::spec_names(before)[i] == names[i]);
            assert(action::spec_names(before)[j] == names[j]);
        }
        registered_is_all(base, init);
        if action::spec_names(before).contains(specs.last().id@) {
            let k = choose|k: int|
                0 <= k < before.len() && action::spec_names(before)[k] == specs.last().id@;
            assert(names[k] == names[before.len() as int]);
        }
    }
}

/// The whole registry: the core verbs, then every provider's own verbs.
///
/// Ids are minted in registration order, so they are the same in every build
/// of the registry.
pub fn registry() -> (r: ActionRegistry)
    ensures
        r.wf(),
        r@ == all_verbs(),
{
    let mut r = ActionRegistry::new();
    assert(r@ =~= Seq::empty());
    let core = shipped_specs();
    let own = providers::actions();
    proof {
        assert forall|i: int| 0 <= i < core@.len() implies action::is_action_id(
            (#[trigger] core@[i]).id@,
        ) by {
            shipped_ids_are_valid(i);
        }
        assert forall|i: int| 0 <= i < own@.len() implies action::is_action_id(
            (#[trigger] own@[i]).id@,
        ) by {
            providers::contributed_ids_are_valid(i);
        }
    }
    register_all(&mut r, &core);
    register_all(&mut r, &own);
    proof {
        verb_names_are_distinct();
        let none = Seq::<ActionSpec>::empty();
        let names = action::spec_names(all_verbs());
        assert forall|i: int, j: int| 0 <= i < core@.len() && 0 <= j < core@.len() && i
            != j implies action::spec_names(none + core@)[i] != action::spec_names(none + core@)[j] by {
            assert(action::spec_names(none + core@)[i] == names[i]);
            assert(action::spec_names(none + core@)[j] == names[j]);
        }
        registered_is_all(none, core@);
        assert(none + core@ =~= core@);
        registered_is_all(core@, own@);
    }
    r
}

} // verus!
