//! `editor.completion`: the autocomplete popup.
//!
//! The surface is never classified: whether the popup is visible is a fact of
//! one keystroke, and a chain is sampled per focus change. The transport that
//! has the popup looks it up by name.

use vstd::prelude::*;
use crate::action;
use crate::action::ActionSpec;
use crate::caps::Caps;
use crate::outcome::Outcome;
use crate::specs::Verb;
use crate::ports::{ActionCtx, CompletionOps, PanelOps, PopupCall, PopupState};
use crate::surface::{Probe, Seal, SurfaceSpec};

verus! {

/// The provider's tag: every rule it installs is owned by it.
pub const TAG: &'static str = "godotvim.completion";

/// Default bindings, in exactly the text a user types.
pub const DEFAULTS: &'static str = "\
panelmap editor.completion <C-@> godotvim.completion.trigger
panelmap editor.completion <C-n> godotvim.completion.next
panelmap editor.completion <C-p> godotvim.completion.prev
panelmap editor.completion <Tab> godotvim.completion.confirm
panelmap editor.completion <CR> godotvim.completion.confirm
panelmap editor.completion <Esc> godotvim.completion.dismiss
panelmap editor.completion <Up> godotvim.completion.navigate
panelmap editor.completion <Down> godotvim.completion.navigate
";

/// What `editor.completion` declares.
pub open spec fn declared() -> SurfaceSpec {
    SurfaceSpec {
        id: "editor.completion",
        parent: None,
        seal: Seal::Open,
        grants: Caps::spec_empty(),
        probe: Probe::Never,
        on_key: None,
        yields_to_engine: false,
        refuses_positional: false,
    }
}

/// The `editor.completion` surface.
pub fn editor_completion() -> (r: SurfaceSpec)
    ensures
        r == declared(),
{
    SurfaceSpec {
        id: "editor.completion",
        parent: None,
        seal: Seal::Open,
        grants: Caps::empty(),
        probe: Probe::Never,
        on_key: None,
        yields_to_engine: false,
        refuses_positional: false,
    }
}

// ── The verbs ─────────────────────────────────────────────────────────

/// A place on a ring of `count` candidates, or `None` where there are none.
pub open spec fn wrapped(index: int, count: i32) -> Option<i32> {
    if count <= 0 {
        None
    } else {
        Some((index % (count as int)) as i32)
    }
}

/// Wrap `index` into `0..count`, or `None` when there is nothing to select.
pub fn wrap(index: i32, count: i32) -> (r: Option<i32>)
    ensures
        r == wrapped(index as int, count),
        r matches Some(i) ==> 0 <= i < count,
{
    wrap_wide(index as i64, count)
}

/// [`wrap`] for an index one step outside the range of an index.
fn wrap_wide(index: i64, count: i32) -> (r: Option<i32>)
    ensures
        r == wrapped(index as int, count),
        r matches Some(i) ==> 0 <= i < count,
{
    if count <= 0 {
        return None;
    }
    match index.checked_rem_euclid(count as i64) {
        Some(i) => Some(i as i32),
        None => None,
    }
}

/// What a popup verb does and answers, given what it does with a popup.
pub open spec fn with_popup<P: PanelOps, C: CompletionOps>(
    before: ActionCtx<P, C>,
    after: ActionCtx<P, C>,
    r: Outcome,
    done: spec_fn(C, C, Outcome) -> bool,
) -> bool {
    &&& after.same_but_completion(before)
    &&& match before.completion {
        None => after.completion is None && r == Outcome::Declined,
        Some(ops) => after.completion is Some && done(ops, after.completion->0, r),
    }
}

/// The popup is asked for where the user has autocompletion on.
pub open spec fn triggered<C: CompletionOps>(ops: C, after: C, r: Outcome) -> bool {
    if ops.popup().enabled {
        r == Outcome::Handled && after.calls() == ops.calls().push(PopupCall::Request(true))
    } else {
        r == Outcome::Declined && after == ops
    }
}

/// The candidate at a place of the ring is selected, where there is any.
pub open spec fn selected<C: CompletionOps>(ops: C, after: C, index: int, r: Outcome) -> bool {
    match wrapped(index, ops.popup().options) {
        Some(i) => r == Outcome::Handled && after.calls() == ops.calls().push(PopupCall::Select(i)),
        None => r == Outcome::Declined && after == ops,
    }
}

/// The next candidate of a popup that is up, or a new popup.
pub open spec fn advanced<C: CompletionOps>(ops: C, after: C, r: Outcome) -> bool {
    if ops.popup().visible {
        selected(ops, after, ops.popup().selected + 1, r)
    } else {
        triggered(ops, after, r)
    }
}

/// The previous candidate of a popup that is up, or a new popup at its last
/// candidate.
pub open spec fn retreated<C: CompletionOps>(ops: C, after: C, r: Outcome) -> bool {
    if ops.popup().visible {
        selected(ops, after, ops.popup().selected - 1, r)
    } else if ops.popup().enabled {
        &&& r == Outcome::Handled
        &&& exists|opened: C|
            {
                &&& (#[trigger] opened.calls()) == ops.calls().push(PopupCall::Request(true))
                &&& after.calls() == opened.calls() + last_of(opened.popup())
            }
    } else {
        r == Outcome::Declined && after == ops
    }
}

/// The command that moves a fresh popup to its last candidate, where it has
/// any.
pub open spec fn last_of(fresh: PopupState) -> Seq<PopupCall> {
    if fresh.visible && fresh.options > 0 {
        seq![PopupCall::Select((fresh.options - 1) as i32)]
    } else {
        Seq::empty()
    }
}

/// Open the popup.
pub fn trigger<P: PanelOps, C: CompletionOps>(cx: &mut ActionCtx<P, C>) -> (r: Outcome)
    ensures
        with_popup(*old(cx), *final(cx), r, |a: C, b: C, o: Outcome| triggered(a, b, o)),
{
    let mut ops: C = match cx.completion.take() {
        Some(ops) => ops,
        None => {
            return Outcome::Declined;
        },
    };
    let enabled = ops.completion_enabled();
    if enabled {
        ops.request(true);
    }
    cx.completion = Some(ops);
    if enabled {
        Outcome::Handled
    } else {
        // Forcing a popup the user turned off is worse than doing nothing.
        Outcome::Declined
    }
}

/// Select the next candidate, or open the popup, which then stands at the
/// first.
pub fn next<P: PanelOps, C: CompletionOps>(cx: &mut ActionCtx<P, C>) -> (r: Outcome)
    ensures
        with_popup(*old(cx), *final(cx), r, |a: C, b: C, o: Outcome| advanced(a, b, o)),
{
    let mut ops: C = match cx.completion.take() {
        Some(ops) => ops,
        None => {
            return Outcome::Declined;
        },
    };
    let mut outcome = Outcome::Declined;
    if ops.popup_visible() {
        if let Some(i) = wrap_wide(ops.selected_index() as i64 + 1, ops.option_count()) {
            ops.select(i);
            outcome = Outcome::Handled;
        }
    } else if ops.completion_enabled() {
        ops.request(true);
        outcome = Outcome::Handled;
    }
    cx.completion = Some(ops);
    outcome
}

/// Select the previous candidate, or open the popup at its last candidate.
pub fn prev<P: PanelOps, C: CompletionOps>(cx: &mut ActionCtx<P, C>) -> (r: Outcome)
    ensures
        with_popup(*old(cx), *final(cx), r, |a: C, b: C, o: Outcome| retreated(a, b, o)),
{
    let mut ops: C = match cx.completion.take() {
        Some(ops) => ops,
        None => {
            return Outcome::Declined;
        },
    };
    let ghost before = ops;
    let mut outcome = Outcome::Declined;
    if ops.popup_visible() {
        if let Some(i) = wrap_wide(ops.selected_index() as i64 - 1, ops.option_count()) {
            ops.select(i);
            outcome = Outcome::Handled;
        }
    } else if ops.completion_enabled() {
        ops.request(true);
        let ghost opened = ops;
        if ops.popup_visible() {
            let count: i32 = ops.option_count();
            if let Some(last) = wrap_wide(count as i64 - 1, count) {
                assert(last == count - 1) by (nonlinear_arith)
                    requires
                        count > 0,
                        last == (count - 1) % (count as int),
                ;
                ops.select(last);
            }
        }
        assert(opened.calls() == before.calls().push(PopupCall::Request(true)));
        assert(ops.calls() =~= opened.calls() + last_of(opened.popup()));
        outcome = Outcome::Handled;
    }
    cx.completion = Some(ops);
    outcome
}

/// One command to a popup that is up, with the given answer.
pub open spec fn commanded<C: CompletionOps>(
    ops: C,
    after: C,
    call: PopupCall,
    answer: Outcome,
    r: Outcome,
) -> bool {
    if ops.popup().visible {
        r == answer && after.calls() == ops.calls().push(call)
    } else {
        r == Outcome::Declined && after == ops
    }
}

/// Accept the selected candidate. Without a popup the key is the engine's:
/// Enter breaks the line and Tab indents.
pub fn confirm<P: PanelOps, C: CompletionOps>(cx: &mut ActionCtx<P, C>) -> (r: Outcome)
    ensures
        with_popup(
            *old(cx),
            *final(cx),
            r,
            |a: C, b: C, o: Outcome| commanded(a, b, PopupCall::Confirm, Outcome::Handled, o),
        ),
{
    let mut ops: C = match cx.completion.take() {
        Some(ops) => ops,
        None => {
            return Outcome::Declined;
        },
    };
    let visible = ops.popup_visible();
    if visible {
        ops.confirm();
    }
    cx.completion = Some(ops);
    if visible {
        Outcome::Handled
    } else {
        Outcome::Declined
    }
}

/// Close the popup and let the key through, so that one press both closes it
/// and leaves insert mode.
pub fn dismiss<P: PanelOps, C: CompletionOps>(cx: &mut ActionCtx<P, C>) -> (r: Outcome)
    ensures
        with_popup(
            *old(cx),
            *final(cx),
            r,
            |a: C, b: C, o: Outcome| commanded(a, b, PopupCall::Cancel, Outcome::Declined, o),
        ),
{
    let mut ops: C = match cx.completion.take() {
        Some(ops) => ops,
        None => {
            return Outcome::Declined;
        },
    };
    if ops.popup_visible() {
        ops.cancel();
    }
    cx.completion = Some(ops);
    Outcome::Declined
}

/// Let the control move its own selection: the engine is skipped, and the key
/// is not consumed.
pub fn navigate<P: PanelOps, C: CompletionOps>(cx: &mut ActionCtx<P, C>) -> (r: Outcome)
    ensures
        with_popup(
            *old(cx),
            *final(cx),
            r,
            |a: C, b: C, o: Outcome| commanded(a, b, PopupCall::HandToEditor, Outcome::Handled, o),
        ),
{
    let mut ops: C = match cx.completion.take() {
        Some(ops) => ops,
        None => {
            return Outcome::Declined;
        },
    };
    let visible = ops.popup_visible();
    if visible {
        ops.hand_to_editor();
    }
    cx.completion = Some(ops);
    if visible {
        Outcome::Handled
    } else {
        Outcome::Declined
    }
}

/// The verbs of the popup.
pub open spec fn verbs() -> Seq<ActionSpec> {
    seq![
        ActionSpec {
            id: "godotvim.completion.trigger",
            desc: "Completion: open the popup",
            requires: Caps::spec_empty(),
            host_invocable: false,
            run: Verb::CompletionTrigger,
        },
        ActionSpec {
            id: "godotvim.completion.next",
            desc: "Completion: next candidate, opening the popup if closed",
            requires: Caps::spec_empty(),
            host_invocable: false,
            run: Verb::CompletionNext,
        },
        ActionSpec {
            id: "godotvim.completion.prev",
            desc: "Completion: previous candidate, opening the popup if closed",
            requires: Caps::spec_empty(),
            host_invocable: false,
            run: Verb::CompletionPrev,
        },
        ActionSpec {
            id: "godotvim.completion.confirm",
            desc: "Completion: accept the selected candidate",
            requires: Caps::spec_empty(),
            host_invocable: false,
            run: Verb::CompletionConfirm,
        },
        ActionSpec {
            id: "godotvim.completion.dismiss",
            desc: "Completion: close the popup, letting the key through",
            requires: Caps::spec_empty(),
            host_invocable: false,
            run: Verb::CompletionDismiss,
        },
        ActionSpec {
            id: "godotvim.completion.navigate",
            desc: "Completion: let the editor's own popup handling move the selection",
            requires: Caps::spec_empty(),
            host_invocable: false,
            run: Verb::CompletionNavigate,
        },
    ]
}

/// The verbs of the popup.
pub fn actions() -> (r: Vec<ActionSpec>)
    ensures
        r@ == verbs(),
{
    let r: Vec<ActionSpec> = vec![
        ActionSpec {
            id: "godotvim.completion.trigger",
            desc: "Completion: open the popup",
            requires: Caps::empty(),
            host_invocable: false,
            run: Verb::CompletionTrigger,
        },
        ActionSpec {
            id: "godotvim.completion.next",
            desc: "Completion: next candidate, opening the popup if closed",
            requires: Caps::empty(),
            host_invocable: false,
            run: Verb::CompletionNext,
        },
        ActionSpec {
            id: "godotvim.completion.prev",
            desc: "Completion: previous candidate, opening the popup if closed",
            requires: Caps::empty(),
            host_invocable: false,
            run: Verb::CompletionPrev,
        },
        ActionSpec {
            id: "godotvim.completion.confirm",
            desc: "Completion: accept the selected candidate",
            requires: Caps::empty(),
            host_invocable: false,
            run: Verb::CompletionConfirm,
        },
        ActionSpec {
            id: "godotvim.completion.dismiss",
            desc: "Completion: close the popup, letting the key through",
            requires: Caps::empty(),
            host_invocable: false,
            run: Verb::CompletionDismiss,
        },
        ActionSpec {
            id: "godotvim.completion.navigate",
            desc: "Completion: let the editor's own popup handling move the selection",
            requires: Caps::empty(),
            host_invocable: false,
            run: Verb::CompletionNavigate,
        },
    ];
    assert(r@ =~= verbs());
    r
}

/// Every one of these verbs has a well-formed name.
pub proof fn verb_ids_are_valid(i: int)
    requires
        0 <= i < verbs().len(),
    ensures
        action::is_action_id(verbs()[i].id@),
{
    reveal_strlit("godotvim.completion.trigger");
    reveal_strlit("godotvim.completion.next");
    reveal_strlit("godotvim.completion.prev");
    reveal_strlit("godotvim.completion.confirm");
    reveal_strlit("godotvim.completion.dismiss");
    reveal_strlit("godotvim.completion.navigate");
    action::literal_id("godotvim.completion.trigger");
    action::literal_id("godotvim.completion.next");
    action::literal_id("godotvim.completion.prev");
    action::literal_id("godotvim.completion.confirm");
    action::literal_id("godotvim.completion.dismiss");
    action::literal_id("godotvim.completion.navigate");
    assert(verbs().len() == 6);
}

/// The default text is short.
pub proof fn defaults_are_short()
    ensures
        DEFAULTS@.len() < 1000,
{
    reveal_strlit("\
panelmap editor.completion <C-@> godotvim.completion.trigger
panelmap editor.completion <C-n> godotvim.completion.next
panelmap editor.completion <C-p> godotvim.completion.prev
panelmap editor.completion <Tab> godotvim.completion.confirm
panelmap editor.completion <CR> godotvim.completion.confirm
panelmap editor.completion <Esc> godotvim.completion.dismiss
panelmap editor.completion <Up> godotvim.completion.navigate
panelmap editor.completion <Down> godotvim.completion.navigate
");
}

} // verus!
