//! `dock.debugger`: the debugger's stack-frame and breakpoint trees.

use vstd::prelude::*;
use vstd::string::*;
use crate::action;
use crate::action::ActionSpec;
use crate::caps::Caps;
use crate::outcome::Outcome;
use crate::ports::{ActionCtx, CompletionOps, HostCall, NavDirection, PanelOps, Step};
use crate::specs::Verb;
use crate::surface::{Anchor, FocusChain, Probe, Seal, SurfaceSpec};

verus! {

/// The provider's tag: every rule it installs is owned by it.
pub const TAG: &'static str = "godotvim.debugger";

/// Default bindings, in exactly the text a user types.
pub const DEFAULTS: &'static str = "\
panelmap dock.debugger J godotvim.debugger.frame_next
panelmap dock.debugger K godotvim.debugger.frame_prev
panelmap dock.debugger G godotvim.debugger.frame_last
panelmap dock.debugger y godotvim.debugger.yank_frame
";

/// A tree inside the debugger dock.
pub open spec fn claims(chain: FocusChain) -> Option<Anchor> {
    if chain.has_ancestor("EditorDebuggerNode"@) && chain.spec_focus_is("Tree"@) {
        Some(Anchor::Node(0))
    } else {
        None
    }
}

/// Claim a tree of the debugger dock.
pub fn probe(chain: &FocusChain) -> (r: Option<Anchor>)
    ensures
        r == claims(*chain),
{
    if chain.index_of_ancestor("EditorDebuggerNode").is_some() && chain.focus_is("Tree") {
        Some(Anchor::Node(0))
    } else {
        None
    }
}

/// What `dock.debugger` declares.
pub open spec fn declared() -> SurfaceSpec {
    SurfaceSpec {
        id: "dock.debugger",
        parent: Some("dock"),
        seal: Seal::Open,
        grants: Caps::spec_empty(),
        probe: Probe::Debugger,
        on_key: None,
        yields_to_engine: false,
        refuses_positional: false,
    }
}

/// The `dock.debugger` surface.
pub fn dock_debugger() -> (r: SurfaceSpec)
    ensures
        r == declared(),
{
    SurfaceSpec {
        id: "dock.debugger",
        parent: Some("dock"),
        seal: Seal::Open,
        grants: Caps::empty(),
        probe: Probe::Debugger,
        on_key: None,
        yields_to_engine: false,
        refuses_positional: false,
    }
}

/// The longest walk to the end of a debugger tree.
pub const MAX_WALK: u32 = 200;

/// The selected row is copied where there is one and it says anything.
pub open spec fn row_yanked<P: PanelOps, C: CompletionOps>(cx: ActionCtx<P, C>) -> Step {
    if cx.panel is Some && (cx.row matches Some(text) && text@.len() > 0) {
        Step::Host(HostCall::CopyRow)
    } else {
        Step::Done(Outcome::Declined)
    }
}

/// Copy the selected row to the clipboard.
pub fn yank_frame<P: PanelOps, C: CompletionOps>(cx: &ActionCtx<P, C>) -> (r: Step)
    ensures
        r == row_yanked(*cx),
{
    if cx.panel.is_some() {
        match &cx.row {
            Some(text) => if !text.as_str().is_empty() {
                return Step::Host(HostCall::CopyRow);
            },
            None => {},
        }
    }
    Step::Done(Outcome::Declined)
}

/// The verbs of the debugger trees.
pub open spec fn verbs() -> Seq<ActionSpec> {
    seq![
        ActionSpec {
            id: "godotvim.debugger.frame_next",
            desc: "Debugger: select the next stack frame or breakpoint",
            requires: Caps { vnav: true, ..Caps::spec_empty() },
            host_invocable: false,
            run: Verb::FrameStep(NavDirection::Next),
        },
        ActionSpec {
            id: "godotvim.debugger.frame_prev",
            desc: "Debugger: select the previous stack frame or breakpoint",
            requires: Caps { vnav: true, ..Caps::spec_empty() },
            host_invocable: false,
            run: Verb::FrameStep(NavDirection::Prev),
        },
        ActionSpec {
            id: "godotvim.debugger.frame_last",
            desc: "Debugger: select the deepest stack frame",
            requires: Caps { vnav: true, ..Caps::spec_empty() },
            host_invocable: false,
            run: Verb::FrameLast,
        },
        ActionSpec {
            id: "godotvim.debugger.yank_frame",
            desc: "Debugger: copy the selected row to the clipboard",
            requires: Caps { vnav: true, ..Caps::spec_empty() },
            host_invocable: false,
            run: Verb::YankFrame,
        },
    ]
}

/// The verbs of the debugger trees.
pub fn actions() -> (r: Vec<ActionSpec>)
    ensures
        r@ == verbs(),
{
    let r: Vec<ActionSpec> = vec![
        ActionSpec {
            id: "godotvim.debugger.frame_next",
            desc: "Debugger: select the next stack frame or breakpoint",
            requires: Caps::vnav(),
            host_invocable: false,
            run: Verb::FrameStep(NavDirection::Next),
        },
        ActionSpec {
            id: "godotvim.debugger.frame_prev",
            desc: "Debugger: select the previous stack frame or breakpoint",
            requires: Caps::vnav(),
            host_invocable: false,
            run: Verb::FrameStep(NavDirection::Prev),
        },
        ActionSpec {
            id: "godotvim.debugger.frame_last",
            desc: "Debugger: select the deepest stack frame",
            requires: Caps::vnav(),
            host_invocable: false,
            run: Verb::FrameLast,
        },
        ActionSpec {
            id: "godotvim.debugger.yank_frame",
            desc: "Debugger: copy the selected row to the clipboard",
            requires: Caps::vnav(),
            host_invocable: false,
            run: Verb::YankFrame,
        },
    ];
    assert(r@ =~= verbs());
    r
}

/// Every one of these verbs has a well-formed name.
pub proof fn verb_ids_are_valid(i: int)
    requires
        0 <= i < verbs().len(),
    ensures
        action::is_action_id(verbs()[i].id@),
{
    reveal_strlit("godotvim.debugger.frame_next");
    reveal_strlit("godotvim.debugger.frame_prev");
    reveal_strlit("godotvim.debugger.frame_last");
    reveal_strlit("godotvim.debugger.yank_frame");
    action::literal_id("godotvim.debugger.frame_next");
    action::literal_id("godotvim.debugger.frame_prev");
    action::literal_id("godotvim.debugger.frame_last");
    action::literal_id("godotvim.debugger.yank_frame");
    assert(verbs().len() == 4);
}

/// The default text is short.
pub proof fn defaults_are_short()
    ensures
        DEFAULTS@.len() < 1000,
{
    reveal_strlit("\
panelmap dock.debugger J godotvim.debugger.frame_next
panelmap dock.debugger K godotvim.debugger.frame_prev
panelmap dock.debugger G godotvim.debugger.frame_last
panelmap dock.debugger y godotvim.debugger.yank_frame
");
}

} // verus!
