//! `foreign`: a text input that is none of the plugin's business.

use vstd::prelude::*;
use crate::caps::Caps;
use crate::surface::{Anchor, FocusChain, Probe, Seal, SurfaceSpec};

verus! {

/// The provider's tag: every rule it installs is owned by it.
pub const TAG: &'static str = "godotvim.foreign";

/// Default bindings, in exactly the text a user types.
pub const DEFAULTS: &'static str = "";

/// A text editor that is not ours, or a line edit that filters nothing.
pub open spec fn claims(chain: FocusChain) -> Option<Anchor> {
    if (chain.spec_focus_is("TextEdit"@) && !chain.editor_focused()) || (chain.spec_focus_is(
        "LineEdit"@,
    ) && chain.sibling_nav_control is None) {
        Some(Anchor::Node(0))
    } else {
        None
    }
}

/// Claim a text input that is none of the plugin's business.
pub fn probe(chain: &FocusChain) -> (r: Option<Anchor>)
    ensures
        r == claims(*chain),
{
    match chain.focus() {
        Some(node) => {
            if node.is("TextEdit") && !chain.attached_editor_focused() {
                return Some(Anchor::Node(0));
            }
            if node.is("LineEdit") && chain.sibling_nav_control.is_none() {
                return Some(Anchor::Node(0));
            }
            None
        },
        None => None,
    }
}

/// What `foreign` declares.
pub open spec fn declared() -> SurfaceSpec {
    SurfaceSpec {
        id: "foreign",
        parent: None,
        seal: Seal::Barrier,
        grants: Caps::spec_empty(),
        probe: Probe::Foreign,
        on_key: None,
        yields_to_engine: false,
        refuses_positional: false,
    }
}

/// The `foreign` surface.
pub fn foreign() -> (r: SurfaceSpec)
    ensures
        r == declared(),
{
    SurfaceSpec {
        id: "foreign",
        parent: None,
        seal: Seal::Barrier,
        grants: Caps::empty(),
        probe: Probe::Foreign,
        on_key: None,
        yields_to_engine: false,
        refuses_positional: false,
    }
}

/// The default text is short.
pub proof fn defaults_are_short()
    ensures
        DEFAULTS@.len() < 1000,
{
    reveal_strlit("");
}

} // verus!
