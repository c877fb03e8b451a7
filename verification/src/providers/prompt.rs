//! `prompt`: the plugin's own line edit.

use vstd::prelude::*;
use crate::caps::Caps;
use crate::surface::{Anchor, FocusChain, Probe, Seal, SurfaceSpec};

verus! {

/// The provider's tag: every rule it installs is owned by it.
pub const TAG: &'static str = "godotvim.prompt";

/// Default bindings, in exactly the text a user types.
pub const DEFAULTS: &'static str = "";

/// The plugin's own prompt, by identity, where something has focus.
pub open spec fn claims(chain: FocusChain) -> Option<Anchor> {
    if chain.is_plugin_prompt && chain.has_focus() {
        Some(Anchor::Node(0))
    } else {
        None
    }
}

/// Claim the plugin's own prompt.
pub fn probe(chain: &FocusChain) -> (r: Option<Anchor>)
    ensures
        r == claims(*chain),
{
    if chain.is_plugin_prompt && chain.focus().is_some() {
        Some(Anchor::Node(0))
    } else {
        None
    }
}

/// What `prompt` declares.
pub open spec fn declared() -> SurfaceSpec {
    SurfaceSpec {
        id: "prompt",
        parent: Some("panel"),
        seal: Seal::Sealed,
        grants: Caps::spec_empty(),
        probe: Probe::Prompt,
        on_key: None,
        yields_to_engine: false,
        refuses_positional: false,
    }
}

/// The `prompt` surface.
pub fn prompt() -> (r: SurfaceSpec)
    ensures
        r == declared(),
{
    SurfaceSpec {
        id: "prompt",
        parent: Some("panel"),
        seal: Seal::Sealed,
        grants: Caps::empty(),
        probe: Probe::Prompt,
        on_key: None,
        yields_to_engine: false,
        refuses_positional: false,
    }
}

/// The default text is short.
pub proof fn defaults_are_short()
    ensures
        DEFAULTS@.len() < 1000,
{
    reveal_strlit("");
}

} // verus!
