//! `searchbox`: a dock's filter box.

use vstd::prelude::*;
use crate::caps::Caps;
use crate::surface::{Anchor, FocusChain, Probe, Seal, SurfaceSpec};

verus! {

/// The provider's tag: every rule it installs is owned by it.
pub const TAG: &'static str = "godotvim.searchbox";

/// Default bindings, in exactly the text a user types.
pub const DEFAULTS: &'static str = "\
panelmap <shift> searchbox <CR> godotvim.search.accept
panelmap <shift> searchbox <Esc> godotvim.search.accept
";

/// A line edit that filters a navigable control.
pub open spec fn claims(chain: FocusChain) -> Option<Anchor> {
    if chain.spec_focus_is("LineEdit"@) && chain.sibling_nav_control is Some {
        Some(Anchor::Node(0))
    } else {
        None
    }
}

/// Claim a dock's filter box.
pub fn probe(chain: &FocusChain) -> (r: Option<Anchor>)
    ensures
        r == claims(*chain),
{
    if chain.focus_is("LineEdit") && chain.sibling_nav_control.is_some() {
        Some(Anchor::Node(0))
    } else {
        None
    }
}

/// What `searchbox` declares.
pub open spec fn declared() -> SurfaceSpec {
    SurfaceSpec {
        id: "searchbox",
        parent: Some("panel"),
        seal: Seal::Sealed,
        grants: Caps::spec_empty(),
        probe: Probe::SearchBox,
        on_key: None,
        yields_to_engine: false,
        refuses_positional: false,
    }
}

/// The `searchbox` surface.
pub fn searchbox() -> (r: SurfaceSpec)
    ensures
        r == declared(),
{
    SurfaceSpec {
        id: "searchbox",
        parent: Some("panel"),
        seal: Seal::Sealed,
        grants: Caps::empty(),
        probe: Probe::SearchBox,
        on_key: None,
        yields_to_engine: false,
        refuses_positional: false,
    }
}

/// The default text is short.
pub proof fn defaults_are_short()
    ensures
        DEFAULTS@.len() < 1000,
{
    reveal_strlit("\
panelmap <shift> searchbox <CR> godotvim.search.accept
panelmap <shift> searchbox <Esc> godotvim.search.accept
");
}

} // verus!
