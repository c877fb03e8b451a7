//! `unknown`: whatever no other surface claims.

use vstd::prelude::*;
use crate::caps::Caps;
use crate::surface::{Anchor, FocusChain, Probe, Seal, SurfaceSpec};

verus! {

/// The provider's tag: every rule it installs is owned by it.
pub const TAG: &'static str = "godotvim.unknown";

/// Default bindings, in exactly the text a user types.
pub const DEFAULTS: &'static str = "";

/// Anything at all, and nothing: the probe is total.
pub open spec fn claims(chain: FocusChain) -> Option<Anchor> {
    if chain.has_focus() {
        Some(Anchor::Node(0))
    } else {
        Some(Anchor::Rootless)
    }
}

/// Claim whatever no other surface did.
pub fn probe(chain: &FocusChain) -> (r: Option<Anchor>)
    ensures
        r == claims(*chain),
{
    match chain.focus() {
        Some(_) => Some(Anchor::Node(0)),
        None => Some(Anchor::Rootless),
    }
}

/// What `unknown` declares.
pub open spec fn declared() -> SurfaceSpec {
    SurfaceSpec {
        id: "unknown",
        parent: Some("panel"),
        seal: Seal::Open,
        grants: Caps::spec_empty(),
        probe: Probe::Unknown,
        on_key: None,
        yields_to_engine: false,
        refuses_positional: false,
    }
}

/// The `unknown` surface.
pub fn unknown() -> (r: SurfaceSpec)
    ensures
        r == declared(),
{
    SurfaceSpec {
        id: "unknown",
        parent: Some("panel"),
        seal: Seal::Open,
        grants: Caps::empty(),
        probe: Probe::Unknown,
        on_key: None,
        yields_to_engine: false,
        refuses_positional: false,
    }
}

/// The default text is short.
pub proof fn defaults_are_short()
    ensures
        DEFAULTS@.len() < 1000,
{
    reveal_strlit("");
}

} // verus!
