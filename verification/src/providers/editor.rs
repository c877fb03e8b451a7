//! `editor.nav` and `editor.insert`: the attached code editor, split by mode.

use vstd::prelude::*;
use crate::caps::Caps;
use crate::key::Mode;
use crate::surface::{Anchor, FocusChain, Probe, Seal, SurfaceSpec};

verus! {

/// The provider's tag: every rule it installs is owned by it.
pub const TAG: &'static str = "godotvim.editor";

/// Default bindings, in exactly the text a user types.
pub const DEFAULTS: &'static str = "";

/// The modes in which panel navigation wins over the engine.
///
/// Select mode is not one of them: it takes text, so its chords belong to the
/// engine.
pub open spec fn is_nav(mode: Mode) -> bool {
    mode is Normal || mode is Visual || mode is OperatorPending
}

/// Whether panel navigation wins over the engine in a mode.
pub fn is_nav_mode(mode: Mode) -> (r: bool)
    ensures
        r == is_nav(mode),
{
    matches!(mode, Mode::Normal | Mode::Visual(_) | Mode::OperatorPending(_))
}

/// The attached editor in a navigation mode, or without a controller.
pub open spec fn nav_claims(chain: FocusChain) -> Option<Anchor> {
    if chain.editor_focused() && (chain.editor_mode matches Some(m) ==> is_nav(m)) {
        Some(Anchor::Node(0))
    } else {
        None
    }
}

/// The attached editor in any other mode.
pub open spec fn insert_claims(chain: FocusChain) -> Option<Anchor> {
    if chain.editor_focused() && (chain.editor_mode matches Some(m) && !is_nav(m)) {
        Some(Anchor::Node(0))
    } else {
        None
    }
}

/// Claim the attached editor in a navigation mode.
pub fn probe_nav(chain: &FocusChain) -> (r: Option<Anchor>)
    ensures
        r == nav_claims(*chain),
{
    let nav = match chain.editor_mode {
        Some(mode) => is_nav_mode(mode),
        // Without a controller, panel navigation wins.
        None => true,
    };
    if chain.attached_editor_focused() && nav {
        Some(Anchor::Node(0))
    } else {
        None
    }
}

/// Claim the attached editor in an insert-like mode.
pub fn probe_insert(chain: &FocusChain) -> (r: Option<Anchor>)
    ensures
        r == insert_claims(*chain),
{
    let insert = match chain.editor_mode {
        Some(mode) => !is_nav_mode(mode),
        None => false,
    };
    if chain.attached_editor_focused() && insert {
        Some(Anchor::Node(0))
    } else {
        None
    }
}

/// The editor where its chords navigate: it has no rule of its own, the panel
/// chords reach it through its parent.
pub open spec fn nav_spec() -> SurfaceSpec {
    SurfaceSpec {
        id: "editor.nav",
        parent: Some("panel"),
        seal: Seal::Open,
        grants: Caps::spec_empty(),
        probe: Probe::EditorNav,
        on_key: None,
        yields_to_engine: true,
        refuses_positional: true,
    }
}

/// The editor where its chords are text: a root and a barrier.
pub open spec fn insert_spec() -> SurfaceSpec {
    SurfaceSpec {
        id: "editor.insert",
        parent: None,
        seal: Seal::Barrier,
        grants: Caps::spec_empty(),
        probe: Probe::EditorInsert,
        on_key: None,
        yields_to_engine: false,
        refuses_positional: true,
    }
}

/// The `editor.nav` surface.
pub fn editor_nav() -> (r: SurfaceSpec)
    ensures
        r == nav_spec(),
{
    SurfaceSpec {
        id: "editor.nav",
        parent: Some("panel"),
        seal: Seal::Open,
        grants: Caps::empty(),
        probe: Probe::EditorNav,
        on_key: None,
        yields_to_engine: true,
        refuses_positional: true,
    }
}

/// The `editor.insert` surface.
pub fn editor_insert() -> (r: SurfaceSpec)
    ensures
        r == insert_spec(),
{
    SurfaceSpec {
        id: "editor.insert",
        parent: None,
        seal: Seal::Barrier,
        grants: Caps::empty(),
        probe: Probe::EditorInsert,
        on_key: None,
        yields_to_engine: false,
        refuses_positional: true,
    }
}

/// The default text is short.
pub proof fn defaults_are_short()
    ensures
        DEFAULTS@.len() < 1000,
{
    reveal_strlit("");
}

} // verus!
