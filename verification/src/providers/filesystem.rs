//! `dock.filesystem`: the file system dock.

use vstd::prelude::*;
use crate::caps::Caps;
use crate::surface::{Anchor, FocusChain, KeyHook, Probe, Seal, SurfaceSpec};
use super::dock::focuses_nav_widget;

verus! {

/// The provider's tag: every rule it installs is owned by it.
pub const TAG: &'static str = "godotvim.filesystem";

/// Default bindings, in exactly the text a user types.
pub const DEFAULTS: &'static str = "\
panelmap <physical> dock.filesystem a godotvim.fs.create
panelmap <physical> dock.filesystem d godotvim.fs.delete
panelmap <physical> dock.filesystem r godotvim.fs.rename
panelmap <physical> dock.filesystem y godotvim.fs.yank_path
panelmap <physical> dock.filesystem R godotvim.fs.refresh
";

/// A navigable control inside the file system dock.
pub open spec fn claims(chain: FocusChain) -> Option<Anchor> {
    if chain.in_filesystem_dock && chain.focus_caps().vnav {
        Some(Anchor::Node(0))
    } else {
        None
    }
}

/// Claim a navigable control of the file system dock.
pub fn probe(chain: &FocusChain) -> (r: Option<Anchor>)
    ensures
        r == claims(*chain),
{
    if chain.in_filesystem_dock && focuses_nav_widget(chain) {
        Some(Anchor::Node(0))
    } else {
        None
    }
}

/// What `dock.filesystem` declares.
pub open spec fn declared() -> SurfaceSpec {
    SurfaceSpec {
        id: "dock.filesystem",
        parent: Some("dock"),
        seal: Seal::Open,
        grants: Caps { fileops: true, ..Caps::spec_empty() },
        probe: Probe::FileSystem,
        on_key: Some(KeyHook::PromptTick),
        yields_to_engine: false,
        refuses_positional: false,
    }
}

/// The `dock.filesystem` surface.
pub fn dock_filesystem() -> (r: SurfaceSpec)
    ensures
        r == declared(),
{
    SurfaceSpec {
        id: "dock.filesystem",
        parent: Some("dock"),
        seal: Seal::Open,
        grants: Caps::fileops(),
        probe: Probe::FileSystem,
        on_key: Some(KeyHook::PromptTick),
        yields_to_engine: false,
        refuses_positional: false,
    }
}

/// The default text is short.
pub proof fn defaults_are_short()
    ensures
        DEFAULTS@.len() < 1000,
{
    reveal_strlit("\
panelmap <physical> dock.filesystem a godotvim.fs.create
panelmap <physical> dock.filesystem d godotvim.fs.delete
panelmap <physical> dock.filesystem r godotvim.fs.rename
panelmap <physical> dock.filesystem y godotvim.fs.yank_path
panelmap <physical> dock.filesystem R godotvim.fs.refresh
");
}

} // verus!
