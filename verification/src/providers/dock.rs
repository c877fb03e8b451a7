//! `dock`: every list, tree and label that keys can move in.

use vstd::prelude::*;
use crate::caps::Caps;
use crate::surface::{Anchor, FocusChain, Probe, Seal, SurfaceSpec};

verus! {

/// The provider's tag: every rule it installs is owned by it.
pub const TAG: &'static str = "godotvim.dock";

/// Default bindings, in exactly the text a user types.
pub const DEFAULTS: &'static str = "\
panelmap <physical> dock h godotvim.item.collapse
panelmap <physical> dock j godotvim.item.next
panelmap <physical> dock k godotvim.item.prev
panelmap <physical> dock l godotvim.item.expand
panelmap <physical> dock / godotvim.dock.search
panelmap dock <CR> godotvim.item.activate
panelmap dock <Esc> godotvim.focus.editor
";

/// Any control that moves a vertical cursor.
pub open spec fn claims(chain: FocusChain) -> Option<Anchor> {
    if chain.focus_caps().vnav {
        Some(Anchor::Node(0))
    } else {
        None
    }
}

/// Whether the focus owner moves a vertical cursor.
pub fn focuses_nav_widget(chain: &FocusChain) -> (r: bool)
    ensures
        r == chain.focus_caps().vnav,
{
    match chain.focus() {
        Some(node) => node.widget_caps().satisfies(Caps::vnav()),
        None => false,
    }
}

/// Claim any control that moves a vertical cursor.
pub fn probe(chain: &FocusChain) -> (r: Option<Anchor>)
    ensures
        r == claims(*chain),
{
    if focuses_nav_widget(chain) {
        Some(Anchor::Node(0))
    } else {
        None
    }
}

/// What `dock` declares.
pub open spec fn declared() -> SurfaceSpec {
    SurfaceSpec {
        id: "dock",
        parent: Some("panel"),
        seal: Seal::Open,
        grants: Caps::spec_empty(),
        probe: Probe::Dock,
        on_key: None,
        yields_to_engine: false,
        refuses_positional: false,
    }
}

/// The `dock` surface.
pub fn dock() -> (r: SurfaceSpec)
    ensures
        r == declared(),
{
    SurfaceSpec {
        id: "dock",
        parent: Some("panel"),
        seal: Seal::Open,
        grants: Caps::empty(),
        probe: Probe::Dock,
        on_key: None,
        yields_to_engine: false,
        refuses_positional: false,
    }
}

/// The default text is short.
pub proof fn defaults_are_short()
    ensures
        DEFAULTS@.len() < 1000,
{
    reveal_strlit("\
panelmap <physical> dock h godotvim.item.collapse
panelmap <physical> dock j godotvim.item.next
panelmap <physical> dock k godotvim.item.prev
panelmap <physical> dock l godotvim.item.expand
panelmap <physical> dock / godotvim.dock.search
panelmap dock <CR> godotvim.item.activate
panelmap dock <Esc> godotvim.focus.editor
");
}

} // verus!
