//! `panel`: the root of the forest, reached through parent links only.

use vstd::prelude::*;
use crate::caps::Caps;
use crate::surface::{Probe, Seal, SurfaceSpec};

verus! {

/// The provider's tag: every rule it installs is owned by it.
pub const TAG: &'static str = "godotvim.panel";

/// Default bindings, in exactly the text a user types.
pub const DEFAULTS: &'static str = "\
panelmap <physical> <void> <norepeat> panel <C-h> godotvim.focus.left
panelmap <physical> <void> <norepeat> panel <C-j> godotvim.focus.down
panelmap <physical> <void> <norepeat> panel <C-k> godotvim.focus.up
panelmap <physical> <void> <norepeat> panel <C-l> godotvim.focus.right
";

/// What `panel` declares.
pub open spec fn declared() -> SurfaceSpec {
    SurfaceSpec {
        id: "panel",
        parent: None,
        seal: Seal::Open,
        grants: Caps::spec_empty(),
        probe: Probe::Never,
        on_key: None,
        yields_to_engine: false,
        refuses_positional: false,
    }
}

/// The `panel` surface.
pub fn panel() -> (r: SurfaceSpec)
    ensures
        r == declared(),
{
    SurfaceSpec {
        id: "panel",
        parent: None,
        seal: Seal::Open,
        grants: Caps::empty(),
        probe: Probe::Never,
        on_key: None,
        yields_to_engine: false,
        refuses_positional: false,
    }
}

/// The default text is short.
pub proof fn defaults_are_short()
    ensures
        DEFAULTS@.len() < 1000,
{
    reveal_strlit("\
panelmap <physical> <void> <norepeat> panel <C-h> godotvim.focus.left
panelmap <physical> <void> <norepeat> panel <C-j> godotvim.focus.down
panelmap <physical> <void> <norepeat> panel <C-k> godotvim.focus.up
panelmap <physical> <void> <norepeat> panel <C-l> godotvim.focus.right
");
}

} // verus!
