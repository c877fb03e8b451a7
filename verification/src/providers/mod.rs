//! The shipped surface providers, in probe order.
//!
//! Probes run in declaration order and the first that claims a chain wins.
//! `unknown` claims everything, so it is the last that probes; `foreign` comes
//! right before it, after every surface that needs first refusal; a descendant
//! comes before its ancestor.

pub mod completion;
pub mod debugger;
pub mod dock;
pub mod editor;
pub mod filesystem;
pub mod foreign;
pub mod panel;
pub mod prompt;
pub mod searchbox;
pub mod unknown;

use vstd::prelude::*;
use crate::action;
use crate::action::ActionSpec;
use crate::surface;
use crate::surface::{Anchor, FocusChain, Forest, Seal, SurfaceId, SurfaceSpec};

verus! {

/// One subsystem's contribution to the plane.
#[derive(Debug, Clone, Copy)]
pub struct Provider {
    /// The owner of every rule this provider installs.
    pub tag: &'static str,
    /// Default bindings, in exactly the text a user types.
    pub defaults: &'static str,
}

/// The providers, in probe order.
pub open spec fn shipped_providers() -> Seq<Provider> {
    seq![
        Provider { tag: editor::TAG, defaults: editor::DEFAULTS },
        Provider { tag: completion::TAG, defaults: completion::DEFAULTS },
        Provider { tag: prompt::TAG, defaults: prompt::DEFAULTS },
        Provider { tag: searchbox::TAG, defaults: searchbox::DEFAULTS },
        Provider { tag: filesystem::TAG, defaults: filesystem::DEFAULTS },
        Provider { tag: debugger::TAG, defaults: debugger::DEFAULTS },
        Provider { tag: dock::TAG, defaults: dock::DEFAULTS },
        Provider { tag: foreign::TAG, defaults: foreign::DEFAULTS },
        Provider { tag: unknown::TAG, defaults: unknown::DEFAULTS },
        Provider { tag: panel::TAG, defaults: panel::DEFAULTS },
    ]
}

/// The providers, in probe order.
pub fn providers() -> (r: Vec<Provider>)
    ensures
        r@ == shipped_providers(),
{
    let r: Vec<Provider> = vec![
        Provider { tag: editor::TAG, defaults: editor::DEFAULTS },
        Provider { tag: completion::TAG, defaults: completion::DEFAULTS },
        Provider { tag: prompt::TAG, defaults: prompt::DEFAULTS },
        Provider { tag: searchbox::TAG, defaults: searchbox::DEFAULTS },
        Provider { tag: filesystem::TAG, defaults: filesystem::DEFAULTS },
        Provider { tag: debugger::TAG, defaults: debugger::DEFAULTS },
        Provider { tag: dock::TAG, defaults: dock::DEFAULTS },
        Provider { tag: foreign::TAG, defaults: foreign::DEFAULTS },
        Provider { tag: unknown::TAG, defaults: unknown::DEFAULTS },
        Provider { tag: panel::TAG, defaults: panel::DEFAULTS },
    ];
    assert(r@ =~= shipped_providers());
    r
}

/// Every provider's default text is short.
pub proof fn defaults_are_short(i: int)
    requires
        0 <= i < shipped_providers().len(),
    ensures
        shipped_providers()[i].defaults@.len() < 1000,
{
    editor::defaults_are_short();
    completion::defaults_are_short();
    prompt::defaults_are_short();
    searchbox::defaults_are_short();
    filesystem::defaults_are_short();
    debugger::defaults_are_short();
    dock::defaults_are_short();
    foreign::defaults_are_short();
    unknown::defaults_are_short();
    panel::defaults_are_short();
}

/// Every declared surface, in probe order.
pub open spec fn shipped_surfaces() -> Seq<SurfaceSpec> {
    seq![
        editor::nav_spec(),
        editor::insert_spec(),
        completion::declared(),
        prompt::declared(),
        searchbox::declared(),
        filesystem::declared(),
        debugger::declared(),
        dock::declared(),
        foreign::declared(),
        unknown::declared(),
        panel::declared(),
    ]
}

/// Every declared surface, in probe order.
pub fn surfaces() -> (r: Vec<SurfaceSpec>)
    ensures
        r@ == shipped_surfaces(),
{
    let r: Vec<SurfaceSpec> = vec![
        editor::editor_nav(),
        editor::editor_insert(),
        completion::editor_completion(),
        prompt::prompt(),
        searchbox::searchbox(),
        filesystem::dock_filesystem(),
        debugger::dock_debugger(),
        dock::dock(),
        foreign::foreign(),
        unknown::unknown(),
        panel::panel(),
    ];
    assert(r@ =~= shipped_surfaces());
    r
}

/// The shipped forest, ready to classify.
pub fn forest() -> (r: Forest)
    ensures
        r@ == shipped_surfaces(),
{
    let specs = surfaces();
    Forest::new(specs.as_slice())
}

// ── Laws of the shipped forest ────────────────────────────────────────

/// Where each shipped surface stands.
pub proof fn shipped_places()
    ensures
        shipped_surfaces().len() == 11,
        surface::place_of(shipped_surfaces(), "editor.nav"@) == Some(0int),
        surface::place_of(shipped_surfaces(), "editor.insert"@) == Some(1int),
        surface::place_of(shipped_surfaces(), "editor.completion"@) == Some(2int),
        surface::place_of(shipped_surfaces(), "prompt"@) == Some(3int),
        surface::place_of(shipped_surfaces(), "searchbox"@) == Some(4int),
        surface::place_of(shipped_surfaces(), "dock.filesystem"@) == Some(5int),
        surface::place_of(shipped_surfaces(), "dock.debugger"@) == Some(6int),
        surface::place_of(shipped_surfaces(), "dock"@) == Some(7int),
        surface::place_of(shipped_surfaces(), "foreign"@) == Some(8int),
        surface::place_of(shipped_surfaces(), "unknown"@) == Some(9int),
        surface::place_of(shipped_surfaces(), "panel"@) == Some(10int),
{
    reveal_strlit("editor.nav");
    reveal_strlit("editor.insert");
    reveal_strlit("editor.completion");
    reveal_strlit("prompt");
    reveal_strlit("searchbox");
    reveal_strlit("dock.filesystem");
    reveal_strlit("dock.debugger");
    reveal_strlit("dock");
    reveal_strlit("foreign");
    reveal_strlit("unknown");
    reveal_strlit("panel");
    let specs = shipped_surfaces();
    assert("editor.insert"@[0] == 'e' && "dock.debugger"@[0] == 'd');
    assert("foreign"@[0] == 'f' && "unknown"@[0] == 'u');
    assert(specs[0].id@ == "editor.nav"@ && "editor.nav"@.len() == 10);
    assert(specs[1].id@ == "editor.insert"@ && "editor.insert"@.len() == 13);
    assert(specs[2].id@ == "editor.completion"@ && "editor.completion"@.len() == 17);
    assert(specs[3].id@ == "prompt"@ && "prompt"@.len() == 6);
    assert(specs[4].id@ == "searchbox"@ && "searchbox"@.len() == 9);
    assert(specs[5].id@ == "dock.filesystem"@ && "dock.filesystem"@.len() == 15);
    assert(specs[6].id@ == "dock.debugger"@ && "dock.debugger"@.len() == 13);
    assert(specs[7].id@ == "dock"@ && "dock"@.len() == 4);
    assert(specs[8].id@ == "foreign"@ && "foreign"@.len() == 7);
    assert(specs[9].id@ == "unknown"@ && "unknown"@.len() == 7);
    assert(specs[10].id@ == "panel"@ && "panel"@.len() == 5);
    surface::first_is_place_of(specs, "editor.nav"@, 0);
    surface::first_is_place_of(specs, "editor.insert"@, 1);
    surface::first_is_place_of(specs, "editor.completion"@, 2);
    surface::first_is_place_of(specs, "prompt"@, 3);
    surface::first_is_place_of(specs, "searchbox"@, 4);
    surface::first_is_place_of(specs, "dock.filesystem"@, 5);
    surface::first_is_place_of(specs, "dock.debugger"@, 6);
    surface::first_is_place_of(specs, "dock"@, 7);
    surface::first_is_place_of(specs, "foreign"@, 8);
    surface::first_is_place_of(specs, "unknown"@, 9);
    surface::first_is_place_of(specs, "panel"@, 10);
}

/// The declared paths: every surface but the two barriers and the popup's
/// reaches `panel`.
pub proof fn shipped_paths()
    ensures
        ({
            let specs = shipped_surfaces();
            &&& surface::path_of(specs, specs[0].id) == seq![specs[0].id, specs[10].id]
            &&& surface::path_of(specs, specs[1].id) == seq![specs[1].id]
            &&& surface::path_of(specs, specs[2].id) == seq![specs[2].id]
            &&& surface::path_of(specs, specs[3].id) == seq![specs[3].id, specs[10].id]
            &&& surface::path_of(specs, specs[4].id) == seq![specs[4].id, specs[10].id]
            &&& surface::path_of(specs, specs[5].id) == seq![
                specs[5].id,
                specs[7].id,
                specs[10].id,
            ]
            &&& surface::path_of(specs, specs[6].id) == seq![
                specs[6].id,
                specs[7].id,
                specs[10].id,
            ]
            &&& surface::path_of(specs, specs[7].id) == seq![specs[7].id, specs[10].id]
            &&& surface::path_of(specs, specs[8].id) == seq![specs[8].id]
            &&& surface::path_of(specs, specs[9].id) == seq![specs[9].id, specs[10].id]
            &&& surface::path_of(specs, specs[10].id) == seq![specs[10].id]
        }),
{
    shipped_places();
    let specs = shipped_surfaces();
    reveal_with_fuel(surface::climb, 5);
    assert(surface::path_of(specs, specs[0].id) =~= seq![specs[0].id, specs[10].id]);
    assert(surface::path_of(specs, specs[1].id) =~= seq![specs[1].id]);
    assert(surface::path_of(specs, specs[2].id) =~= seq![specs[2].id]);
    assert(surface::path_of(specs, specs[3].id) =~= seq![specs[3].id, specs[10].id]);
    assert(surface::path_of(specs, specs[4].id) =~= seq![specs[4].id, specs[10].id]);
    assert(surface::path_of(specs, specs[5].id) =~= seq![specs[5].id, specs[7].id, specs[10].id]);
    assert(surface::path_of(specs, specs[6].id) =~= seq![specs[6].id, specs[7].id, specs[10].id]);
    assert(surface::path_of(specs, specs[7].id) =~= seq![specs[7].id, specs[10].id]);
    assert(surface::path_of(specs, specs[8].id) =~= seq![specs[8].id]);
    assert(surface::path_of(specs, specs[9].id) =~= seq![specs[9].id, specs[10].id]);
    assert(surface::path_of(specs, specs[10].id) =~= seq![specs[10].id]);
}

/// The shipped forest audits clean.
pub proof fn shipped_forest_is_clean()
    ensures
        surface::audit_of(shipped_surfaces(), 11).len() == 0,
{
    shipped_places();
    shipped_paths();
    let specs = shipped_surfaces();
    assert forall|i: int| 0 <= i < 11 implies surface::errors_at(specs, i).len() == 0 by {
        let earlier = specs.take(i).map_values(|s: SurfaceSpec| s.id);
        assert forall|k: int| 0 <= k < earlier.len() implies (#[trigger] earlier[k])@
            != specs[i].id@ by {
            assert(earlier[k] == specs[k].id);
            surface::place_of_is_first(specs, specs[i].id@);
        }
    }
    reveal_with_fuel(surface::audit_of, 12);
}

/// Classification is total: some shipped surface claims every chain, and none
/// behind `unknown` does.
pub proof fn classification_is_total(chain: FocusChain)
    ensures
        surface::first_claim(shipped_surfaces(), chain) matches Some(at) && 0 <= at <= 9,
{
    let specs = shipped_surfaces();
    surface::first_claimant_wins(specs, chain);
    assert(specs[9].probe.claims(chain) is Some);
    if surface::first_claim(specs, chain) is None {
        surface::claim_is_listed(specs, chain, 9);
    }
}

/// The attached editor is `editor.nav` in a navigation mode or without a
/// controller, `editor.insert` in every other mode, and never anything else;
/// no other control is either.
pub proof fn the_editor_is_split_by_mode(chain: FocusChain)
    ensures
        ({
            let at = surface::first_claim(shipped_surfaces(), chain);
            &&& chain.editor_focused() == (at == Some(0int) || at == Some(1int))
            &&& at == Some(1int) ==> (chain.editor_mode matches Some(m) && !editor::is_nav(m))
            &&& at == Some(0int) ==> (chain.editor_mode matches Some(m) ==> editor::is_nav(m))
        }),
{
    let specs = shipped_surfaces();
    surface::first_claimant_wins(specs, chain);
    if chain.editor_focused() {
        let i: int = if specs[0].probe.claims(chain) is Some {
            0
        } else {
            1
        };
        assert(specs[0].probe.claims(chain) is Some || specs[1].probe.claims(chain) is Some);
        surface::claim_is_first(specs, chain, i);
    } else {
        assert(specs[0].probe.claims(chain) is None);
        assert(specs[1].probe.claims(chain) is None);
    }
}

/// A chain without a focus owner is `unknown`, and only there is the anchor
/// rootless.
pub proof fn only_unknown_is_rootless(chain: FocusChain)
    ensures
        ({
            let specs = shipped_surfaces();
            let at = surface::first_claim(specs, chain)->0;
            &&& !chain.has_focus() ==> at == 9
            &&& chain.has_focus() == (specs[at].probe.claims(chain) == Some(Anchor::Node(0)))
        }),
{
    classification_is_total(chain);
    let specs = shipped_surfaces();
    surface::first_claimant_wins(specs, chain);
    let at = surface::first_claim(specs, chain)->0;
    if !chain.has_focus() {
        assert(forall|j: int| 0 <= j < 9 ==> (#[trigger] specs[j]).probe.claims(chain) is None);
    }
}

/// File operations are offered exactly in the file system dock.
pub proof fn file_operations_mean_the_file_system_dock(
    chain: FocusChain,
    path: crate::surface::SurfacePath,
)
    requires
        ({
            let at = surface::first_claim(shipped_surfaces(), chain)->0;
            surface::is_path_at(shipped_surfaces(), chain, at, path)
        }),
    ensures
        path.caps.fileops == (surface::first_claim(shipped_surfaces(), chain) == Some(5int)),
{
    classification_is_total(chain);
    shipped_places();
    shipped_paths();
    let specs = shipped_surfaces();
    let at = surface::first_claim(specs, chain)->0;
    reveal_with_fuel(surface::with_grants, 5);
    let ids = path.ids@;
    assert(ids == surface::path_of(specs, specs[at].id));
    if ids.len() == 1 {
        assert(ids.drop_last() =~= Seq::empty());
    } else if ids.len() == 2 {
        assert(ids.drop_last().drop_last() =~= Seq::empty());
    } else {
        assert(ids.drop_last().drop_last().drop_last() =~= Seq::empty());
    }
}

/// A barrier ends the walk: the surfaces whose seal is a barrier are roots, so
/// no binding of another surface can be reached from them, and every other
/// surface that a chain classifies to reaches `panel`.
pub proof fn barriers_are_roots(chain: FocusChain)
    ensures
        ({
            let specs = shipped_surfaces();
            let at = surface::first_claim(specs, chain)->0;
            let path = surface::path_of(specs, specs[at].id);
            &&& (specs[at].seal == Seal::Barrier) == (path.len() == 1)
            &&& specs[at].seal != Seal::Barrier ==> path.last() == specs[10].id
            &&& path[0] == specs[at].id
        }),
{
    classification_is_total(chain);
    shipped_paths();
    let specs = shipped_surfaces();
    surface::first_claimant_wins(specs, chain);
    assert(specs[2].probe.claims(chain) is None);
}

/// Only the attached editor in a navigation mode yields a key to the engine,
/// and only the attached editor refuses the positional guess.
pub proof fn only_the_navigable_editor_yields(chain: FocusChain)
    ensures
        ({
            let specs = shipped_surfaces();
            let at = surface::first_claim(specs, chain)->0;
            &&& specs[at].yields_to_engine <==> at == 0
            &&& specs[at].refuses_positional <==> chain.editor_focused()
        }),
{
    classification_is_total(chain);
    the_editor_is_split_by_mode(chain);
}

/// Every verb the providers contribute, in provider order.
pub open spec fn contributed() -> Seq<ActionSpec> {
    completion::verbs() + debugger::verbs()
}

/// Every verb the providers contribute, in provider order.
pub fn actions() -> (r: Vec<ActionSpec>)
    ensures
        r@ == contributed(),
{
    let mut all = completion::actions();
    let mut own = debugger::actions();
    all.append(&mut own);
    all
}

/// Every contributed verb has a well-formed name.
pub proof fn contributed_ids_are_valid(i: int)
    requires
        0 <= i < contributed().len(),
    ensures
        action::is_action_id(contributed()[i].id@),
{
    let n = completion::verbs().len();
    if i < n {
        completion::verb_ids_are_valid(i);
    } else {
        debugger::verb_ids_are_valid(i - n);
    }
}

} // verus!
