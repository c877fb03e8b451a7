//! Which surface a focus chain is on, what its path is, and what it offers.

use vstd::prelude::*;
use crate::caps::Caps;
use crate::key::Mode;
use crate::providers;
use crate::surface;
use crate::surface::{
    Anchor, ChainNode, ClassMask, FocusChain, Probe, SurfaceId, SurfacePath, SurfaceSpec,
};
use crate::text;

verus! {

// ── Controls ──────────────────────────────────────────────────────────

/// A node is of a class where the recorded answers say so, each for its own
/// class, or where that is its class by name.
pub proof fn a_node_is_of_a_class_by_answer_or_by_name(node: ChainNode, class: Seq<char>)
    ensures
        node.spec_is(class) <==> {
            ||| text::compact_text(node.class) == class
            ||| class == "Tree"@ && node.classes.tree
            ||| class == "ItemList"@ && node.classes.item_list
            ||| class == "RichTextLabel"@ && node.classes.rich_text_label
            ||| class == "LineEdit"@ && node.classes.line_edit
            ||| class == "TextEdit"@ && node.classes.text_edit
            ||| class == "CodeEdit"@ && node.classes.code_edit
        },
{
    reveal_strlit("Tree");
    reveal_strlit("ItemList");
    reveal_strlit("RichTextLabel");
    reveal_strlit("LineEdit");
    reveal_strlit("TextEdit");
    reveal_strlit("CodeEdit");
    assert("ItemList"@[0] == 'I' && "LineEdit"@[0] == 'L' && "TextEdit"@[0] == 'T'
        && "CodeEdit"@[0] == 'C');
    assert("ItemList"@.len() == 8 && "RichTextLabel"@.len() == 13 && "Tree"@.len() == 4);
    assert("LineEdit"@.len() == 8 && "TextEdit"@.len() == 8 && "CodeEdit"@.len() == 8);
}

/// What a control offers by its classes: a tree, a list and a label can be
/// moved through; a tree has a hierarchy; the items of a tree and of a list can
/// be activated; a line edit and a text edit take text; and no control offers
/// file operations.
pub proof fn what_a_control_offers(classes: ClassMask)
    ensures
        ({
            let offered = classes.caps();
            &&& offered.vnav <==> classes.tree || classes.item_list || classes.rich_text_label
            &&& offered.hierarchy <==> classes.tree
            &&& offered.activate <==> classes.tree || classes.item_list
            &&& offered.textentry <==> classes.line_edit || classes.text_edit
            &&& !offered.fileops
        }),
{
}

/// Panel navigation wins over the engine in the modes that take no text: normal
/// mode, visual mode and after an operator.
pub proof fn navigation_wins_where_no_text_is_taken(mode: Mode)
    ensures
        match mode {
            Mode::Normal => providers::editor::is_nav(mode),
            Mode::Visual(_) => providers::editor::is_nav(mode),
            Mode::OperatorPending(_) => providers::editor::is_nav(mode),
            Mode::Insert => !providers::editor::is_nav(mode),
            Mode::Replace => !providers::editor::is_nav(mode),
            Mode::VirtualReplace => !providers::editor::is_nav(mode),
            Mode::CommandLine => !providers::editor::is_nav(mode),
            Mode::Select(_) => !providers::editor::is_nav(mode),
            Mode::Other(_) => !providers::editor::is_nav(mode),
        },
{
}

/// The nearest node of a class is of that class, and no node nearer to the focus
/// is; there is one exactly where any node is of the class.
pub proof fn the_nearest_is_the_first_of_its_class(chain: FocusChain, class: Seq<char>, i: int)
    ensures
        chain.is_nearest(class, i) ==> 0 <= i < chain.nodes@.len() && chain.nodes@[i].spec_is(class)
            && forall|j: int| 0 <= j < i ==> !(#[trigger] chain.nodes@[j]).spec_is(class),
        chain.is_nearest(class, i) ==> chain.has_ancestor(class),
        0 <= i < chain.nodes@.len() && chain.nodes@[i].spec_is(class) && (forall|j: int|
            0 <= j < i ==> !(#[trigger] chain.nodes@[j]).spec_is(class)) ==> chain.is_nearest(
            class,
            i,
        ),
{
    if chain.is_nearest(class, i) {
        assert(chain.nodes@[i].spec_is(class));
    }
}

// ── Classification ────────────────────────────────────────────────────

/// Whether the focused control is the editor that the plugin drives.
pub open spec fn in_the_editor(chain: FocusChain) -> bool {
    chain.nodes@.len() > 0 && chain.attached_editor == Some(chain.nodes@[0].instance)
}

/// Whether the editor is in a mode that takes no text, or has none.
pub open spec fn takes_no_text(chain: FocusChain) -> bool {
    chain.editor_mode matches Some(mode) ==> mode is Normal || mode is Visual
        || mode is OperatorPending
}

/// Whether the focused control is of a class, by name.
pub open spec fn focus_is_named(chain: FocusChain, class: Seq<char>) -> bool {
    text::compact_text(chain.nodes@[0].class) == class
}

/// Whether a node of the chain is the debugger dock.
pub open spec fn in_the_debugger(chain: FocusChain) -> bool {
    exists|i: int|
        0 <= i < chain.nodes@.len() && text::compact_text((#[trigger] chain.nodes@[i]).class)
            == "EditorDebuggerNode"@
}

/// The name of the surface that a chain is on: the attached editor by its mode,
/// then the plugin's own prompt, a filter box of a navigable control, the file
/// system dock, a tree of the debugger, any other control that can be moved
/// through, text that is none of the plugin's business, and whatever is left.
pub open spec fn surface_of(chain: FocusChain) -> Seq<char> {
    let classes = chain.nodes@[0].classes;
    let navigable = classes.tree || classes.item_list || classes.rich_text_label;
    let tree = classes.tree || focus_is_named(chain, "Tree"@);
    let line = classes.line_edit || focus_is_named(chain, "LineEdit"@);
    let edit = classes.text_edit || focus_is_named(chain, "TextEdit"@);
    if chain.nodes@.len() == 0 {
        "unknown"@
    } else if in_the_editor(chain) && takes_no_text(chain) {
        "editor.nav"@
    } else if in_the_editor(chain) {
        "editor.insert"@
    } else if chain.is_plugin_prompt {
        "prompt"@
    } else if line && chain.sibling_nav_control is Some {
        "searchbox"@
    } else if chain.in_filesystem_dock && navigable {
        "dock.filesystem"@
    } else if in_the_debugger(chain) && tree {
        "dock.debugger"@
    } else if navigable {
        "dock"@
    } else if edit || line {
        "foreign"@
    } else {
        "unknown"@
    }
}

proof fn debugger_is_an_ancestor(chain: FocusChain)
    ensures
        chain.has_ancestor("EditorDebuggerNode"@) == in_the_debugger(chain),
{
    reveal_strlit("EditorDebuggerNode");
    reveal_strlit("Tree");
    reveal_strlit("ItemList");
    reveal_strlit("RichTextLabel");
    reveal_strlit("LineEdit");
    reveal_strlit("TextEdit");
    reveal_strlit("CodeEdit");
    let class = "EditorDebuggerNode"@;
    assert(class.len() == 18);
    assert forall|i: int| 0 <= i < chain.nodes@.len() implies (#[trigger] chain.nodes@[i]).spec_is(
        class,
    ) == (text::compact_text(chain.nodes@[i].class) == class) by {
        a_node_is_of_a_class_by_answer_or_by_name(chain.nodes@[i], class);
    }
    if in_the_debugger(chain) {
        let i = choose|i: int|
            0 <= i < chain.nodes@.len() && text::compact_text((#[trigger] chain.nodes@[i]).class)
                == class;
        assert(chain.nodes@[i].spec_is(class));
    }
}

/// A chain is on the surface that its focused control and its surroundings say,
/// anchored at that control, or rootless where nothing has focus.
pub proof fn a_chain_is_on_its_surface(chain: FocusChain)
    ensures
        ({
            let specs = providers::shipped_surfaces();
            &&& surface::first_claim(specs, chain) matches Some(at) && 0 <= at < specs.len()
                && specs[at].id@ == surface_of(chain) && specs[at].probe.claims(chain) == Some(
                if chain.nodes@.len() > 0 {
                    Anchor::Node(0)
                } else {
                    Anchor::Rootless
                },
            )
        }),
{
    let specs = providers::shipped_surfaces();
    assert(specs.len() == 11);
    debugger_is_an_ancestor(chain);
    if chain.nodes@.len() > 0 {
        let node = chain.nodes@[0];
        a_node_is_of_a_class_by_answer_or_by_name(node, "Tree"@);
        a_node_is_of_a_class_by_answer_or_by_name(node, "LineEdit"@);
        a_node_is_of_a_class_by_answer_or_by_name(node, "TextEdit"@);
        what_a_control_offers(node.classes);
        vocabulary_of_claims();
    }
    let editor = in_the_editor(chain);
    let classes = chain.nodes@[0].classes;
    let navigable = classes.tree || classes.item_list || classes.rich_text_label;
    let tree = classes.tree || focus_is_named(chain, "Tree"@);
    let line = classes.line_edit || focus_is_named(chain, "LineEdit"@);
    let edit = classes.text_edit || focus_is_named(chain, "TextEdit"@);
    let i: int = if chain.nodes@.len() == 0 {
        9
    } else if editor && takes_no_text(chain) {
        0
    } else if editor {
        1
    } else if chain.is_plugin_prompt {
        3
    } else if line && chain.sibling_nav_control is Some {
        4
    } else if chain.in_filesystem_dock && navigable {
        5
    } else if in_the_debugger(chain) && tree {
        6
    } else if navigable {
        7
    } else if edit || line {
        8
    } else {
        9
    };
    assert(specs[0].probe == Probe::EditorNav && specs[1].probe == Probe::EditorInsert);
    assert(specs[2].probe == Probe::Never && specs[3].probe == Probe::Prompt);
    assert(specs[4].probe == Probe::SearchBox && specs[5].probe == Probe::FileSystem);
    assert(specs[6].probe == Probe::Debugger && specs[7].probe == Probe::Dock);
    assert(specs[8].probe == Probe::Foreign && specs[9].probe == Probe::Unknown);
    assert(specs[i].probe.claims(chain) is Some);
    assert forall|j: int| 0 <= j < i implies (#[trigger] specs[j]).probe.claims(chain) is None by {
        assert(j == 0 || j == 1 || j == 2 || j == 3 || j == 4 || j == 5 || j == 6 || j == 7 || j
            == 8);
    }
    surface::claim_is_first(specs, chain, i);
}

proof fn vocabulary_of_claims()
    ensures
        "LineEdit"@ != "Tree"@,
        "TextEdit"@ != "Tree"@,
        "TextEdit"@ != "LineEdit"@,
        "Tree"@ != "ItemList"@,
        "Tree"@ != "RichTextLabel"@,
        "Tree"@ != "CodeEdit"@,
        "LineEdit"@ != "ItemList"@,
        "LineEdit"@ != "RichTextLabel"@,
        "LineEdit"@ != "CodeEdit"@,
        "TextEdit"@ != "ItemList"@,
        "TextEdit"@ != "RichTextLabel"@,
        "TextEdit"@ != "CodeEdit"@,
{
    reveal_strlit("Tree");
    reveal_strlit("ItemList");
    reveal_strlit("RichTextLabel");
    reveal_strlit("LineEdit");
    reveal_strlit("TextEdit");
    reveal_strlit("CodeEdit");
    assert("ItemList"@[0] == 'I' && "LineEdit"@[0] == 'L' && "TextEdit"@[0] == 'T'
        && "CodeEdit"@[0] == 'C');
    assert("RichTextLabel"@.len() == 13 && "Tree"@.len() == 4);
    assert("ItemList"@.len() == 8 && "LineEdit"@.len() == 8 && "TextEdit"@.len() == 8
        && "CodeEdit"@.len() == 8);
}

/// What a chain classifies to is told by the surface that claims it: its seal,
/// whether it yields to the engine and whether it refuses the guess; the path
/// starts there and each surface on it is followed by its declared parent.
pub proof fn a_path_is_told_by_its_anchor(
    specs: Seq<SurfaceSpec>,
    chain: FocusChain,
    at: int,
    path: SurfacePath,
)
    requires
        0 <= at < specs.len(),
        surface::is_path_at(specs, chain, at, path),
    ensures
        path.seal == specs[at].seal,
        path.anchor_yields_to_engine == specs[at].yields_to_engine,
        path.anchor_refuses_positional == specs[at].refuses_positional,
        specs[at].probe.claims(chain) is Some ==> Some(path.anchor) == specs[at].probe.claims(
            chain,
        ),
        path.ids@.len() > 0 && path.ids@[0]@ == specs[at].id@,
        path.ids@.len() <= specs.len(),
        forall|k: int|
            0 <= k < path.ids@.len() - 1 ==> is_parent(
                specs,
                #[trigger] path.ids@[k],
                path.ids@[k + 1],
            ),
{
    surface::place_of_is_first(specs, specs[at].id@);
    a_path_climbs(specs, Some(specs[at].id), specs.len());
}

/// Whether a surface is declared with another as its parent.
pub open spec fn is_parent(specs: Seq<SurfaceSpec>, child: SurfaceId, parent: SurfaceId) -> bool {
    exists|i: int|
        {
            &&& 0 <= i < specs.len()
            &&& (#[trigger] specs[i]).id@ == child@
            &&& specs[i].parent matches Some(p) && p@ == parent@
        }
}

/// A declared path starts at the name it is asked from, each surface on it is
/// followed by its declared parent, and it ends where a surface has no declared
/// parent or all surfaces are used up.
pub proof fn a_path_climbs(specs: Seq<SurfaceSpec>, from: Option<SurfaceId>, fuel: nat)
    ensures
        ({
            let path = surface::climb(specs, from, fuel);
            &&& path.len() <= fuel
            &&& path.len() > 0 <==> fuel > 0 && (from matches Some(id) && surface::place_of(
                specs,
                id@,
            ) is Some)
            &&& path.len() > 0 ==> path[0]@ == from->0@
            &&& forall|k: int|
                0 <= k < path.len() - 1 ==> is_parent(specs, #[trigger] path[k], path[k + 1])
            &&& 0 < path.len() < fuel ==> {
                let last = specs[surface::place_of(specs, path.last()@)->0];
                last.parent matches Some(p) ==> surface::place_of(specs, p@) is None
            }
        }),
    decreases fuel,
{
    let path = surface::climb(specs, from, fuel);
    if fuel > 0 {
        if let Some(id) = from {
            surface::place_of_is_first(specs, id@);
            if let Some(i) = surface::place_of(specs, id@) {
                let rest = surface::climb(specs, specs[i].parent, (fuel - 1) as nat);
                a_path_climbs(specs, specs[i].parent, (fuel - 1) as nat);
                assert(path =~= seq![specs[i].id] + rest);
                surface::first_is_place_of(specs, specs[i].id@, i);
                assert forall|k: int| 0 <= k < path.len() - 1 implies is_parent(
                    specs,
                    #[trigger] path[k],
                    path[k + 1],
                ) by {
                    if k == 0 {
                        assert(path[1] == rest[0]);
                        assert(specs[i].id@ == path[0]@);
                    } else {
                        assert(path[k] == rest[k - 1] && path[k + 1] == rest[k]);
                    }
                }
                if rest.len() > 0 {
                    assert(path.last() == rest.last());
                } else {
                    assert(path.last() == specs[i].id);
                }
            }
        }
    }
}

/// Whether any surface of a path grants what `grants` looks for.
pub open spec fn is_granted(
    specs: Seq<SurfaceSpec>,
    path: Seq<SurfaceId>,
    grants: spec_fn(Caps) -> bool,
) -> bool {
    exists|k: int|
        0 <= k < path.len() && (surface::place_of(specs, (#[trigger] path[k])@) matches Some(i)
            && grants(specs[i].grants))
}

proof fn one_more_grants(
    specs: Seq<SurfaceSpec>,
    path: Seq<SurfaceId>,
    grants: spec_fn(Caps) -> bool,
)
    requires
        path.len() > 0,
    ensures
        is_granted(specs, path, grants) == (is_granted(specs, path.drop_last(), grants) || (
        surface::place_of(specs, path.last()@) matches Some(i) && grants(specs[i].grants))),
{
    let init = path.drop_last();
    if is_granted(specs, init, grants) {
        let k = choose|k: int|
            0 <= k < init.len() && (surface::place_of(specs, (#[trigger] init[k])@) matches Some(i)
                && grants(specs[i].grants));
        assert(path[k] == init[k]);
    }
    if is_granted(specs, path, grants) {
        let k = choose|k: int|
            0 <= k < path.len() && (surface::place_of(specs, (#[trigger] path[k])@) matches Some(i)
                && grants(specs[i].grants));
        if k < init.len() {
            assert(init[k] == path[k]);
        }
    }
    if surface::place_of(specs, path.last()@) matches Some(i) && grants(specs[i].grants) {
        assert(path[path.len() - 1] == path.last());
    }
}

/// A path offers what its control does and what any of its surfaces grants, and
/// nothing else.
pub proof fn a_path_offers_what_is_there_or_granted(
    specs: Seq<SurfaceSpec>,
    path: Seq<SurfaceId>,
    base: Caps,
)
    ensures
        ({
            let offered = surface::with_grants(specs, path, base);
            &&& offered.vnav <==> base.vnav || is_granted(specs, path, |c: Caps| c.vnav)
            &&& offered.hierarchy <==> base.hierarchy || is_granted(
                specs,
                path,
                |c: Caps| c.hierarchy,
            )
            &&& offered.activate <==> base.activate || is_granted(specs, path, |c: Caps| c.activate)
            &&& offered.textentry <==> base.textentry || is_granted(
                specs,
                path,
                |c: Caps| c.textentry,
            )
            &&& offered.fileops <==> base.fileops || is_granted(specs, path, |c: Caps| c.fileops)
        }),
    decreases path.len(),
{
    if path.len() > 0 {
        a_path_offers_what_is_there_or_granted(specs, path.drop_last(), base);
        one_more_grants(specs, path, |c: Caps| c.vnav);
        one_more_grants(specs, path, |c: Caps| c.hierarchy);
        one_more_grants(specs, path, |c: Caps| c.activate);
        one_more_grants(specs, path, |c: Caps| c.textentry);
        one_more_grants(specs, path, |c: Caps| c.fileops);
    }
}

/// A path of the shipped surfaces offers what the focused control does, and
/// file operations in the file system dock besides.
pub proof fn what_a_chain_offers(chain: FocusChain, path: SurfacePath)
    requires
        ({
            let at = surface::first_claim(providers::shipped_surfaces(), chain)->0;
            surface::is_path_at(providers::shipped_surfaces(), chain, at, path)
        }),
    ensures
        ({
            let focus = chain.nodes@.len() > 0;
            let classes = chain.nodes@[0].classes;
            &&& path.caps.vnav <==> focus && (classes.tree || classes.item_list
                || classes.rich_text_label)
            &&& path.caps.hierarchy <==> focus && classes.tree
            &&& path.caps.activate <==> focus && (classes.tree || classes.item_list)
            &&& path.caps.textentry <==> focus && (classes.line_edit || classes.text_edit)
            &&& path.caps.fileops <==> surface_of(chain) == "dock.filesystem"@
            &&& path.ids@[0]@ == surface_of(chain)
        }),
{
    let specs = providers::shipped_surfaces();
    a_chain_is_on_its_surface(chain);
    let at = surface::first_claim(specs, chain)->0;
    a_path_is_told_by_its_anchor(specs, chain, at, path);
    providers::file_operations_mean_the_file_system_dock(chain, path);
    providers::shipped_places();
    surface::place_of_is_first(specs, "dock.filesystem"@);
    if chain.nodes@.len() > 0 {
        what_a_control_offers(chain.nodes@[0].classes);
    }
    let base = surface::anchor_caps(chain, path.anchor);
    a_path_offers_what_is_there_or_granted(specs, path.ids@, base);
    assert forall|k: int| 0 <= k < path.ids@.len() implies (surface::place_of(
        specs,
        (#[trigger] path.ids@[k])@,
    ) matches Some(i) ==> {
        let granted = specs[i].grants;
        !granted.vnav && !granted.hierarchy && !granted.activate && !granted.textentry
    }) by {
        surface::place_of_is_first(specs, path.ids@[k]@);
        if let Some(i) = surface::place_of(specs, path.ids@[k]@) {
            what_the_shipped_surfaces_declare(i);
        }
    }
    if surface_of(chain) == "dock.filesystem"@ {
        assert(specs[at].id@ == "dock.filesystem"@);
        same_name_same_place(at, 5);
    }
}

proof fn same_name_same_place(i: int, j: int)
    requires
        0 <= i < 11,
        0 <= j < 11,
        providers::shipped_surfaces()[i].id@ == providers::shipped_surfaces()[j].id@,
    ensures
        i == j,
{
    providers::shipped_forest_is_clean();
    let specs = providers::shipped_surfaces();
    assert(specs.len() == 11);
    surface::clean_forest_is_a_forest(specs, i, j);
    surface::clean_forest_is_a_forest(specs, j, i);
}

/// What the shipped surfaces declare: the two text fields of the plugin and of
/// a dock are sealed, text that is not for the plugin is a barrier, and the rest
/// is open; only the file system dock grants anything, and only it has a hook;
/// only the editor yields to the engine and refuses the guess.
pub proof fn what_the_shipped_surfaces_declare(i: int)
    requires
        0 <= i < providers::shipped_surfaces().len(),
    ensures
        ({
            let spec = providers::shipped_surfaces()[i];
            let id = spec.id@;
            &&& spec.seal is Sealed <==> id == "prompt"@ || id == "searchbox"@
            &&& spec.seal is Barrier <==> id == "editor.insert"@ || id == "foreign"@
            &&& spec.on_key is Some <==> id == "dock.filesystem"@
            &&& spec.grants.fileops <==> id == "dock.filesystem"@
            &&& !spec.grants.vnav && !spec.grants.hierarchy && !spec.grants.activate
            &&& !spec.grants.textentry
            &&& spec.yields_to_engine <==> id == "editor.nav"@
            &&& spec.refuses_positional <==> id == "editor.nav"@ || id == "editor.insert"@
            &&& spec.parent is None <==> id == "panel"@ || id == "editor.insert"@ || id
                == "editor.completion"@ || id == "foreign"@
            &&& spec.parent matches Some(parent) ==> parent@ == if id == "dock.filesystem"@ || id
                == "dock.debugger"@ {
                "dock"@
            } else {
                "panel"@
            }
        }),
{
    providers::shipped_places();
    let specs = providers::shipped_surfaces();
    assert(specs.len() == 11);
    surface::place_of_is_first(specs, specs[i].id@);
    assert(specs[0].id@ == "editor.nav"@ && specs[1].id@ == "editor.insert"@);
    assert(specs[2].id@ == "editor.completion"@ && specs[3].id@ == "prompt"@);
    assert(specs[4].id@ == "searchbox"@ && specs[5].id@ == "dock.filesystem"@);
    assert(specs[6].id@ == "dock.debugger"@ && specs[7].id@ == "dock"@);
    assert(specs[8].id@ == "foreign"@ && specs[9].id@ == "unknown"@);
    assert(specs[10].id@ == "panel"@);
    assert(surface::place_of(specs, specs[i].id@) == Some(i));
}

// ── Claims ────────────────────────────────────────────────────────────

/// The claimants of a chain are the surfaces whose probe claims it, each with
/// where it does, and no other.
pub proof fn claimants_are_the_surfaces_that_claim(
    specs: Seq<SurfaceSpec>,
    chain: FocusChain,
    id: SurfaceId,
    anchor: Anchor,
)
    ensures
        surface::claimants_of(specs, chain).contains((id, anchor)) <==> exists|i: int|
            {
                &&& 0 <= i < specs.len()
                &&& (#[trigger] specs[i]).id == id
                &&& specs[i].probe.claims(chain) == Some(anchor)
            },
    decreases specs.len(),
{
    if specs.len() > 0 {
        let init = specs.drop_last();
        let before = surface::claimants_of(init, chain);
        let all = surface::claimants_of(specs, chain);
        claimants_are_the_surfaces_that_claim(init, chain, id, anchor);
        let last = specs.last();
        assert(specs[specs.len() - 1] == last);
        if before.contains((id, anchor)) {
            let k = choose|k: int| 0 <= k < before.len() && before[k] == (id, anchor);
            assert(all[k] == (id, anchor));
            let i = choose|i: int|
                {
                    &&& 0 <= i < init.len()
                    &&& (#[trigger] init[i]).id == id
                    &&& init[i].probe.claims(chain) == Some(anchor)
                };
            assert(specs[i] == init[i]);
        }
        if let Some(a) = last.probe.claims(chain) {
            assert(all == before.push((last.id, a)));
            assert(all[before.len() as int] == (last.id, a));
        }
        if all.contains((id, anchor)) && !before.contains((id, anchor)) {
            let k = choose|k: int| 0 <= k < all.len() && all[k] == (id, anchor);
            if k < before.len() {
                assert(before[k] == all[k]);
            }
            assert(last.id == id && last.probe.claims(chain) == Some(anchor));
        }
        if exists|i: int|
            {
                &&& 0 <= i < specs.len()
                &&& (#[trigger] specs[i]).id == id
                &&& specs[i].probe.claims(chain) == Some(anchor)
            } {
            let i = choose|i: int|
                {
                    &&& 0 <= i < specs.len()
                    &&& (#[trigger] specs[i]).id == id
                    &&& specs[i].probe.claims(chain) == Some(anchor)
                };
            if i < init.len() {
                assert(init[i] == specs[i]);
            }
        }
    }
}

// ── The audit ─────────────────────────────────────────────────────────

/// What the audit finds wrong with a declaration is told one by one, each with
/// the surface's name: that the name was declared before; that the parent is
/// not declared; that the path upward never ends; and that the parent is probed
/// first.
pub proof fn the_audit_tells_each_fault_of_a_surface(specs: Seq<SurfaceSpec>, i: int)
    requires
        0 <= i < specs.len(),
    ensures
        ({
            let errors = surface::errors_at(specs, i);
            let spec = specs[i];
            let twice = exists|j: int| 0 <= j < i && (#[trigger] specs[j]).id@ == spec.id@;
            let astray = spec.parent matches Some(parent) && surface::place_of(
                specs,
                parent@,
            ) is None;
            let endless = spec.parent matches Some(parent) && surface::place_of(
                specs,
                parent@,
            ) is Some && surface::never_ends(specs, spec.id);
            let late = spec.parent matches Some(parent) && (surface::place_of(
                specs,
                parent@,
            ) matches Some(at) && at < i);
            &&& errors.len() == (if twice {
                1int
            } else {
                0
            }) + (if astray {
                1int
            } else {
                0
            }) + (if endless {
                1int
            } else {
                0
            }) + (if late {
                1int
            } else {
                0
            })
            &&& forall|k: int|
                0 <= k < errors.len() ==> text::begins_with(
                    #[trigger] errors[k],
                    "surface '"@ + spec.id@ + "'"@,
                )
        }),
{
    let errors = surface::errors_at(specs, i);
    let spec = specs[i];
    let earlier = specs.take(i).map_values(|s: SurfaceSpec| s.id);
    if exists|j: int| 0 <= j < i && (#[trigger] specs[j]).id@ == spec.id@ {
        let j = choose|j: int| 0 <= j < i && (#[trigger] specs[j]).id@ == spec.id@;
        assert(earlier[j]@ == spec.id@);
    }
    if surface::on_path(earlier, spec.id@) {
        let j = choose|j: int| 0 <= j < earlier.len() && (#[trigger] earlier[j])@ == spec.id@;
        assert(specs[j].id@ == spec.id@);
    }
    reveal_strlit("' is declared twice");
    reveal_strlit("' names undeclared parent '");
    reveal_strlit("' lies on a parent cycle");
    reveal_strlit("' is probed after its parent '");
    begins_alike(spec.id@, "' is declared twice"@, Seq::empty());
    begins_alike(spec.id@, "' lies on a parent cycle"@, Seq::empty());
    if let Some(parent) = spec.parent {
        let a = "surface '"@ + spec.id@ + "' names undeclared parent '"@;
        begins_alike(spec.id@, "' names undeclared parent '"@, parent@ + "'"@);
        assert(a + parent@ + "'"@ =~= a + (parent@ + "'"@));
        let b = "surface '"@ + spec.id@ + "' is probed after its parent '"@;
        let rest = "'; the child would never match"@;
        begins_alike(spec.id@, "' is probed after its parent '"@, parent@ + rest);
        assert(b + parent@ + rest =~= b + (parent@ + rest));
    }
    assert("surface '"@ + spec.id@ + "' is declared twice"@ + Seq::<char>::empty()
        =~= "surface '"@ + spec.id@ + "' is declared twice"@);
    assert("surface '"@ + spec.id@ + "' lies on a parent cycle"@ + Seq::<char>::empty()
        =~= "surface '"@ + spec.id@ + "' lies on a parent cycle"@);
}

proof fn begins_alike(id: Seq<char>, words: Seq<char>, rest: Seq<char>)
    requires
        words.len() > 0,
        words[0] == '\'',
    ensures
        text::begins_with("surface '"@ + id + words + rest, "surface '"@ + id + "'"@),
{
    reveal_strlit("'");
    let start = "surface '"@ + id + "'"@;
    let whole = "surface '"@ + id + words + rest;
    assert(whole.take(start.len() as int) =~= start);
}

/// Every provider goes by a tag of its own, so a rule's owner tells which
/// provider installed it.
pub proof fn every_provider_has_its_own_tag(i: int, j: int)
    requires
        0 <= i < j < providers::shipped_providers().len(),
    ensures
        providers::shipped_providers()[i].tag@ != providers::shipped_providers()[j].tag@,
{
    reveal_strlit("godotvim.editor");
    reveal_strlit("godotvim.completion");
    reveal_strlit("godotvim.prompt");
    reveal_strlit("godotvim.searchbox");
    reveal_strlit("godotvim.filesystem");
    reveal_strlit("godotvim.debugger");
    reveal_strlit("godotvim.dock");
    reveal_strlit("godotvim.foreign");
    reveal_strlit("godotvim.unknown");
    reveal_strlit("godotvim.panel");
    let all = providers::shipped_providers();
    assert(all.len() == 10);
    assert("godotvim.editor"@[9] == 'e' && "godotvim.prompt"@[9] == 'p');
    assert("godotvim.completion"@[9] == 'c' && "godotvim.filesystem"@[9] == 'f');
    assert("godotvim.foreign"@[9] == 'f' && "godotvim.unknown"@[9] == 'u');
    assert(all[0].tag@ == "godotvim.editor"@ && all[0].tag@.len() == 15);
    assert(all[1].tag@ == "godotvim.completion"@ && all[1].tag@.len() == 19);
    assert(all[2].tag@ == "godotvim.prompt"@ && all[2].tag@.len() == 15);
    assert(all[3].tag@ == "godotvim.searchbox"@ && all[3].tag@.len() == 18);
    assert(all[4].tag@ == "godotvim.filesystem"@ && all[4].tag@.len() == 19);
    assert(all[5].tag@ == "godotvim.debugger"@ && all[5].tag@.len() == 17);
    assert(all[6].tag@ == "godotvim.dock"@ && all[6].tag@.len() == 13);
    assert(all[7].tag@ == "godotvim.foreign"@ && all[7].tag@.len() == 16);
    assert(all[8].tag@ == "godotvim.unknown"@ && all[8].tag@.len() == 16);
    assert(all[9].tag@ == "godotvim.panel"@ && all[9].tag@.len() == 14);
}

} // verus!
