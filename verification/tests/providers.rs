//! The shipped forest, over every shape of focus that the editor produces.

use action_plane::caps::Caps;
use action_plane::key::{Mode, Operator, VisualType};
use action_plane::providers::{actions, completion, debugger, forest, providers, surfaces};
use action_plane::specs::{registry, shipped_specs};
use action_plane::surface::{
    Anchor, ChainNode, ClassMask, FocusChain, Forest, InstanceId, Seal, SurfaceId,
};

// ── Focus chains ─────────────────────────────────────────────────────

fn node(class: &str, n: InstanceId, classes: ClassMask) -> ChainNode {
    ChainNode::new(class, class, n, classes)
}

fn tree(class: &str, n: InstanceId) -> ChainNode {
    node(class, n, ClassMask { tree: true, ..ClassMask::empty() })
}

fn item_list(class: &str, n: InstanceId) -> ChainNode {
    node(class, n, ClassMask { item_list: true, ..ClassMask::empty() })
}

fn rich_text(class: &str, n: InstanceId) -> ChainNode {
    node(class, n, ClassMask { rich_text_label: true, ..ClassMask::empty() })
}

fn line_edit(n: InstanceId) -> ChainNode {
    node("LineEdit", n, ClassMask { line_edit: true, ..ClassMask::empty() })
}

fn text_edit(n: InstanceId) -> ChainNode {
    node("TextEdit", n, ClassMask { text_edit: true, ..ClassMask::empty() })
}

/// A code editor, which answers for its base class too.
fn code_edit(n: InstanceId) -> ChainNode {
    let classes = ClassMask { code_edit: true, text_edit: true, ..ClassMask::empty() };
    node("CodeEdit", n, classes)
}

/// Anything the vocabulary does not recognize.
fn plain(class: &str, n: InstanceId) -> ChainNode {
    node(class, n, ClassMask::empty())
}

fn tree_caps() -> Caps {
    Caps::vnav().union(Caps::hierarchy()).union(Caps::activate())
}

fn list_caps() -> Caps {
    Caps::vnav().union(Caps::activate())
}

// ── The table of chains ──────────────────────────────────────────────

const NAV: &[SurfaceId] = &["editor.nav", "panel"];
const INSERT: &[SurfaceId] = &["editor.insert"];
const FOREIGN: &[SurfaceId] = &["foreign"];
const PROMPT: &[SurfaceId] = &["prompt", "panel"];
const SEARCH: &[SurfaceId] = &["searchbox", "panel"];
const FS: &[SurfaceId] = &["dock.filesystem", "dock", "panel"];
const DEBUGGER: &[SurfaceId] = &["dock.debugger", "dock", "panel"];
const DOCK: &[SurfaceId] = &["dock", "panel"];
const UNKNOWN: &[SurfaceId] = &["unknown", "panel"];

const ATTACHED: InstanceId = 7;

struct Case {
    what: &'static str,
    chain: FocusChain,
    ids: &'static [SurfaceId],
    caps: Caps,
    seal: Seal,
    anchor: Anchor,
}

fn editor_chain(mode: Option<Mode>) -> FocusChain {
    FocusChain {
        nodes: vec![
            code_edit(ATTACHED),
            plain("CodeTextEditor", 101),
            plain("ScriptTextEditor", 102),
        ],
        attached_editor: Some(ATTACHED),
        editor_mode: mode,
        ..Default::default()
    }
}

fn fs_chain(focus: ChainNode) -> FocusChain {
    FocusChain {
        nodes: vec![
            focus,
            plain("SplitContainer", 110),
            plain("VBoxContainer", 111),
            plain("FileSystemDock", 112),
        ],
        in_filesystem_dock: true,
        ..Default::default()
    }
}

fn dock_chain(focus: ChainNode, dock_class: &'static str) -> FocusChain {
    FocusChain {
        nodes: vec![focus, plain("VBoxContainer", 120), plain(dock_class, 121)],
        ..Default::default()
    }
}

fn debugger_chain(focus: ChainNode) -> FocusChain {
    FocusChain {
        nodes: vec![
            focus,
            plain("VBoxContainer", 190),
            plain("HSplitContainer", 191),
            plain("ScriptEditorDebugger", 192),
            plain("TabContainer", 193),
            plain("EditorDebuggerNode", 194),
        ],
        ..Default::default()
    }
}

fn golden() -> Vec<Case> {
    vec![
        // ── The attached CodeEdit, one case per mode ──────────────
        Case {
            what: "attached CodeEdit, no controller yet",
            chain: editor_chain(None),
            ids: NAV,
            caps: Caps::textentry(),
            seal: Seal::Open,
            anchor: Anchor::Node(0),
        },
        Case {
            what: "attached CodeEdit in Normal",
            chain: editor_chain(Some(Mode::Normal)),
            ids: NAV,
            caps: Caps::textentry(),
            seal: Seal::Open,
            anchor: Anchor::Node(0),
        },
        Case {
            what: "attached CodeEdit in Visual char",
            chain: editor_chain(Some(Mode::Visual(VisualType::Char))),
            ids: NAV,
            caps: Caps::textentry(),
            seal: Seal::Open,
            anchor: Anchor::Node(0),
        },
        Case {
            what: "attached CodeEdit in Visual line",
            chain: editor_chain(Some(Mode::Visual(VisualType::Line))),
            ids: NAV,
            caps: Caps::textentry(),
            seal: Seal::Open,
            anchor: Anchor::Node(0),
        },
        Case {
            what: "attached CodeEdit in Visual block",
            chain: editor_chain(Some(Mode::Visual(VisualType::Block))),
            ids: NAV,
            caps: Caps::textentry(),
            seal: Seal::Open,
            anchor: Anchor::Node(0),
        },
        Case {
            what: "attached CodeEdit in Operator-pending",
            chain: editor_chain(Some(Mode::OperatorPending(Operator::Delete))),
            ids: NAV,
            caps: Caps::textentry(),
            seal: Seal::Open,
            anchor: Anchor::Node(0),
        },
        Case {
            what: "attached CodeEdit in Insert — Ctrl+H is backspace",
            chain: editor_chain(Some(Mode::Insert)),
            ids: INSERT,
            caps: Caps::textentry(),
            seal: Seal::Barrier,
            anchor: Anchor::Node(0),
        },
        Case {
            what: "attached CodeEdit in Replace",
            chain: editor_chain(Some(Mode::Replace)),
            ids: INSERT,
            caps: Caps::textentry(),
            seal: Seal::Barrier,
            anchor: Anchor::Node(0),
        },
        Case {
            what: "attached CodeEdit in Virtual replace",
            chain: editor_chain(Some(Mode::VirtualReplace)),
            ids: INSERT,
            caps: Caps::textentry(),
            seal: Seal::Barrier,
            anchor: Anchor::Node(0),
        },
        Case {
            what: "attached CodeEdit on the command line",
            chain: editor_chain(Some(Mode::CommandLine)),
            ids: INSERT,
            caps: Caps::textentry(),
            seal: Seal::Barrier,
            anchor: Anchor::Node(0),
        },
        Case {
            what: "attached CodeEdit in Select — insert-like on purpose",
            chain: editor_chain(Some(Mode::Select(VisualType::Char))),
            ids: INSERT,
            caps: Caps::textentry(),
            seal: Seal::Barrier,
            anchor: Anchor::Node(0),
        },
        // ── Text inputs that are not ours ─────────────────────────
        Case {
            what: "a CodeEdit in an addon panel while ours is attached",
            chain: FocusChain {
                nodes: vec![code_edit(9), plain("AddonPanel", 130)],
                attached_editor: Some(ATTACHED),
                editor_mode: Some(Mode::Normal),
                ..Default::default()
            },
            ids: FOREIGN,
            caps: Caps::textentry(),
            seal: Seal::Barrier,
            anchor: Anchor::Node(0),
        },
        Case {
            what: "a CodeEdit with nothing attached at all",
            chain: FocusChain {
                nodes: vec![code_edit(9)],
                ..Default::default()
            },
            ids: FOREIGN,
            caps: Caps::textentry(),
            seal: Seal::Barrier,
            anchor: Anchor::Node(0),
        },
        Case {
            what: "a plain TextEdit",
            chain: FocusChain {
                nodes: vec![text_edit(131), plain("EditorPropertyText", 132)],
                ..Default::default()
            },
            ids: FOREIGN,
            caps: Caps::textentry(),
            seal: Seal::Barrier,
            anchor: Anchor::Node(0),
        },
        Case {
            what: "a Project Settings LineEdit — the Ctrl+hjkl hard stop",
            chain: FocusChain {
                nodes: vec![line_edit(133), plain("EditorSettingsDialog", 134)],
                ..Default::default()
            },
            ids: FOREIGN,
            caps: Caps::textentry(),
            seal: Seal::Barrier,
            anchor: Anchor::Node(0),
        },
        Case {
            what: "a TextEdit inside the FileSystem dock is still foreign",
            chain: fs_chain(text_edit(135)),
            ids: FOREIGN,
            caps: Caps::textentry(),
            seal: Seal::Barrier,
            anchor: Anchor::Node(0),
        },
        Case {
            what: "a TextEdit beside a nav control is foreign, not a filter box",
            chain: FocusChain {
                nodes: vec![text_edit(136)],
                sibling_nav_control: Some(137),
                ..Default::default()
            },
            ids: FOREIGN,
            caps: Caps::textentry(),
            seal: Seal::Barrier,
            anchor: Anchor::Node(0),
        },
        // ── The plugin's own prompt ───────────────────────────────
        Case {
            what: "FS create prompt, with a sibling nav control (today's shape)",
            chain: FocusChain {
                sibling_nav_control: Some(141),
                is_plugin_prompt: true,
                ..fs_chain(line_edit(140))
            },
            ids: PROMPT,
            caps: Caps::textentry(),
            seal: Seal::Sealed,
            anchor: Anchor::Node(0),
        },
        Case {
            what: "FS create prompt, with no sibling nav control",
            chain: FocusChain {
                is_plugin_prompt: true,
                ..fs_chain(line_edit(140))
            },
            ids: PROMPT,
            caps: Caps::textentry(),
            seal: Seal::Sealed,
            anchor: Anchor::Node(0),
        },
        Case {
            what: "FS prompt in a floated dock, outside the dock ancestry",
            chain: FocusChain {
                nodes: vec![line_edit(140), plain("Window", 142)],
                is_plugin_prompt: true,
                ..Default::default()
            },
            ids: PROMPT,
            caps: Caps::textentry(),
            seal: Seal::Sealed,
            anchor: Anchor::Node(0),
        },
        // ── Dock filter boxes ─────────────────────────────────────
        Case {
            what: "the FileSystem dock's own filter box",
            chain: FocusChain {
                sibling_nav_control: Some(151),
                ..fs_chain(line_edit(150))
            },
            ids: SEARCH,
            caps: Caps::textentry(),
            seal: Seal::Sealed,
            anchor: Anchor::Node(0),
        },
        Case {
            what: "the Scene tree dock's filter box",
            chain: FocusChain {
                sibling_nav_control: Some(153),
                ..dock_chain(line_edit(152), "SceneTreeDock")
            },
            ids: SEARCH,
            caps: Caps::textentry(),
            seal: Seal::Sealed,
            anchor: Anchor::Node(0),
        },
        Case {
            what: "the Inspector's property filter box",
            chain: FocusChain {
                sibling_nav_control: Some(155),
                ..dock_chain(line_edit(154), "InspectorDock")
            },
            ids: SEARCH,
            caps: Caps::textentry(),
            seal: Seal::Sealed,
            anchor: Anchor::Node(0),
        },
        // ── The FileSystem dock ───────────────────────────────────
        Case {
            what: "the FileSystem tree",
            chain: fs_chain(tree("FileSystemTree", 160)),
            ids: FS,
            caps: tree_caps().union(Caps::fileops()),
            seal: Seal::Open,
            anchor: Anchor::Node(0),
        },
        Case {
            what: "the FileSystem file list",
            chain: fs_chain(item_list("FileSystemList", 161)),
            ids: FS,
            caps: list_caps().union(Caps::fileops()),
            seal: Seal::Open,
            anchor: Anchor::Node(0),
        },
        Case {
            what: "a RichTextLabel inside the FileSystem dock",
            chain: fs_chain(rich_text("RichTextLabel", 162)),
            ids: FS,
            caps: Caps::vnav().union(Caps::fileops()),
            seal: Seal::Open,
            anchor: Anchor::Node(0),
        },
        // ── The debugger dock ─────────────────────────────────────
        Case {
            what: "the debugger's Stack Frames tree",
            chain: debugger_chain(tree("Tree", 195)),
            ids: DEBUGGER,
            caps: tree_caps(),
            seal: Seal::Open,
            anchor: Anchor::Node(0),
        },
        Case {
            what: "the debugger's Breakpoints tree — same class, same surface",
            chain: FocusChain {
                nodes: vec![
                    tree("Tree", 196),
                    plain("HSplitContainer", 197),
                    plain("ScriptEditorDebugger", 198),
                    plain("TabContainer", 199),
                    plain("EditorDebuggerNode", 200),
                ],
                ..Default::default()
            },
            ids: DEBUGGER,
            caps: tree_caps(),
            seal: Seal::Open,
            anchor: Anchor::Node(0),
        },
        Case {
            what: "the debugger's thread OptionButton — inside the dock, but not a Tree",
            chain: debugger_chain(plain("OptionButton", 201)),
            ids: UNKNOWN,
            caps: Caps::empty(),
            seal: Seal::Open,
            anchor: Anchor::Node(0),
        },
        Case {
            what: "the debugger's 'Filter Stack Variables' box is a filter box, not a debugger",
            chain: FocusChain {
                sibling_nav_control: Some(203),
                ..debugger_chain(line_edit(202))
            },
            ids: SEARCH,
            caps: Caps::textentry(),
            seal: Seal::Sealed,
            anchor: Anchor::Node(0),
        },
        Case {
            what: "the debugger's Errors tree is a debugger tree too",
            chain: debugger_chain(tree("Tree", 204)),
            ids: DEBUGGER,
            caps: tree_caps(),
            seal: Seal::Open,
            anchor: Anchor::Node(0),
        },
        // ── Every other dock ──────────────────────────────────────
        Case {
            what: "the Scene tree",
            chain: dock_chain(tree("SceneTreeEditor", 170), "SceneTreeDock"),
            ids: DOCK,
            caps: tree_caps(),
            seal: Seal::Open,
            anchor: Anchor::Node(0),
        },
        Case {
            what: "the Import dock's tree",
            chain: dock_chain(tree("Tree", 171), "ImportDock"),
            ids: DOCK,
            caps: tree_caps(),
            seal: Seal::Open,
            anchor: Anchor::Node(0),
        },
        Case {
            what: "the open-scripts list",
            chain: dock_chain(item_list("ItemList", 172), "ScriptEditor"),
            ids: DOCK,
            caps: list_caps(),
            seal: Seal::Open,
            anchor: Anchor::Node(0),
        },
        Case {
            what: "the built-in docs panel (EditorHelp class_desc)",
            chain: dock_chain(rich_text("RichTextLabel", 173), "EditorHelp"),
            ids: DOCK,
            caps: Caps::vnav(),
            seal: Seal::Open,
            anchor: Anchor::Node(0),
        },
        Case {
            what: "the Output log (EditorLog log)",
            chain: dock_chain(rich_text("RichTextLabel", 174), "EditorLog"),
            ids: DOCK,
            caps: Caps::vnav(),
            seal: Seal::Open,
            anchor: Anchor::Node(0),
        },
        Case {
            what:
                "a FileSystemTree that is NOT inside the dock — the fact decides, not the class",
            chain: dock_chain(tree("FileSystemTree", 175), "SomeAddonDock"),
            ids: DOCK,
            caps: tree_caps(),
            seal: Seal::Open,
            anchor: Anchor::Node(0),
        },
        Case {
            what: "a dock tree focused while an editor is attached elsewhere",
            chain: FocusChain {
                attached_editor: Some(ATTACHED),
                editor_mode: Some(Mode::Normal),
                ..dock_chain(tree("SceneTreeEditor", 176), "SceneTreeDock")
            },
            ids: DOCK,
            caps: tree_caps(),
            seal: Seal::Open,
            anchor: Anchor::Node(0),
        },
        Case {
            what: "a favorites ItemList in the FileSystem dock, dock ancestry only",
            chain: dock_chain(item_list("FileSystemList", 177), "SomeOtherDock"),
            ids: DOCK,
            caps: list_caps(),
            seal: Seal::Open,
            anchor: Anchor::Node(0),
        },
        // ── Everything else ───────────────────────────────────────
        Case {
            what: "a focused GraphEdit — no `graph` surface, and none needed",
            chain: dock_chain(plain("GraphEdit", 180), "VisualShaderEditor"),
            ids: UNKNOWN,
            caps: Caps::empty(),
            seal: Seal::Open,
            anchor: Anchor::Node(0),
        },
        Case {
            what: "a focused Button inside a dock",
            chain: dock_chain(plain("Button", 181), "SceneTreeDock"),
            ids: UNKNOWN,
            caps: Caps::empty(),
            seal: Seal::Open,
            anchor: Anchor::Node(0),
        },
        Case {
            what: "a focused Button inside the FileSystem dock — must NOT get FILEOPS",
            chain: fs_chain(plain("Button", 182)),
            ids: UNKNOWN,
            caps: Caps::empty(),
            seal: Seal::Open,
            anchor: Anchor::Node(0),
        },
        Case {
            what: "a focused OptionButton in the FileSystem dock toolbar",
            chain: fs_chain(plain("OptionButton", 183)),
            ids: UNKNOWN,
            caps: Caps::empty(),
            seal: Seal::Open,
            anchor: Anchor::Node(0),
        },
        Case {
            what: "a focused HSlider in an inspector row",
            chain: dock_chain(plain("HSlider", 184), "InspectorDock"),
            ids: UNKNOWN,
            caps: Caps::empty(),
            seal: Seal::Open,
            anchor: Anchor::Node(0),
        },
        Case {
            what: "a focused TabBar",
            chain: dock_chain(plain("TabBar", 185), "TabContainer"),
            ids: UNKNOWN,
            caps: Caps::empty(),
            seal: Seal::Open,
            anchor: Anchor::Node(0),
        },
        Case {
            what: "no focus owner at all",
            chain: FocusChain::default(),
            ids: UNKNOWN,
            caps: Caps::empty(),
            seal: Seal::Open,
            anchor: Anchor::Rootless,
        },
        Case {
            what: "no focus owner while an editor is attached and in Insert",
            chain: FocusChain {
                attached_editor: Some(ATTACHED),
                editor_mode: Some(Mode::Insert),
                ..Default::default()
            },
            ids: UNKNOWN,
            caps: Caps::empty(),
            seal: Seal::Open,
            anchor: Anchor::Rootless,
        },
        Case {
            what: "no focus owner with a stale in-dock flag",
            chain: FocusChain {
                in_filesystem_dock: true,
                ..Default::default()
            },
            ids: UNKNOWN,
            caps: Caps::empty(),
            seal: Seal::Open,
            anchor: Anchor::Rootless,
        },
    ]
}

#[test]
fn every_provider_verb_is_registered_and_namespaced_to_its_owner() {
    let registry = registry();
    for (tag, verbs) in [
        (completion::TAG, completion::actions()),
        (debugger::TAG, debugger::actions()),
    ] {
        for spec in verbs {
            assert!(
                registry.id_of(spec.id).is_some(),
                "'{}' is declared by '{}' but never registered",
                spec.id,
                tag
            );
            assert!(
                spec.id.starts_with(tag),
                "'{}' escapes its provider's namespace '{}'",
                spec.id,
                tag
            );
        }
    }
}

#[test]
fn no_two_providers_declare_the_same_verb() {
    let mut ids: Vec<&str> = actions().iter().map(|s| s.id).collect();
    ids.extend(shipped_specs().iter().map(|s| s.id));
    let total = ids.len();
    ids.sort_unstable();
    ids.dedup();
    assert_eq!(ids.len(), total, "duplicate action id across providers");
}

#[test]
fn the_golden_table_covers_every_declared_surface() {
    let forest = forest();
    let table = golden();
    assert!(table.len() >= 40, "table has only {} rows", table.len());
    for id in forest
        .ids()
        .into_iter()
        .filter(|id| *id != "panel" && *id != "editor.completion")
    {
        assert!(
            table.iter().any(|c| c.ids.first() == Some(&id)),
            "no golden fixture resolves to '{id}'"
        );
    }
}

#[test]
fn every_fixture_resolves_to_its_declared_path() {
    let forest = forest();
    for case in golden() {
        let path = forest
            .classify(&case.chain)
            .unwrap_or_else(|| panic!("'{}' classified to nothing", case.what));
        assert_eq!(path.ids, case.ids, "ids for '{}'", case.what);
        assert_eq!(path.caps, case.caps, "caps for '{}'", case.what);
        assert_eq!(path.seal, case.seal, "seal for '{}'", case.what);
        assert_eq!(path.anchor, case.anchor, "anchor for '{}'", case.what);
    }
}

#[test]
fn every_path_ends_at_a_root_and_only_barriers_skip_panel() {
    let forest = forest();
    for case in golden() {
        let path = forest.classify(&case.chain).expect("total");
        let ends_at_panel = path.ids.last() == Some(&"panel");
        match path.seal {
            Seal::Barrier => assert!(
                !ends_at_panel,
                "'{}' is a Barrier yet still reaches panel",
                case.what
            ),
            Seal::Open | Seal::Sealed => assert!(
                ends_at_panel,
                "'{}' cannot reach panel — Ctrl+hjkl would be lost",
                case.what
            ),
        }
    }
}

#[test]
fn only_the_editor_surface_yields_to_the_engine() {
    let forest = forest();
    for case in golden() {
        let path = forest.classify(&case.chain).expect("total");
        assert_eq!(
            path.anchor_yields_to_engine,
            case.ids.first() == Some(&"editor.nav"),
            "'{}' — arbitration is a property of the surface",
            case.what
        );
    }
}

#[test]
fn fileops_is_granted_by_exactly_one_surface() {
    let forest = forest();
    for case in golden() {
        let path = forest.classify(&case.chain).expect("total");
        assert_eq!(
            path.caps.satisfies(Caps::fileops()),
            path.ids.contains(&"dock.filesystem"),
            "'{}' — FILEOPS must track dock membership exactly",
            case.what
        );
    }
}

#[test]
fn only_the_catch_all_ever_anchors_rootless() {
    let forest = forest();
    for case in golden() {
        for (id, anchor) in forest.claimants(&case.chain) {
            if anchor == Anchor::Rootless {
                assert_eq!(id, "unknown", "'{}' anchored rootless at '{id}'", case.what);
            }
        }
    }
}

// ── Agreement with the plain class test ─────────────────────────────

#[derive(Debug, Clone, Copy, PartialEq, Eq)]
enum Role {
    Editor,
    Dock,
    SearchBox,
    Foreign,
    Unknown,
}

fn role_by_class(chain: &FocusChain) -> Role {
    let Some(node) = chain.focus() else {
        return Role::Unknown;
    };
    if node.is("CodeEdit") {
        if chain.attached_editor_focused() {
            return Role::Editor;
        }
        return Role::Foreign;
    }
    if node.is("Tree") || node.is("ItemList") || node.is("RichTextLabel") {
        return Role::Dock;
    }
    if node.is("LineEdit") {
        if chain.sibling_nav_control.is_some() {
            return Role::SearchBox;
        }
        return Role::Foreign;
    }
    if node.is("TextEdit") {
        return Role::Foreign;
    }
    Role::Unknown
}

fn role_of(surface: SurfaceId) -> Role {
    match surface {
        "editor.nav" | "editor.insert" => Role::Editor,
        "dock" | "dock.filesystem" | "dock.debugger" => Role::Dock,
        "searchbox" | "prompt" => Role::SearchBox,
        "foreign" => Role::Foreign,
        "unknown" => Role::Unknown,
        other => unreachable!("no role for surface '{other}'"),
    }
}

#[test]
fn the_new_classifier_agrees_with_classify_focus() {
    let forest = forest();
    for case in golden() {
        let path = forest.classify(&case.chain).expect("total");
        let new = role_of(path.ids[0]);
        let old = role_by_class(&case.chain);
        if new == old {
            continue;
        }
        assert!(
            case.chain.is_plugin_prompt && new == Role::SearchBox && old == Role::Foreign,
            "'{}' diverges: surface plane says {new:?}, the classes say {old:?}",
            case.what
        );
    }
}

// ── Who else claims a chain ─────────────────────────────────────────

const ORDERED_OVERRIDES: &[(SurfaceId, SurfaceId)] =
    &[("prompt", "searchbox"), ("prompt", "foreign")];

fn unrelated_overlaps() -> Vec<(SurfaceId, SurfaceId, &'static str)> {
    let forest = forest();
    let mut found = Vec::new();
    for case in golden() {
        let claimants: Vec<_> = forest
            .claimants(&case.chain)
            .into_iter()
            .map(|(id, _)| id)
            .filter(|id| *id != "unknown")
            .collect();
        for (i, a) in claimants.iter().enumerate() {
            for b in &claimants[i + 1..] {
                if !forest.is_ancestor_or_self(a, b) && !forest.is_ancestor_or_self(b, a) {
                    found.push((*a, *b, case.what));
                }
            }
        }
    }
    found
}

#[test]
fn no_two_unrelated_surfaces_claim_the_same_fixture() {
    for (a, b, what) in unrelated_overlaps() {
        assert!(
            ORDERED_OVERRIDES.contains(&(a, b)),
            "'{what}' is claimed by unrelated surfaces '{a}' and '{b}', \
             and that pair is not a documented ordered override"
        );
    }
}

#[test]
fn every_ordered_override_is_exercised_by_a_fixture() {
    let overlaps = unrelated_overlaps();
    for pair in ORDERED_OVERRIDES {
        assert!(
            overlaps.iter().any(|(a, b, _)| (*a, *b) == *pair),
            "ordered override {pair:?} is stale — no golden fixture produces it"
        );
    }
}

#[test]
fn the_first_claimant_is_always_the_winner() {
    let forest = forest();
    for case in golden() {
        let first = forest.claimants(&case.chain).first().copied();
        let path = forest.classify(&case.chain).expect("total");
        assert_eq!(first, Some((path.ids[0], path.anchor)), "'{}'", case.what);
    }
}

// ── The order of the probes ──────────────────────────────────────────

fn reordered(ids: &[SurfaceId]) -> Forest {
    let all = surfaces();
    assert_eq!(
        ids.len(),
        all.len(),
        "a reorder must keep every surface, or it proves nothing"
    );
    let specs: Vec<_> = ids
        .iter()
        .map(|id| {
            *all.iter()
                .find(|s| s.id == *id)
                .unwrap_or_else(|| panic!("no surface '{id}'"))
        })
        .collect();
    Forest::new(&specs)
}

const SHIPPED: &[SurfaceId] = &[
    "editor.nav",
    "editor.insert",
    "editor.completion",
    "prompt",
    "searchbox",
    "dock.filesystem",
    "dock.debugger",
    "dock",
    "foreign",
    "unknown",
    "panel",
];

#[test]
fn the_array_order_is_the_documented_order() {
    assert_eq!(
        providers().iter().map(|p| p.tag).collect::<Vec<_>>(),
        vec![
            "godotvim.editor",
            "godotvim.completion",
            "godotvim.prompt",
            "godotvim.searchbox",
            "godotvim.filesystem",
            "godotvim.debugger",
            "godotvim.dock",
            "godotvim.foreign",
            "godotvim.unknown",
            "godotvim.panel",
        ]
    );
    assert_eq!(surfaces().iter().map(|s| s.id).collect::<Vec<_>>(), SHIPPED);
}

#[test]
fn the_forest_audit_passes_on_the_shipped_order() {
    assert_eq!(forest().audit(), Vec::<String>::new());
}

#[test]
fn unknown_is_the_only_total_probe() {
    let forest = forest();
    let table = golden();
    for id in forest.ids() {
        let spec = forest.get(id).expect("declared");
        let claims = table
            .iter()
            .filter(|c| spec.probe.run(&c.chain).is_some())
            .count();
        if id == "unknown" {
            assert_eq!(claims, table.len(), "unknown must claim everything");
        } else {
            assert!(claims < table.len(), "'{id}' has a total probe too");
        }
    }
}

#[test]
fn nothing_probes_after_unknown() {
    let order = surfaces();
    let unknown_at = order
        .iter()
        .position(|s| s.id == "unknown")
        .expect("declared");
    for spec in &order[unknown_at + 1..] {
        for case in golden() {
            assert_eq!(
                spec.probe.run(&case.chain),
                None,
                "'{}' sits behind `unknown` and would never match '{}'",
                spec.id,
                case.what
            );
        }
    }
}

fn project_settings_line_edit() -> FocusChain {
    FocusChain {
        nodes: vec![line_edit(200), plain("EditorSettingsDialog", 201)],
        ..Default::default()
    }
}

#[test]
fn foreign_after_unknown_would_consume_ctrl_hjkl_in_project_settings() {
    let chain = project_settings_line_edit();

    let shipped = forest().classify(&chain).expect("total");
    assert_eq!(shipped.ids, vec!["foreign"]);
    assert_eq!(shipped.seal, Seal::Barrier, "dispatch stops before lookup");

    let broken = reordered(&[
        "editor.completion",
        "editor.nav",
        "editor.insert",
        "prompt",
        "searchbox",
        "dock.filesystem",
        "dock.debugger",
        "dock",
        "unknown",
        "foreign",
        "panel",
    ]);
    let wrong = broken.classify(&chain).expect("total");
    assert_eq!(wrong.ids, vec!["unknown", "panel"]);
    assert_eq!(wrong.seal, Seal::Open, "this is the regression");
}

#[test]
fn foreign_before_prompt_would_barrier_the_filesystem_prompt() {
    let chain = FocusChain {
        nodes: vec![line_edit(202), plain("HBoxContainer", 203)],
        is_plugin_prompt: true,
        ..Default::default()
    };

    let shipped = forest().classify(&chain).expect("total");
    assert_eq!(shipped.ids, vec!["prompt", "panel"]);
    assert_eq!(shipped.seal, Seal::Sealed);

    let broken = reordered(&[
        "editor.completion",
        "foreign",
        "editor.nav",
        "editor.insert",
        "prompt",
        "searchbox",
        "dock.filesystem",
        "dock.debugger",
        "dock",
        "unknown",
        "panel",
    ]);
    let wrong = broken.classify(&chain).expect("total");
    assert_eq!(wrong.ids, vec!["foreign"]);
    assert_eq!(wrong.seal, Seal::Barrier, "this is the regression");
}

#[test]
fn searchbox_before_prompt_would_route_escape_to_the_wrong_verb() {
    let chain = FocusChain {
        nodes: vec![line_edit(204), plain("HBoxContainer", 205)],
        sibling_nav_control: Some(206),
        is_plugin_prompt: true,
        ..Default::default()
    };

    assert_eq!(
        forest().classify(&chain).expect("total").ids,
        vec!["prompt", "panel"]
    );

    let broken = reordered(&[
        "editor.completion",
        "editor.nav",
        "editor.insert",
        "searchbox",
        "prompt",
        "dock.filesystem",
        "dock.debugger",
        "dock",
        "foreign",
        "unknown",
        "panel",
    ]);
    assert_eq!(
        broken.classify(&chain).expect("total").ids,
        vec!["searchbox", "panel"],
        "this is the regression"
    );
}

#[test]
fn dock_before_dock_filesystem_would_kill_the_filesystem_keyset() {
    let chain = fs_chain(tree("FileSystemTree", 207));

    let shipped = forest().classify(&chain).expect("total");
    assert!(shipped.caps.satisfies(Caps::fileops()));

    let broken = reordered(&[
        "editor.completion",
        "editor.nav",
        "editor.insert",
        "prompt",
        "searchbox",
        "dock.debugger",
        "dock",
        "dock.filesystem",
        "foreign",
        "unknown",
        "panel",
    ]);
    let wrong = broken.classify(&chain).expect("total");
    assert_eq!(wrong.ids, vec!["dock", "panel"]);
    assert!(
        !wrong.caps.satisfies(Caps::fileops()),
        "every godotvim.fs.* binding would be capability-gated out"
    );
    assert!(broken.audit().iter().any(|e| e.contains("dock.filesystem")));
}

#[test]
fn dock_before_dock_debugger_would_kill_the_debugger_keyset() {
    let chain = debugger_chain(tree("Tree", 208));

    let shipped = forest().classify(&chain).expect("total");
    assert_eq!(shipped.ids, vec!["dock.debugger", "dock", "panel"]);

    let broken = reordered(&[
        "editor.completion",
        "editor.nav",
        "editor.insert",
        "prompt",
        "searchbox",
        "dock.filesystem",
        "dock",
        "dock.debugger",
        "foreign",
        "unknown",
        "panel",
    ]);
    let wrong = broken.classify(&chain).expect("total");
    assert_eq!(wrong.ids, vec!["dock", "panel"], "this is the regression");
    assert!(broken.audit().iter().any(|e| e.contains("dock.debugger")));
}

#[test]
fn editor_after_unknown_would_leak_ctrl_hjkl_into_insert_mode() {
    let chain = editor_chain(Some(Mode::Insert));

    assert_eq!(
        forest().classify(&chain).expect("total").seal,
        Seal::Barrier
    );

    let broken = reordered(&[
        "editor.completion",
        "prompt",
        "searchbox",
        "dock.filesystem",
        "dock.debugger",
        "dock",
        "foreign",
        "unknown",
        "editor.nav",
        "editor.insert",
        "panel",
    ]);
    let wrong = broken.classify(&chain).expect("total");
    assert_eq!(wrong.ids, vec!["unknown", "panel"]);
    assert_eq!(
        wrong.seal,
        Seal::Open,
        "Ctrl+H would stop being backspace mid-word"
    );
}
