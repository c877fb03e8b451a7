//! The focus chain, the forest, and where each provider's probe anchors.

use action_plane::action::Params;
use action_plane::caps::Caps;
use action_plane::key::{Mode, Operator, VisualType};
use action_plane::ports::{ActionCtx, HostCall};
use action_plane::providers::dock::dock;
use action_plane::providers::editor::{editor_insert, editor_nav};
use action_plane::providers::filesystem::dock_filesystem;
use action_plane::providers::foreign::foreign;
use action_plane::providers::panel::panel;
use action_plane::providers::prompt::prompt;
use action_plane::providers::searchbox::searchbox;
use action_plane::providers::unknown::unknown;
use action_plane::scripted::{ScriptedPanel, ScriptedPopup};
use action_plane::surface::{
    Anchor, ChainNode, ClassMask, FocusChain, Forest, InstanceId, Probe, Seal, SurfaceSpec,
};

// ── Fixtures ─────────────────────────────────────────────────────────

fn node(class: &str, n: InstanceId, classes: ClassMask) -> ChainNode {
    ChainNode::new(class, class, n, classes)
}

fn tree(class: &str, n: InstanceId) -> ChainNode {
    node(class, n, ClassMask { tree: true, ..ClassMask::empty() })
}

fn item_list(class: &str, n: InstanceId) -> ChainNode {
    node(class, n, ClassMask { item_list: true, ..ClassMask::empty() })
}

fn rich_text(class: &str, n: InstanceId) -> ChainNode {
    node(class, n, ClassMask { rich_text_label: true, ..ClassMask::empty() })
}

fn line_edit(n: InstanceId) -> ChainNode {
    node("LineEdit", n, ClassMask { line_edit: true, ..ClassMask::empty() })
}

fn text_edit(n: InstanceId) -> ChainNode {
    node("TextEdit", n, ClassMask { text_edit: true, ..ClassMask::empty() })
}

/// A code editor, which answers for its base class too.
fn code_edit(n: InstanceId) -> ChainNode {
    let classes = ClassMask { code_edit: true, text_edit: true, ..ClassMask::empty() };
    node("CodeEdit", n, classes)
}

/// Anything the vocabulary does not recognize.
fn plain(class: &str, n: InstanceId) -> ChainNode {
    node(class, n, ClassMask::empty())
}

fn no_focus_owner() -> FocusChain {
    FocusChain::default()
}

fn focused(nodes: Vec<ChainNode>) -> FocusChain {
    FocusChain { nodes, ..Default::default() }
}

// ── The recorded class vocabulary ────────────────────────────────────

#[test]
fn a_subclass_answers_its_base_class() {
    let fs_tree = tree("FileSystemTree", 1);
    assert!(fs_tree.is("Tree"));
    assert!(fs_tree.is("FileSystemTree"), "concrete name still matches");
    assert!(!fs_tree.is("ItemList"));
}

#[test]
fn an_unsampled_class_answers_false_rather_than_guessing() {
    let button = plain("Button", 1);
    assert!(!button.is("Tree"));
    assert!(button.is("Button"), "the concrete name is always available");
}

#[test]
fn a_code_edit_answers_text_edit() {
    let ce = code_edit(1);
    assert!(ce.is("CodeEdit"));
    assert!(ce.is("TextEdit"));
}

#[test]
fn widget_caps_come_from_caps_of_control() {
    assert_eq!(
        tree("Tree", 1).widget_caps(),
        Caps::vnav().union(Caps::hierarchy()).union(Caps::activate())
    );
    assert_eq!(
        item_list("ItemList", 1).widget_caps(),
        Caps::vnav().union(Caps::activate())
    );
    assert_eq!(rich_text("RichTextLabel", 1).widget_caps(), Caps::vnav());
    assert_eq!(line_edit(1).widget_caps(), Caps::textentry());
    assert_eq!(code_edit(1).widget_caps(), Caps::textentry());
    assert_eq!(plain("GraphEdit", 1).widget_caps(), Caps::empty());
}

#[test]
fn class_mask_of_asks_every_question_once() {
    let mask = ClassMask::of(|c: &str| ["CodeEdit", "TextEdit", "Control"].contains(&c));
    assert_eq!(
        mask,
        ClassMask { code_edit: true, text_edit: true, ..ClassMask::empty() }
    );
    assert!(mask.answers("TextEdit"));
    assert!(!mask.answers("Control"), "outside the vocabulary");
}

// ── Chain accessors ──────────────────────────────────────────────────

#[test]
fn an_empty_chain_has_no_focus_and_no_caps() {
    let chain = no_focus_owner();
    assert!(chain.focus().is_none());
    assert!(!chain.focus_is("Tree"));
    assert!(!chain.attached_editor_focused());
    assert_eq!(chain.widget_caps(), Caps::empty());
}

#[test]
fn ancestors_are_searchable_by_concrete_class() {
    let chain = focused(vec![
        tree("FileSystemTree", 1),
        plain("SplitContainer", 2),
        plain("FileSystemDock", 3),
    ]);
    assert_eq!(chain.index_of_ancestor("FileSystemDock"), Some(2));
    assert_eq!(chain.index_of_ancestor("EditorDebuggerNode"), None);
    // The focus owner counts as its own ancestor for this query.
    assert_eq!(chain.index_of_ancestor("Tree"), Some(0));
}

#[test]
fn attachment_is_instance_identity_not_class_identity() {
    let ours = FocusChain {
        nodes: vec![code_edit(7)],
        attached_editor: Some(7),
        ..Default::default()
    };
    let theirs = FocusChain {
        nodes: vec![code_edit(9)],
        attached_editor: Some(7),
        ..Default::default()
    };
    assert!(ours.attached_editor_focused());
    assert!(!theirs.attached_editor_focused());
}

#[test]
fn a_sampled_chain_knows_the_prompt_by_its_instance() {
    let ours = FocusChain::sample(vec![line_edit(4)], None, None, true, None, Some(4));
    assert!(ours.is_plugin_prompt);
    let other = FocusChain::sample(vec![line_edit(5)], None, None, true, None, Some(4));
    assert!(!other.is_plugin_prompt);
    let nothing = FocusChain::sample(Vec::new(), None, None, false, None, Some(4));
    assert!(!nothing.is_plugin_prompt);
}

// ── The forest ───────────────────────────────────────────────────────

fn root() -> SurfaceSpec {
    SurfaceSpec {
        id: "t.root",
        parent: None,
        seal: Seal::Open,
        grants: Caps::empty(),
        probe: Probe::Never,
        on_key: None,
        yields_to_engine: false,
        refuses_positional: false,
    }
}

fn child() -> SurfaceSpec {
    SurfaceSpec {
        id: "t.child",
        parent: Some("t.root"),
        grants: Caps::vnav(),
        probe: Probe::Focused,
        ..root()
    }
}

fn orphan() -> SurfaceSpec {
    SurfaceSpec { id: "t.orphan", parent: Some("t.nowhere"), ..root() }
}

#[test]
fn a_path_is_deepest_first_and_ends_at_a_root() {
    let forest = Forest::new(&[child(), root()]);
    assert_eq!(forest.path_from("t.child"), vec!["t.child", "t.root"]);
    assert_eq!(forest.path_from("t.root"), vec!["t.root"]);
    assert!(forest.is_ancestor_or_self("t.root", "t.child"));
    assert!(forest.is_ancestor_or_self("t.child", "t.child"));
    assert!(!forest.is_ancestor_or_self("t.child", "t.root"));
}

#[test]
fn an_unknown_leaf_yields_an_empty_path_rather_than_panicking() {
    let forest = Forest::new(&[child(), root()]);
    assert!(forest.path_from("t.nope").is_empty());
    assert!(forest.get("t.nope").is_none());
}

#[test]
fn a_cycle_of_parents_ends_rather_than_looping() {
    let a = SurfaceSpec { id: "t.a", parent: Some("t.b"), ..root() };
    let b = SurfaceSpec { id: "t.b", parent: Some("t.a"), ..root() };
    let forest = Forest::new(&[a, b]);
    assert!(!forest.path_from("t.a").is_empty());
    assert!(!forest.audit().is_empty());
}

#[test]
fn classification_unions_widget_caps_with_every_grant_on_the_path() {
    let forest = Forest::new(&[child(), root()]);
    let path = forest
        .classify(&focused(vec![line_edit(1)]))
        .expect("child claims any focus");
    assert_eq!(path.ids, vec!["t.child", "t.root"]);
    // TEXTENTRY from the widget, VNAV from the surface's grant.
    assert_eq!(path.caps, Caps::textentry().union(Caps::vnav()));
}

#[test]
fn a_forest_with_no_total_probe_can_fail_to_classify() {
    let forest = Forest::new(&[root()]);
    assert!(forest.classify(&no_focus_owner()).is_none());
}

#[test]
fn the_audit_names_an_undeclared_parent() {
    let errors = Forest::new(&[orphan(), root()]).audit();
    assert_eq!(errors.len(), 1, "{errors:?}");
    assert!(errors[0].contains("undeclared parent"), "{errors:?}");
}

#[test]
fn the_audit_names_a_duplicate_declaration() {
    let errors = Forest::new(&[child(), child(), root()]).audit();
    assert!(
        errors.iter().any(|e| e.contains("declared twice")),
        "{errors:?}"
    );
}

#[test]
fn the_audit_is_clean_where_every_parent_comes_after_its_child() {
    assert_eq!(Forest::new(&[child(), root()]).audit(), Vec::<String>::new());
    assert_eq!(Forest::new(&[root()]).audit(), Vec::<String>::new());
    assert_eq!(Forest::new(&[]).audit(), Vec::<String>::new());
}

#[test]
fn the_audit_rejects_an_ancestor_probed_before_its_descendant() {
    let errors = Forest::new(&[root(), child()]).audit();
    assert!(
        errors.iter().any(|e| e.contains("probed after its parent")),
        "{errors:?}"
    );
}

// ── dock ─────────────────────────────────────────────────────────────

fn in_dock(focus: ChainNode) -> FocusChain {
    focused(vec![focus, plain("VBoxContainer", 99), plain("SceneTreeDock", 100)])
}

#[test]
fn all_three_navigable_widgets_are_docks() {
    for focus in [
        tree("Tree", 1),
        item_list("ItemList", 2),
        rich_text("RichTextLabel", 3),
    ] {
        assert_eq!(dock().probe.run(&in_dock(focus)), Some(Anchor::Node(0)));
    }
}

#[test]
fn subclasses_are_docks_too() {
    for focus in [tree("FileSystemTree", 1), item_list("FileSystemList", 2)] {
        assert_eq!(dock().probe.run(&in_dock(focus)), Some(Anchor::Node(0)));
    }
}

#[test]
fn a_focused_button_inside_a_dock_is_not_a_dock() {
    assert_eq!(dock().probe.run(&in_dock(plain("Button", 4))), None);
}

#[test]
fn text_inputs_and_graph_edits_are_not_docks() {
    for focus in [line_edit(5), text_edit(6), code_edit(7), plain("GraphEdit", 8)] {
        assert_eq!(dock().probe.run(&in_dock(focus)), None);
    }
}

#[test]
fn no_focus_owner_is_not_a_dock() {
    assert_eq!(dock().probe.run(&no_focus_owner()), None);
}

// ── editor ───────────────────────────────────────────────────────────

const ATTACHED: InstanceId = 7;

fn editor(mode: Option<Mode>) -> FocusChain {
    FocusChain {
        nodes: vec![code_edit(ATTACHED), plain("CodeTextEditor", 8)],
        attached_editor: Some(ATTACHED),
        editor_mode: mode,
        ..Default::default()
    }
}

/// Every mode, with one payload per payload-carrying variant.
fn every_mode() -> Vec<Mode> {
    let mut modes = vec![
        Mode::Normal,
        Mode::Insert,
        Mode::Replace,
        Mode::VirtualReplace,
        Mode::CommandLine,
        Mode::Other(0),
    ];
    for vt in [VisualType::Char, VisualType::Line, VisualType::Block] {
        modes.push(Mode::Visual(vt));
        modes.push(Mode::Select(vt));
    }
    for op in [Operator::Delete, Operator::Change, Operator::Yank] {
        modes.push(Mode::OperatorPending(op));
    }
    modes
}

#[test]
fn navigation_modes_anchor_at_editor_nav() {
    for mode in [
        Mode::Normal,
        Mode::Visual(VisualType::Char),
        Mode::Visual(VisualType::Line),
        Mode::Visual(VisualType::Block),
        Mode::OperatorPending(Operator::Delete),
    ] {
        assert_eq!(
            editor_nav().probe.run(&editor(Some(mode))),
            Some(Anchor::Node(0)),
            "{mode:?}"
        );
        assert_eq!(editor_insert().probe.run(&editor(Some(mode))), None, "{mode:?}");
    }
}

#[test]
fn insert_like_modes_anchor_at_the_barrier() {
    for mode in [
        Mode::Insert,
        Mode::Replace,
        Mode::VirtualReplace,
        Mode::CommandLine,
        Mode::Select(VisualType::Char),
    ] {
        assert_eq!(
            editor_insert().probe.run(&editor(Some(mode))),
            Some(Anchor::Node(0)),
            "{mode:?}"
        );
        assert_eq!(editor_nav().probe.run(&editor(Some(mode))), None, "{mode:?}");
    }
}

#[test]
fn select_mode_is_insert_like() {
    // A visual mode by name, but typing replaces the selection.
    for vt in [VisualType::Char, VisualType::Line, VisualType::Block] {
        assert_eq!(
            editor_insert().probe.run(&editor(Some(Mode::Select(vt)))),
            Some(Anchor::Node(0))
        );
    }
}

#[test]
fn editor_no_controller_means_intercept() {
    assert_eq!(editor_nav().probe.run(&editor(None)), Some(Anchor::Node(0)));
    assert_eq!(editor_insert().probe.run(&editor(None)), None);
}

#[test]
fn exactly_one_editor_surface_claims_any_mode() {
    for mode in every_mode().into_iter().map(Some).chain([None]) {
        let chain = editor(mode);
        let nav = editor_nav().probe.run(&chain).is_some();
        let ins = editor_insert().probe.run(&chain).is_some();
        assert!(nav ^ ins, "mode {mode:?} claimed by nav={nav} insert={ins}");
    }
}

#[test]
fn a_code_edit_that_is_not_ours_is_neither() {
    let theirs = FocusChain {
        nodes: vec![code_edit(9)],
        attached_editor: Some(ATTACHED),
        editor_mode: Some(Mode::Normal),
        ..Default::default()
    };
    assert_eq!(editor_nav().probe.run(&theirs), None);
    assert_eq!(editor_insert().probe.run(&theirs), None);
}

#[test]
fn with_nothing_attached_no_editor_surface_claims() {
    let unattached = FocusChain {
        nodes: vec![code_edit(9)],
        attached_editor: None,
        editor_mode: Some(Mode::Normal),
        ..Default::default()
    };
    assert_eq!(editor_nav().probe.run(&unattached), None);
    assert_eq!(editor_insert().probe.run(&unattached), None);
}

#[test]
fn the_barrier_is_a_root_and_the_navigable_surface_is_not() {
    assert_eq!(editor_insert().parent, None);
    assert_eq!(editor_insert().seal, Seal::Barrier);
    assert_eq!(editor_nav().parent, Some("panel"));
    assert_eq!(editor_nav().seal, Seal::Open);
}

#[test]
fn only_editor_nav_yields_to_the_engine() {
    assert!(editor_nav().yields_to_engine);
    assert!(!editor_insert().yields_to_engine);
}

// ── dock.filesystem ──────────────────────────────────────────────────

fn in_fs_dock(focus: ChainNode) -> FocusChain {
    FocusChain {
        nodes: vec![focus, plain("SplitContainer", 60), plain("FileSystemDock", 61)],
        in_filesystem_dock: true,
        ..Default::default()
    }
}

#[test]
fn the_filesystem_tree_and_list_both_anchor_here() {
    for focus in [tree("FileSystemTree", 1), item_list("FileSystemList", 2)] {
        assert_eq!(
            dock_filesystem().probe.run(&in_fs_dock(focus)),
            Some(Anchor::Node(0))
        );
    }
}

#[test]
fn the_same_widget_outside_the_dock_does_not() {
    let elsewhere = focused(vec![tree("SceneTreeEditor", 1), plain("SceneTreeDock", 62)]);
    assert_eq!(dock_filesystem().probe.run(&elsewhere), None);
}

#[test]
fn a_button_inside_the_filesystem_dock_does_not_get_fileops() {
    assert_eq!(dock_filesystem().probe.run(&in_fs_dock(plain("Button", 3))), None);
    assert_eq!(dock_filesystem().probe.run(&in_fs_dock(line_edit(4))), None);
}

#[test]
fn the_surface_grants_fileops_and_the_widget_never_does() {
    let chain = in_fs_dock(tree("FileSystemTree", 1));
    assert_eq!(dock_filesystem().grants, Caps::fileops());
    assert!(
        !chain.widget_caps().satisfies(Caps::fileops()),
        "FILEOPS is dock membership, not a widget affordance"
    );
}

/// An explorer with a prompt that can go stale.
struct Explorer {
    prompt: bool,
}

impl Explorer {
    fn perform(&mut self, call: Option<HostCall>) {
        if call == Some(HostCall::PromptTick) {
            self.prompt = false;
        }
    }
}

fn hook_call(explorer: bool) -> Option<HostCall> {
    let mut cx: ActionCtx<ScriptedPanel, ScriptedPopup> =
        ActionCtx::new(None, Params::new());
    cx.explorer = explorer;
    dock_filesystem()
        .on_key
        .expect("dock.filesystem declares the one shipped hook")
        .run(&cx)
}

#[test]
fn the_on_key_hook_dismisses_a_stale_prompt_through_the_ctx() {
    let mut fs = Explorer { prompt: true };
    fs.perform(hook_call(true));
    assert!(!fs.prompt, "the hook must dismiss the orphaned prompt");
}

#[test]
fn the_on_key_hook_is_idempotent_and_needs_no_prompt() {
    let mut fs = Explorer { prompt: false };
    for _ in 0..3 {
        fs.perform(hook_call(true));
    }
    assert!(!fs.prompt);
}

#[test]
fn the_on_key_hook_declines_a_transport_that_lends_no_explorer() {
    assert_eq!(hook_call(false), None);
}

#[test]
fn filesystem_it_is_declared_deeper_than_the_generic_dock() {
    assert_eq!(dock_filesystem().parent, Some("dock"));
    assert_eq!(dock_filesystem().seal, Seal::Open);
}

// ── foreign ──────────────────────────────────────────────────────────

#[test]
fn a_code_edit_that_is_not_ours_is_foreign() {
    let theirs = FocusChain {
        nodes: vec![code_edit(9), plain("AddonPanel", 10)],
        attached_editor: Some(7),
        editor_mode: Some(Mode::Normal),
        ..Default::default()
    };
    assert_eq!(foreign().probe.run(&theirs), Some(Anchor::Node(0)));
}

#[test]
fn our_own_editor_is_never_foreign() {
    let ours = FocusChain {
        nodes: vec![code_edit(7)],
        attached_editor: Some(7),
        editor_mode: Some(Mode::Insert),
        ..Default::default()
    };
    assert_eq!(foreign().probe.run(&ours), None);
}

#[test]
fn a_plain_text_edit_is_foreign() {
    assert_eq!(
        foreign().probe.run(&focused(vec![text_edit(11)])),
        Some(Anchor::Node(0))
    );
}

#[test]
fn a_line_edit_with_no_sibling_nav_control_is_foreign() {
    let settings = focused(vec![line_edit(12), plain("EditorSettingsDialog", 13)]);
    assert_eq!(foreign().probe.run(&settings), Some(Anchor::Node(0)));
}

#[test]
fn a_dock_filter_box_is_not_foreign() {
    let filter = FocusChain {
        nodes: vec![line_edit(14)],
        sibling_nav_control: Some(15),
        ..Default::default()
    };
    assert_eq!(foreign().probe.run(&filter), None);
}

#[test]
fn a_prompt_without_a_sibling_would_be_claimed() {
    // This is why `prompt` is probed first.
    let chain = FocusChain {
        nodes: vec![line_edit(16)],
        sibling_nav_control: None,
        is_plugin_prompt: true,
        ..Default::default()
    };
    assert_eq!(foreign().probe.run(&chain), Some(Anchor::Node(0)));
}

#[test]
fn docks_and_unrecognized_controls_are_not_foreign() {
    for focus in [
        tree("Tree", 17),
        item_list("ItemList", 18),
        rich_text("RichTextLabel", 19),
        plain("GraphEdit", 20),
        plain("Button", 21),
    ] {
        assert_eq!(foreign().probe.run(&focused(vec![focus])), None);
    }
}

#[test]
fn no_focus_owner_is_not_foreign() {
    assert_eq!(foreign().probe.run(&no_focus_owner()), None);
}

#[test]
fn the_barrier_is_a_root() {
    assert_eq!(foreign().parent, None);
    assert_eq!(foreign().seal, Seal::Barrier);
}

// ── panel ────────────────────────────────────────────────────────────

#[test]
fn the_root_never_claims_anything() {
    for chain in [
        no_focus_owner(),
        focused(vec![tree("Tree", 1)]),
        FocusChain {
            nodes: vec![code_edit(1)],
            attached_editor: Some(1),
            ..Default::default()
        },
    ] {
        assert!(panel().probe.run(&chain).is_none());
    }
}

#[test]
fn the_root_is_a_root() {
    assert_eq!(panel().parent, None);
    assert_eq!(panel().seal, Seal::Open);
    assert!(!panel().yields_to_engine);
}

// ── prompt ───────────────────────────────────────────────────────────

fn prompt_chain(sibling: Option<InstanceId>) -> FocusChain {
    FocusChain {
        nodes: vec![
            line_edit(30),
            plain("HBoxContainer", 31),
            plain("VBoxContainer", 32),
            plain("FileSystemDock", 33),
        ],
        in_filesystem_dock: true,
        sibling_nav_control: sibling,
        is_plugin_prompt: true,
        ..Default::default()
    }
}

#[test]
fn the_plugin_prompt_is_claimed_whatever_its_siblings_look_like() {
    assert_eq!(prompt().probe.run(&prompt_chain(Some(11))), Some(Anchor::Node(0)));
    assert_eq!(prompt().probe.run(&prompt_chain(None)), Some(Anchor::Node(0)));
}

#[test]
fn a_dock_filter_box_is_not_the_prompt() {
    let filter = FocusChain {
        nodes: vec![line_edit(40), plain("SceneTreeDock", 41)],
        sibling_nav_control: Some(42),
        ..Default::default()
    };
    assert_eq!(prompt().probe.run(&filter), None);
}

#[test]
fn a_stale_flag_with_no_focus_owner_claims_nothing() {
    let stale = FocusChain { is_plugin_prompt: true, ..Default::default() };
    assert_eq!(prompt().probe.run(&stale), None);
}

#[test]
fn the_prompt_is_sealed_not_barred() {
    assert_eq!(prompt().seal, Seal::Sealed);
    assert_eq!(prompt().parent, Some("panel"));
}

// ── searchbox ────────────────────────────────────────────────────────

fn filter_box(sibling: Option<InstanceId>) -> FocusChain {
    FocusChain {
        nodes: vec![line_edit(50), plain("VBoxContainer", 51), plain("SceneTreeDock", 52)],
        sibling_nav_control: sibling,
        ..Default::default()
    }
}

#[test]
fn a_line_edit_with_a_sibling_nav_control_is_a_filter_box() {
    assert_eq!(
        searchbox().probe.run(&filter_box(Some(53))),
        Some(Anchor::Node(0))
    );
}

#[test]
fn a_line_edit_with_no_sibling_is_not_ours() {
    assert_eq!(searchbox().probe.run(&filter_box(None)), None);
}

#[test]
fn a_text_edit_is_never_a_filter_box() {
    let multi_line = FocusChain {
        nodes: vec![text_edit(54)],
        sibling_nav_control: Some(55),
        ..Default::default()
    };
    assert_eq!(searchbox().probe.run(&multi_line), None);
}

#[test]
fn a_focused_tree_is_not_a_filter_box_even_beside_one() {
    let tree_focused = FocusChain {
        nodes: vec![tree("SceneTreeEditor", 56)],
        sibling_nav_control: Some(57),
        ..Default::default()
    };
    assert_eq!(searchbox().probe.run(&tree_focused), None);
}

// ── unknown ──────────────────────────────────────────────────────────

#[test]
fn the_probe_is_total() {
    let chains = [
        no_focus_owner(),
        focused(vec![plain("GraphEdit", 1)]),
        FocusChain {
            nodes: vec![tree("FileSystemTree", 2)],
            in_filesystem_dock: true,
            ..Default::default()
        },
        FocusChain {
            nodes: vec![code_edit(3)],
            attached_editor: Some(3),
            editor_mode: Some(Mode::Insert),
            ..Default::default()
        },
        FocusChain {
            nodes: vec![line_edit(4)],
            sibling_nav_control: Some(5),
            ..Default::default()
        },
    ];
    for chain in &chains {
        assert!(unknown().probe.run(chain).is_some(), "{chain:?}");
    }
}

#[test]
fn no_focus_owner_anchors_rootless() {
    assert_eq!(unknown().probe.run(&no_focus_owner()), Some(Anchor::Rootless));
}

#[test]
fn a_focus_owner_anchors_at_node_zero() {
    assert_eq!(
        unknown().probe.run(&focused(vec![plain("GraphEdit", 1)])),
        Some(Anchor::Node(0))
    );
}

#[test]
fn the_catch_all_still_reaches_panel() {
    assert_eq!(unknown().parent, Some("panel"));
    assert_eq!(unknown().seal, Seal::Open);
}
