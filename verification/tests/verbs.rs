//! What each verb does to the control or the popup it runs on.

use action_plane::action::{
    is_valid_action_id, ActionId, ActionRegistry, ActionSpec, Params, MAX_ACTION_COUNT,
};
use action_plane::caps::Caps;
use action_plane::key::{Key, KeyEvent, Modifiers};
use action_plane::keys::parse_lhs;
use action_plane::outcome::Outcome;
use action_plane::ports::{
    ActionCtx, DockKind, Effect, HierarchyAction, HostCall, NavDirection, PanelCall, PopupCall,
    Step, WindowNavAction, WindowNavDirection, WindowNavResult,
};
use action_plane::providers::completion;
use action_plane::providers::completion::{editor_completion, wrap};
use action_plane::providers::debugger;
use action_plane::providers::debugger::{dock_debugger, MAX_WALK};
use action_plane::providers::{self, surfaces};
use action_plane::scripted::{ScriptedPanel, ScriptedPopup};
use action_plane::specs::{outcome_of_nav, registry, shipped_specs, Verb};
use action_plane::surface::{Anchor, ChainNode, ClassMask, FocusChain, InstanceId, Seal};

// ── A control and a popup that answer from a script ──────────────────

fn with_steps(steps_available: u32) -> ScriptedPanel {
    ScriptedPanel { steps_available, ..Default::default() }
}

fn hierarchical(hierarchy_ok: bool) -> ScriptedPanel {
    ScriptedPanel { hierarchy_ok, ..Default::default() }
}

fn beside_a_panel(focus_found: bool) -> ScriptedPanel {
    ScriptedPanel { focus_found, ..Default::default() }
}

fn closed_popup() -> ScriptedPopup {
    ScriptedPopup { enabled: true, selected: -1, ..Default::default() }
}

fn open_popup(options: i32, selected: i32) -> ScriptedPopup {
    ScriptedPopup { visible: true, enabled: true, options, selected, ..Default::default() }
}

fn disabled_popup() -> ScriptedPopup {
    ScriptedPopup { selected: -1, ..Default::default() }
}

type Cx = ActionCtx<ScriptedPanel, ScriptedPopup>;

fn spec_of(name: &str) -> ActionSpec {
    let r = registry();
    let id = r.id_of(name).expect("registered");
    *r.get(id).expect("registered")
}

/// The outcome of a step that leaves nothing to the editor.
fn outcome(step: Step) -> Outcome {
    match step {
        Step::Done(outcome) => outcome,
        Step::Host(call) => panic!("nobody performs {call:?} here"),
    }
}

/// Run one shipped verb against one fake control.
fn run_on(name: &str, panel: &mut ScriptedPanel, params: Params) -> Outcome {
    let mut cx = Cx::new(Some(std::mem::take(panel)), params);
    let got = outcome(spec_of(name).run.run(&mut cx));
    *panel = cx.panel.take().expect("the control is handed back");
    got
}

fn with_count(count: i64) -> Params {
    let mut params = Params::new();
    params.set_int("count", count);
    params
}

// ── Item navigation ──────────────────────────────────────────────────

#[test]
fn item_next_and_item_prev_ask_for_opposite_directions() {
    for (name, want) in [
        ("godotvim.item.next", NavDirection::Next),
        ("godotvim.item.prev", NavDirection::Prev),
    ] {
        let mut panel = with_steps(1);
        assert_eq!(run_on(name, &mut panel, Params::new()), Outcome::Handled);
        assert_eq!(panel.log, vec![PanelCall::Nav(want, true)], "{name}");
    }
}

#[test]
fn a_count_repeats_the_step_exactly_that_many_times() {
    let mut panel = with_steps(9);
    assert_eq!(
        run_on("godotvim.item.next", &mut panel, with_count(3)),
        Outcome::Handled
    );
    assert_eq!(panel.log.len(), 3);

    assert_eq!(MAX_ACTION_COUNT, 100, "the repeat ceiling");
    let mut panel = with_steps(10_000);
    assert_eq!(
        run_on("godotvim.item.next", &mut panel, with_count(9_999)),
        Outcome::Handled
    );
    assert_eq!(panel.log.len(), 100);
}

#[test]
fn a_repeat_stops_at_the_first_refusal_instead_of_grinding() {
    let mut panel = with_steps(2);
    assert_eq!(
        run_on("godotvim.item.next", &mut panel, with_count(5)),
        Outcome::Handled
    );
    assert_eq!(
        panel.log.len(),
        3,
        "two moves plus the one refusal that stopped it: {:?}",
        panel.log
    );
}

#[test]
fn moving_reports_handled_and_moving_nowhere_reports_declined() {
    let mut panel = with_steps(1);
    assert_eq!(
        run_on("godotvim.item.next", &mut panel, Params::new()),
        Outcome::Handled
    );

    let mut panel = with_steps(0);
    assert_eq!(
        run_on("godotvim.item.next", &mut panel, Params::new()),
        Outcome::Declined
    );
    assert_eq!(
        panel.log,
        vec![PanelCall::Nav(NavDirection::Next, false)],
        "it must have asked once"
    );
}

#[test]
fn collapse_and_expand_ask_for_opposite_hierarchy_actions() {
    for (name, want) in [
        ("godotvim.item.collapse", HierarchyAction::Collapse),
        ("godotvim.item.expand", HierarchyAction::Expand),
    ] {
        let mut panel = hierarchical(true);
        assert_eq!(run_on(name, &mut panel, Params::new()), Outcome::Handled);
        assert_eq!(panel.log, vec![PanelCall::Hierarchy(want, true)], "{name}");

        let mut panel = hierarchical(false);
        assert_eq!(
            run_on(name, &mut panel, Params::new()),
            Outcome::Declined,
            "{name} must decline when there is nothing to fold"
        );
    }
}

#[test]
fn hierarchy_deliberately_ignores_the_repeat_count() {
    let mut panel = hierarchical(true);
    assert_eq!(
        run_on("godotvim.item.collapse", &mut panel, with_count(3)),
        Outcome::Handled
    );
    assert_eq!(panel.log.len(), 1);
}

#[test]
fn activation_is_left_to_the_editor_with_the_kind_of_its_target() {
    let mut cx = Cx::new(Some(ScriptedPanel::default()), Params::new());
    cx.kind = Some(DockKind::ItemList);
    assert_eq!(
        spec_of("godotvim.item.activate").run.run(&mut cx),
        Step::Host(HostCall::Enter(DockKind::ItemList))
    );
}

// ── Cross-panel focus ────────────────────────────────────────────────

#[test]
fn each_focus_verb_asks_for_its_own_direction() {
    for (name, want) in [
        ("godotvim.focus.left", WindowNavDirection::Left),
        ("godotvim.focus.right", WindowNavDirection::Right),
        ("godotvim.focus.up", WindowNavDirection::Up),
        ("godotvim.focus.down", WindowNavDirection::Down),
    ] {
        let mut panel = beside_a_panel(true);
        assert_eq!(
            run_on(name, &mut panel, Params::new()),
            Outcome::FocusChanged,
            "{name}"
        );
        assert_eq!(
            panel.log,
            vec![PanelCall::MoveFocus(want, WindowNavResult::Focused)],
            "{name}"
        );
    }
}

#[test]
fn the_window_nav_result_mapping_holds_in_both_directions() {
    assert_eq!(outcome_of_nav(WindowNavResult::Focused), Outcome::FocusChanged);
    assert_eq!(outcome_of_nav(WindowNavResult::Ignored), Outcome::Declined);

    // ...and through a real verb.
    let mut panel = beside_a_panel(false);
    assert_eq!(
        run_on("godotvim.focus.left", &mut panel, Params::new()),
        Outcome::Declined
    );
}

#[test]
fn each_cycle_verb_carries_its_own_action_and_always_consumes() {
    for (name, want) in [
        ("godotvim.focus.cycle_next", WindowNavAction::CycleNext),
        ("godotvim.focus.cycle_prev", WindowNavAction::CyclePrev),
    ] {
        let mut panel = ScriptedPanel::default();
        assert_eq!(
            run_on(name, &mut panel, Params::new()),
            Outcome::FocusChanged,
            "{name}"
        );
        assert_eq!(panel.log, vec![PanelCall::CycleFocus(want)], "{name}");
    }
}

// ── The registry ─────────────────────────────────────────────────────

#[test]
fn every_shipped_id_is_well_formed() {
    for spec in shipped_specs() {
        assert!(is_valid_action_id(spec.id), "{} is malformed", spec.id);
        assert!(!spec.desc.is_empty(), "{} has no description", spec.id);
    }
}

#[test]
fn ids_are_unique() {
    let mut seen: Vec<&str> = shipped_specs().iter().map(|s| s.id).collect();
    let total = seen.len();
    seen.sort_unstable();
    seen.dedup();
    assert_eq!(seen.len(), total, "duplicate action id");
}

#[test]
fn registration_is_idempotent_and_round_trips() {
    let mut r = registry();
    let before = r.len();
    for spec in shipped_specs() {
        r.register(spec);
    }
    assert_eq!(r.len(), before, "re-registering must not grow the registry");

    for spec in shipped_specs() {
        let id = r.id_of(spec.id).expect("registered");
        assert_eq!(r.name_of(id), Some(spec.id));
        assert_eq!(r.get(id).map(|s| s.id), Some(spec.id));
    }
}

#[test]
fn an_id_carries_itself_as_a_pseudo_key() {
    let r = registry();
    let id = r.id_of("godotvim.focus.left").unwrap();
    assert_eq!(id.as_key().key(), Key::Action(id.0));
}

#[test]
fn activation_declines_without_a_target() {
    let r = registry();
    let id = r.id_of("godotvim.item.activate").unwrap();
    let mut cx = Cx::recording();
    assert_eq!(r.run(id, &mut cx), Step::Done(Outcome::Declined));
    assert_eq!(cx.recorder, Some(vec![]));
}

/// A verb of a third party, whose body emits one signal.
fn probe() -> ActionSpec {
    ActionSpec {
        id: "test.probe.ran",
        desc: "records that it ran",
        requires: Caps::fileops(),
        host_invocable: true,
        run: Verb::External(5),
    }
}

/// Run a verb, performing the probe's body where it is asked for.
fn run_probe(r: &ActionRegistry, id: ActionId, cx: &mut Cx) -> Outcome {
    match r.run(id, cx) {
        Step::Done(outcome) => outcome,
        Step::Host(call) => {
            assert_eq!(call, HostCall::External(5));
            assert_eq!(cx.emit("ran", None), None, "a recorder keeps the effect");
            Outcome::Handled
        }
    }
}

#[test]
fn run_does_not_consult_requires() {
    // Capabilities gate bindings, never invocation.
    let mut r = ActionRegistry::new();
    let id = r.register(probe());
    let mut cx = Cx::recording();
    assert_eq!(run_probe(&r, id, &mut cx), Outcome::Handled);
    assert_eq!(
        cx.recorder,
        Some(vec![Effect::EmitSignal { name: "ran", arg: None }]),
        "the body must actually have run"
    );
    // ...while the binding path does gate, on the same verb.
    assert!(!r.caps_allow(id, Caps::empty()));
    assert!(r.caps_allow(id, Caps::fileops()));
}

#[test]
fn without_a_recorder_an_effect_is_handed_out() {
    let mut cx = Cx::new(Some(ScriptedPanel::default()), Params::new());
    assert_eq!(
        cx.emit("row", Some(4)),
        Some(Effect::EmitSignal { name: "row", arg: Some(4) })
    );
    assert_eq!(cx.defer_grab_focus(), Some(Effect::GrabFocus));

    // There is nothing to emit on without a target.
    let mut cx = Cx::new(None, Params::new());
    assert_eq!(cx.emit("row", Some(4)), None);
    assert_eq!(cx.defer_grab_focus(), Some(Effect::GrabFocus));
}

#[test]
fn hierarchy_actions_require_hierarchy() {
    let r = registry();
    for name in ["godotvim.item.collapse", "godotvim.item.expand"] {
        let id = r.id_of(name).unwrap();
        assert_eq!(r.get(id).unwrap().requires, Caps::hierarchy(), "{name}");
        let item_list = Caps::vnav().union(Caps::activate());
        assert!(!r.caps_allow(id, item_list), "{name} must be inert on a list");
        assert!(
            r.caps_allow(id, item_list.union(Caps::hierarchy())),
            "{name} on a tree"
        );
    }
}

#[test]
fn item_navigation_requires_only_vnav() {
    let r = registry();
    for name in ["godotvim.item.next", "godotvim.item.prev"] {
        let id = r.id_of(name).unwrap();
        assert_eq!(r.get(id).unwrap().requires, Caps::vnav(), "{name}");
        for class in ["Tree", "ItemList", "RichTextLabel"] {
            assert!(
                r.caps_allow(id, Caps::of_control(|c: &str| c == class)),
                "{name} must work on a {class}"
            );
        }
    }
}

#[test]
fn activation_requires_activation() {
    let r = registry();
    let id = r.id_of("godotvim.item.activate").unwrap();
    assert_eq!(r.get(id).unwrap().requires, Caps::activate());
    assert!(!r.caps_allow(id, Caps::of_control(|c: &str| c == "RichTextLabel")));
    assert!(r.caps_allow(id, Caps::of_control(|c: &str| c == "Tree")));
}

#[test]
fn focus_movement_requires_no_capability() {
    let r = registry();
    for name in [
        "godotvim.focus.left",
        "godotvim.focus.right",
        "godotvim.focus.up",
        "godotvim.focus.down",
        "godotvim.focus.cycle_next",
        "godotvim.focus.cycle_prev",
        "godotvim.focus.editor",
    ] {
        let id = r.id_of(name).unwrap();
        assert_eq!(r.get(id).unwrap().requires, Caps::empty(), "{name}");
        assert!(r.caps_allow(id, Caps::empty()), "{name}");
    }
}

#[test]
fn filesystem_actions_require_fileops() {
    let r = registry();
    for name in [
        "godotvim.fs.create",
        "godotvim.fs.delete",
        "godotvim.fs.rename",
        "godotvim.fs.yank_path",
        "godotvim.fs.refresh",
    ] {
        let id = r.id_of(name).unwrap();
        assert_eq!(r.get(id).unwrap().requires, Caps::fileops(), "{name}");
        assert!(!r.caps_allow(id, Caps::vnav()), "{name}");
        assert!(r.caps_allow(id, Caps::vnav().union(Caps::fileops())), "{name}");
    }
}

#[test]
fn an_action_with_no_target_declines() {
    let r = registry();
    let mut cx = Cx::recording();
    for name in [
        "godotvim.focus.left",
        "godotvim.focus.right",
        "godotvim.focus.up",
        "godotvim.focus.down",
        "godotvim.focus.cycle_next",
        "godotvim.focus.cycle_prev",
        "godotvim.dock.search",
        "godotvim.search.accept",
        "godotvim.fs.create",
        "godotvim.fs.yank_path",
        "godotvim.item.next",
        "godotvim.item.prev",
        "godotvim.item.collapse",
        "godotvim.item.expand",
        "godotvim.item.activate",
    ] {
        let id = r.id_of(name).unwrap();
        assert_eq!(
            r.run(id, &mut cx),
            Step::Done(Outcome::Declined),
            "{name} must decline"
        );
    }
    assert_eq!(
        cx.recorder,
        Some(vec![]),
        "a targetless action must not emit anything"
    );
}

#[test]
fn the_targetless_verbs_are_left_to_the_editor() {
    let r = registry();
    for (name, call) in [
        ("godotvim.fs.delete", HostCall::DeleteSelected),
        ("godotvim.fs.rename", HostCall::RenameSelected),
        ("godotvim.fs.refresh", HostCall::ScanFilesystem),
        ("godotvim.focus.editor", HostCall::EscapeFromDock),
    ] {
        let id = r.id_of(name).unwrap();
        let mut cx = Cx::recording();
        assert_eq!(r.run(id, &mut cx), Step::Host(call), "{name}");
    }
}

#[test]
fn an_unknown_id_declines_instead_of_panicking() {
    let r = registry();
    let mut cx = Cx::recording();
    assert_eq!(r.run(ActionId(9999), &mut cx), Step::Done(Outcome::Declined));
}

/// `host_invocable` for every registered verb, spelled out: a new verb must
/// arrive with a decision.
const HOST_INVOCABLE: &[(&str, bool)] = &[
    ("godotvim.item.next", false),
    ("godotvim.item.prev", false),
    ("godotvim.item.collapse", false),
    ("godotvim.item.expand", false),
    ("godotvim.item.activate", false),
    ("godotvim.focus.left", true),
    ("godotvim.focus.right", true),
    ("godotvim.focus.up", true),
    ("godotvim.focus.down", true),
    ("godotvim.focus.cycle_next", true),
    ("godotvim.focus.cycle_prev", true),
    ("godotvim.focus.editor", true),
    ("godotvim.dock.search", false),
    ("godotvim.search.accept", false),
    ("godotvim.fs.create", true),
    ("godotvim.fs.delete", true),
    ("godotvim.fs.rename", true),
    ("godotvim.fs.yank_path", true),
    ("godotvim.fs.refresh", true),
    ("godotvim.completion.trigger", false),
    ("godotvim.completion.next", false),
    ("godotvim.completion.prev", false),
    ("godotvim.completion.confirm", false),
    ("godotvim.completion.dismiss", false),
    ("godotvim.completion.navigate", false),
    ("godotvim.debugger.frame_next", false),
    ("godotvim.debugger.frame_prev", false),
    ("godotvim.debugger.frame_last", false),
    ("godotvim.debugger.yank_frame", false),
];

#[test]
fn only_self_locating_actions_are_host_invocable() {
    let r = registry();
    for (name, want) in HOST_INVOCABLE {
        let id = r
            .id_of(name)
            .unwrap_or_else(|| panic!("{name} is not registered"));
        let spec = r.get(id).unwrap();
        assert_eq!(spec.host_invocable, *want, "{name}");
    }
}

#[test]
fn the_host_invocable_table_covers_every_registered_verb() {
    let mut listed: Vec<&str> = HOST_INVOCABLE.iter().map(|(name, _)| *name).collect();
    listed.sort_unstable();
    let before = listed.len();
    listed.dedup();
    assert_eq!(before, listed.len(), "duplicate entry in HOST_INVOCABLE");

    let mut registered: Vec<&str> = registry().iter().iter().map(|(_, spec)| spec.id).collect();
    registered.sort_unstable();
    assert_eq!(listed, registered);
}

#[test]
fn the_registry_enumerates_everything_for_the_introspector() {
    let r = registry();
    let provider_verbs = providers::actions();
    assert_eq!(r.iter().len(), shipped_specs().len() + provider_verbs.len());
    let names: Vec<&str> = r.iter().iter().map(|(_, s)| s.id).collect();
    assert!(names.contains(&"godotvim.fs.refresh"));
    for spec in provider_verbs {
        assert!(names.contains(&spec.id), "{} is not registered", spec.id);
    }
}

// ── The namespace split ──────────────────────────────────────────────

/// Dotted and slash-free is a verb; anything else is an editor shortcut.
fn is_registry_name(name: &str) -> bool {
    name.contains('.') && !name.contains('/')
}

#[test]
fn every_shipped_action_is_claimed_by_the_registry_probe() {
    for spec in shipped_specs() {
        assert!(is_registry_name(spec.id), "{} would fall through", spec.id);
    }
}

#[test]
fn godot_editor_shortcut_paths_are_never_claimed() {
    for path in [
        "filesystem_dock/delete",
        "filesystem_dock/rename",
        "scene_tree/rename",
        "editor/save_scene",
        "debugger/step_over",
    ] {
        assert!(!is_registry_name(path), "{path} must reach the editor");
        assert!(!is_valid_action_id(path));
        assert_eq!(registry().id_of(path), None);
    }
}

#[test]
fn a_bare_name_is_not_claimed_either() {
    for name in ["save", "quit", "ui_accept"] {
        assert!(!is_registry_name(name), "{name} must not be claimed");
        assert!(!is_valid_action_id(name));
    }
}

#[test]
fn only_self_locating_actions_accept_a_host_invocation() {
    let r = registry();
    for (name, want) in [
        ("godotvim.fs.create", true),
        ("godotvim.fs.refresh", true),
        ("godotvim.focus.left", true),
        ("godotvim.item.next", false),
        ("godotvim.item.activate", false),
        ("godotvim.dock.search", false),
    ] {
        let spec = r.get(r.id_of(name).unwrap()).unwrap();
        assert_eq!(spec.host_invocable, want, "{name}");
    }
}

#[test]
fn host_invocation_ignores_capabilities_entirely() {
    let mut r = ActionRegistry::new();
    let id = r.register(probe());
    let mut cx = Cx::recording();
    assert_eq!(run_probe(&r, id, &mut cx), Outcome::Handled);
    assert!(
        !r.caps_allow(id, Caps::empty()),
        "the binding path still gates"
    );
}

// ── The autocomplete popup ───────────────────────────────────────────

/// What the transport makes of one verb: consume (`Some(true)`), hand to the
/// control (`Some(false)`), or let the engine have the key.
fn verdict(name: &str, popup: &mut ScriptedPopup) -> Option<bool> {
    let mut cx = Cx::new(None, Params::new());
    cx.completion = Some(std::mem::take(popup));
    let got = outcome(spec_of(name).run.run(&mut cx));
    *popup = cx.completion.take().expect("the popup is handed back");
    if popup.log.contains(&PopupCall::HandToEditor) {
        Some(false)
    } else if got.is_consumed() {
        Some(true)
    } else {
        None
    }
}

const TRIGGER: &str = "godotvim.completion.trigger";
const NEXT: &str = "godotvim.completion.next";
const PREV: &str = "godotvim.completion.prev";
const CONFIRM: &str = "godotvim.completion.confirm";
const DISMISS: &str = "godotvim.completion.dismiss";
const NAVIGATE: &str = "godotvim.completion.navigate";

#[test]
fn trigger_opens_the_popup_and_consumes() {
    let mut popup = closed_popup();
    popup.options = 3;
    assert_eq!(verdict(TRIGGER, &mut popup), Some(true));
    assert_eq!(popup.log, vec![PopupCall::Request(true)]);
    assert!(popup.visible);
}

#[test]
fn trigger_declines_when_completion_is_disabled() {
    let mut popup = disabled_popup();
    assert_eq!(verdict(TRIGGER, &mut popup), None);
    assert!(popup.log.is_empty(), "must not force a disabled popup");
}

#[test]
fn next_opens_a_closed_popup_rather_than_moving_nothing() {
    let mut popup = closed_popup();
    popup.options = 4;
    assert_eq!(verdict(NEXT, &mut popup), Some(true));
    assert_eq!(popup.log, vec![PopupCall::Request(true)]);
    assert_eq!(popup.selected, 0);
}

#[test]
fn prev_opens_a_closed_popup_and_lands_on_the_last_candidate() {
    let mut popup = closed_popup();
    popup.options = 4;
    assert_eq!(verdict(PREV, &mut popup), Some(true));
    assert_eq!(popup.log, vec![PopupCall::Request(true), PopupCall::Select(3)]);
    assert_eq!(popup.selected, 3);
}

#[test]
fn next_and_prev_move_and_wrap_on_a_visible_popup() {
    for (name, from, want) in [(NEXT, 0, 1), (NEXT, 2, 0), (PREV, 1, 0), (PREV, 0, 2)] {
        let mut popup = open_popup(3, from);
        assert_eq!(verdict(name, &mut popup), Some(true), "{name}");
        assert_eq!(popup.selected, want, "{name} from {from}");
    }
}

#[test]
fn an_empty_candidate_list_declines_instead_of_dividing_by_zero() {
    for name in [NEXT, PREV] {
        let mut popup = open_popup(0, -1);
        assert_eq!(verdict(name, &mut popup), None, "{name}");
        assert!(popup.log.is_empty());
    }
}

#[test]
fn confirm_accepts_a_visible_popup_and_consumes() {
    let mut popup = open_popup(2, 1);
    assert_eq!(verdict(CONFIRM, &mut popup), Some(true));
    assert_eq!(popup.log, vec![PopupCall::Confirm]);
}

#[test]
fn confirm_declines_with_no_popup_so_enter_still_inserts_a_newline() {
    let mut popup = closed_popup();
    assert_eq!(verdict(CONFIRM, &mut popup), None);
    assert!(popup.log.is_empty());
}

#[test]
fn dismiss_cancels_the_popup_and_still_lets_escape_reach_the_engine() {
    let mut popup = open_popup(3, 1);
    assert_eq!(verdict(DISMISS, &mut popup), None);
    assert_eq!(popup.log, vec![PopupCall::Cancel]);
    assert!(!popup.visible);
}

#[test]
fn dismiss_with_no_popup_does_nothing_at_all() {
    let mut popup = closed_popup();
    assert_eq!(verdict(DISMISS, &mut popup), None);
    assert!(popup.log.is_empty());
}

#[test]
fn navigate_hands_the_key_to_the_control_without_consuming_it() {
    let mut popup = open_popup(3, 0);
    assert_eq!(verdict(NAVIGATE, &mut popup), Some(false));
    assert_eq!(
        popup.log,
        vec![PopupCall::HandToEditor],
        "the control does the moving, not us"
    );
    assert_eq!(popup.selected, 0, "we must not move the selection ourselves");
}

#[test]
fn navigate_declines_with_no_popup_so_arrows_move_the_caret() {
    let mut popup = closed_popup();
    assert_eq!(verdict(NAVIGATE, &mut popup), None);
    assert!(popup.log.is_empty());
}

#[test]
fn every_verb_declines_on_a_transport_that_lends_no_popup() {
    let mut cx = Cx::recording();
    for spec in completion::actions() {
        assert_eq!(
            spec.run.run(&mut cx),
            Step::Done(Outcome::Declined),
            "{}",
            spec.id
        );
    }
    assert_eq!(cx.recorder, Some(vec![]));
}

#[test]
fn wrap_is_total_over_every_index_and_count() {
    assert_eq!(wrap(0, 0), None);
    assert_eq!(wrap(5, -1), None);
    assert_eq!(wrap(0, 3), Some(0));
    assert_eq!(wrap(3, 3), Some(0));
    assert_eq!(wrap(-1, 3), Some(2), "a remainder is never negative");
    assert_eq!(wrap(-4, 3), Some(2));
}

fn node(class: &str, n: InstanceId, classes: ClassMask) -> ChainNode {
    ChainNode::new(class, class, n, classes)
}

fn plain(class: &str, n: InstanceId) -> ChainNode {
    node(class, n, ClassMask::empty())
}

fn tree(class: &str, n: InstanceId) -> ChainNode {
    node(class, n, ClassMask { tree: true, ..ClassMask::empty() })
}

#[test]
fn the_surface_never_probes_and_is_therefore_never_classified() {
    let code_edit = node(
        "CodeEdit",
        1,
        ClassMask { code_edit: true, text_edit: true, ..ClassMask::empty() },
    );
    let chains = [
        FocusChain::default(),
        FocusChain {
            nodes: vec![code_edit, plain("CodeTextEditor", 2)],
            ..Default::default()
        },
    ];
    for chain in chains {
        assert_eq!(editor_completion().probe.run(&chain), None);
    }
}

#[test]
fn no_verb_requires_a_capability() {
    for spec in completion::actions() {
        assert_eq!(spec.requires, Caps::empty(), "{}", spec.id);
        assert!(!spec.host_invocable, "{}", spec.id);
        assert!(
            spec.id.starts_with("godotvim.completion."),
            "{} escapes this provider's namespace",
            spec.id
        );
    }
}

#[test]
fn the_defaults_cover_every_key_the_old_table_matched() {
    let lines: Vec<&str> = completion::DEFAULTS
        .lines()
        .filter(|l| !l.is_empty())
        .collect();
    assert_eq!(lines.len(), 8);
    for notation in [
        "<C-@>", "<C-n>", "<C-p>", "<Tab>", "<CR>", "<Esc>", "<Up>", "<Down>",
    ] {
        assert!(
            lines.iter().any(|l| l.contains(&format!(" {notation} "))),
            "{notation} is no longer bound"
        );
    }
    for line in lines {
        let id = line.rsplit(' ').next().expect("a target");
        assert!(
            completion::actions().iter().any(|s| s.id == id),
            "'{id}' is not declared by this provider"
        );
    }
}

#[test]
fn ctrl_space_is_spelled_the_way_the_runtime_produces_it() {
    // The bridge folds Ctrl+Space to `@` with Ctrl. `<C-Space>` would load
    // cleanly and never fire.
    let at = KeyEvent::new(Key::Char('@'), Modifiers::ctrl());
    assert_eq!(parse_lhs("<C-@>", &[at]).expect("parses"), vec![at]);
    assert!(completion::DEFAULTS.contains("<C-@>"));
    assert!(!completion::DEFAULTS.contains("<C-Space>"));
}

// ── The debugger's trees ─────────────────────────────────────────────

/// The real shape: the focus owner, the containers of its tab, the tab, the
/// tab container, then the dock.
fn in_debugger(focus: ChainNode) -> FocusChain {
    FocusChain {
        nodes: vec![
            focus,
            plain("VBoxContainer", 70),
            plain("HSplitContainer", 71),
            plain("ScriptEditorDebugger", 72),
            plain("TabContainer", 73),
            plain("EditorDebuggerNode", 74),
        ],
        ..Default::default()
    }
}

#[test]
fn the_stack_and_breakpoint_trees_both_anchor_here() {
    for focus in [tree("Tree", 1), tree("SomeTreeSubclass", 2)] {
        assert_eq!(
            dock_debugger().probe.run(&in_debugger(focus)),
            Some(Anchor::Node(0))
        );
    }
}

#[test]
fn the_dock_ancestor_alone_is_not_enough() {
    for focus in [
        plain("Button", 3),
        plain("OptionButton", 4),
        node("LineEdit", 5, ClassMask { line_edit: true, ..ClassMask::empty() }),
        node("ItemList", 6, ClassMask { item_list: true, ..ClassMask::empty() }),
        node(
            "RichTextLabel",
            7,
            ClassMask { rich_text_label: true, ..ClassMask::empty() },
        ),
    ] {
        assert_eq!(dock_debugger().probe.run(&in_debugger(focus)), None);
    }
}

#[test]
fn a_tree_outside_the_debugger_is_not_ours() {
    let elsewhere = FocusChain {
        nodes: vec![tree("SceneTreeEditor", 8), plain("SceneTreeDock", 75)],
        ..Default::default()
    };
    assert_eq!(dock_debugger().probe.run(&elsewhere), None);
}

#[test]
fn no_focus_owner_is_not_a_debugger_tree() {
    assert_eq!(dock_debugger().probe.run(&FocusChain::default()), None);
}

#[test]
fn the_ancestor_class_string_is_the_one_godot_registers() {
    // A typo would be invisible: the probe would simply never match.
    let only = FocusChain {
        nodes: vec![tree("Tree", 1), plain("EditorDebuggerNode", 2)],
        ..Default::default()
    };
    assert_eq!(dock_debugger().probe.run(&only), Some(Anchor::Node(0)));
    let misspelt = FocusChain {
        nodes: vec![tree("Tree", 1), plain("EditorDebugger", 2)],
        ..Default::default()
    };
    assert_eq!(dock_debugger().probe.run(&misspelt), None);
}

#[test]
fn debugger_it_is_declared_deeper_than_the_generic_dock() {
    let spec = dock_debugger();
    assert_eq!(spec.parent, Some("dock"));
    assert_eq!(spec.seal, Seal::Open);
    assert!(!spec.yields_to_engine);
    assert!(!spec.refuses_positional);
}

#[test]
fn the_surface_grants_nothing_and_the_widget_supplies_everything() {
    let chain = in_debugger(tree("Tree", 1));
    assert_eq!(dock_debugger().grants, Caps::empty());
    assert_eq!(
        chain.widget_caps(),
        Caps::vnav().union(Caps::hierarchy()).union(Caps::activate())
    );
}

#[test]
fn every_verb_is_gated_on_an_affordance_and_none_is_host_invocable() {
    for spec in debugger::actions() {
        assert_eq!(spec.requires, Caps::vnav(), "{}", spec.id);
        assert!(!spec.host_invocable, "{}", spec.id);
        assert!(!spec.desc.is_empty(), "{}", spec.id);
        assert!(is_valid_action_id(spec.id), "{}", spec.id);
        assert!(
            spec.id.starts_with("godotvim.debugger."),
            "{} escapes this provider's namespace",
            spec.id
        );
    }
}

#[test]
fn every_verb_declines_without_a_target() {
    let mut cx = Cx::recording();
    for spec in debugger::actions() {
        assert_eq!(
            spec.run.run(&mut cx),
            Step::Done(Outcome::Declined),
            "{}",
            spec.id
        );
    }
    assert_eq!(cx.recorder, Some(vec![]));
}

#[test]
fn the_defaults_name_only_verbs_this_provider_declares() {
    let actions = debugger::actions();
    for line in debugger::DEFAULTS.lines().filter(|l| !l.is_empty()) {
        let id = line.rsplit(' ').next().expect("a target");
        assert!(
            actions.iter().any(|s| s.id == id),
            "'{id}' is not declared by this provider"
        );
    }
    assert_eq!(debugger::DEFAULTS.lines().count(), actions.len());
}

#[test]
fn the_provider_tag_matches_the_verb_namespace() {
    assert_eq!(debugger::TAG, "godotvim.debugger");
    assert_eq!(
        surfaces().iter().filter(|s| s.id == "dock.debugger").count(),
        1
    );
    assert_eq!(debugger::actions().len(), 4);
}

#[test]
fn a_frame_walk_takes_its_count_and_the_last_frame_is_bounded() {
    let mut panel = with_steps(9);
    assert_eq!(
        run_on("godotvim.debugger.frame_prev", &mut panel, with_count(2)),
        Outcome::Handled
    );
    assert_eq!(panel.log, vec![PanelCall::Nav(NavDirection::Prev, true); 2]);

    let mut panel = with_steps(3);
    assert_eq!(
        run_on("godotvim.debugger.frame_last", &mut panel, Params::new()),
        Outcome::Handled
    );
    assert_eq!(panel.log.len(), 4, "three moves and the refusal at the end");

    let mut panel = with_steps(10_000);
    assert_eq!(
        run_on("godotvim.debugger.frame_last", &mut panel, Params::new()),
        Outcome::Handled
    );
    assert_eq!(panel.log.len(), MAX_WALK as usize);
}

#[test]
fn yanking_a_frame_needs_a_row() {
    let yank = spec_of("godotvim.debugger.yank_frame").run;
    let mut cx = Cx::new(Some(ScriptedPanel::default()), Params::new());
    cx.kind = Some(DockKind::Tree);
    assert_eq!(yank.run(&mut cx), Step::Done(Outcome::Declined));
    cx.row = Some("main.gd:12".to_string());
    assert_eq!(yank.run(&mut cx), Step::Host(HostCall::CopyRow));
}
