//! Capabilities, outcomes, the shortcut interface and the caret.

use action_plane::caps::Caps;
use action_plane::cursor::{move_cursor_with_tracking, CursorMoveType, Position};
use action_plane::outcome::Outcome;
use action_plane::ports::{dock_kind_for, DockKind};
use action_plane::shortcuts::{memoized, shortcut_api};

/// Stand-in for a class test that walks the inheritance chain.
/// `["FileSystemTree", "Tree"]` models a subclass.
fn classes(names: &'static [&'static str]) -> impl Fn(&str) -> bool {
    move |q| names.contains(&q)
}

#[test]
fn a_tree_offers_navigation_hierarchy_and_activation() {
    let caps = Caps::of_control(classes(&["Tree"]));
    assert_eq!(
        caps,
        Caps::vnav().union(Caps::hierarchy()).union(Caps::activate())
    );
}

#[test]
fn an_item_list_offers_no_hierarchy() {
    // This is what makes `h`/`l` inert on a list: a capability miss.
    let caps = Caps::of_control(classes(&["ItemList"]));
    assert_eq!(caps, Caps::vnav().union(Caps::activate()));
    assert!(!caps.satisfies(Caps::hierarchy()));
}

#[test]
fn a_rich_text_label_still_offers_vertical_navigation() {
    // `j`/`k` scroll the documentation panel and the output log.
    let caps = Caps::of_control(classes(&["RichTextLabel"]));
    assert!(caps.satisfies(Caps::vnav()));
    assert!(!caps.satisfies(Caps::activate()));
    assert!(!caps.satisfies(Caps::hierarchy()));
}

#[test]
fn all_three_dock_widgets_share_vnav() {
    for names in [
        &["Tree"] as &[&str],
        &["ItemList"] as &[&str],
        &["RichTextLabel"] as &[&str],
    ] {
        let caps = Caps::of_control(|q| names.contains(&q));
        assert!(caps.satisfies(Caps::vnav()), "{names:?} must keep j/k");
    }
}

#[test]
fn subclasses_inherit_through_the_is_class_probe() {
    let caps = Caps::of_control(classes(&["FileSystemTree", "Tree", "Control"]));
    assert!(caps.satisfies(Caps::hierarchy()));
}

#[test]
fn text_inputs_are_text_entry() {
    assert!(Caps::of_control(classes(&["LineEdit"])).satisfies(Caps::textentry()));
    assert!(Caps::of_control(classes(&["TextEdit"])).satisfies(Caps::textentry()));
    assert!(!Caps::of_control(classes(&["Tree"])).satisfies(Caps::textentry()));
}

#[test]
fn an_unknown_control_offers_nothing() {
    assert_eq!(Caps::of_control(classes(&["GraphEdit"])), Caps::empty());
}

/// Every class name either table names, the subclasses the editor really
/// produces, and controls that are in neither.
const SHARED_CLASSES: &[&[&str]] = &[
    &["Tree"],
    &["ItemList"],
    &["RichTextLabel"],
    &["FileSystemTree", "Tree"],
    &["FileSystemList", "ItemList"],
    &["SceneTreeEditor", "Tree"],
    &["EditorLog", "RichTextLabel"],
    &["LineEdit"],
    &["TextEdit"],
    &["CodeEdit", "TextEdit"],
    &["Button"],
    &["GraphEdit"],
];

#[test]
fn granting_vnav_and_having_a_dock_kind_are_the_same_question() {
    // A class in one table and not in the other would be a silent dead key.
    for names in SHARED_CLASSES {
        let is_class = |q: &str| names.contains(&q);
        let vnav = Caps::of_control(is_class).satisfies(Caps::vnav());
        let kind = dock_kind_for(is_class);
        assert_eq!(
            vnav,
            kind.is_some(),
            "{names:?}: VNAV={vnav} but the kind is {kind:?}"
        );
    }
}

#[test]
fn the_two_tables_agree_on_which_kind_carries_hierarchy() {
    for names in SHARED_CLASSES {
        let is_class = |q: &str| names.contains(&q);
        let hierarchy = Caps::of_control(is_class).satisfies(Caps::hierarchy());
        let is_tree = dock_kind_for(is_class) == Some(DockKind::Tree);
        assert_eq!(hierarchy, is_tree, "{names:?}");
    }
}

#[test]
fn each_widget_has_its_own_dock_kind() {
    assert_eq!(dock_kind_for(classes(&["Tree"])), Some(DockKind::Tree));
    assert_eq!(dock_kind_for(classes(&["ItemList"])), Some(DockKind::ItemList));
    assert_eq!(
        dock_kind_for(classes(&["RichTextLabel"])),
        Some(DockKind::RichTextLabel)
    );
    assert_eq!(dock_kind_for(classes(&["LineEdit"])), None);
}

#[test]
fn requiring_nothing_is_satisfied_by_anything() {
    assert!(Caps::empty().satisfies(Caps::empty()));
    assert!(Caps::vnav().satisfies(Caps::empty()));
}

#[test]
fn satisfies_needs_every_required_bit() {
    let tree = Caps::vnav().union(Caps::hierarchy()).union(Caps::activate());
    assert!(tree.satisfies(Caps::vnav().union(Caps::hierarchy())));
    assert!(!tree.satisfies(Caps::vnav().union(Caps::fileops())));
}

#[test]
fn a_set_prints_the_names_of_its_bits() {
    assert_eq!(Caps::empty().debug_text(), "Caps(0x0)");
    assert_eq!(Caps::vnav().debug_text(), "Caps(VNAV)");
    assert_eq!(
        Caps::all().debug_text(),
        "Caps(VNAV | HIERARCHY | ACTIVATE | TEXTENTRY | FILEOPS)"
    );
}

#[test]
fn emptiness_is_having_no_bit() {
    assert!(Caps::empty().is_empty());
    assert!(Caps::default().is_empty());
    assert!(!Caps::fileops().is_empty());
}

// ── Outcomes ─────────────────────────────────────────────────────────

#[test]
fn only_declined_is_unconsumed() {
    assert!(Outcome::Handled.is_consumed());
    assert!(Outcome::FocusChanged.is_consumed());
    assert!(!Outcome::Declined.is_consumed());
}

// ── The shortcut interface ────────────────────────────────────────────

#[test]
fn the_capability_probe_is_asked_at_most_once() {
    for answer in [true, false] {
        let mut cell = None;
        let mut asks = 0_u32;
        for _ in 0..5 {
            let got = memoized(&mut cell, || {
                asks += 1;
                answer
            });
            assert_eq!(got, answer);
        }
        assert_eq!(
            asks, 1,
            "answer={answer}: a `false` that is not memoized asks on every keystroke"
        );
    }
}

#[test]
fn a_remembered_answer_is_returned_without_re_probing() {
    // The pre-seeded cell is the second and later keystrokes. `probe`
    // panicking is the assertion: it must not be reached at all.
    for seeded in [true, false] {
        let mut cell = Some(seeded);
        let got = memoized(&mut cell, || panic!("the probe must not run again"));
        assert_eq!(got, seeded);
        assert_eq!(cell, Some(seeded), "the memo must not be disturbed");
    }
}

#[test]
fn a_missing_shortcut_interface_is_reported_once() {
    let mut cell = None;
    assert_eq!(shortcut_api(&mut cell, || false), (false, true));
    assert_eq!(shortcut_api(&mut cell, || false), (false, false));
    let mut cell = None;
    assert_eq!(shortcut_api(&mut cell, || true), (true, false));
}

// ── The caret ────────────────────────────────────────────────────────

#[test]
fn each_kind_of_move_remembers_what_it_should() {
    let here = Position { line: 3, col: 7 };
    let there = Position { line: 40, col: 0 };

    let step = move_cursor_with_tracking(here, there, CursorMoveType::Step);
    assert_eq!((step.push_jump, step.last_jump, step.target), (None, None, there));

    let jump = move_cursor_with_tracking(here, there, CursorMoveType::Jump);
    assert_eq!(
        (jump.push_jump, jump.last_jump, jump.target),
        (Some(here), Some(here), there)
    );

    let back = move_cursor_with_tracking(here, there, CursorMoveType::JumpRestoration);
    assert_eq!(
        (back.push_jump, back.last_jump, back.target),
        (None, Some(here), there)
    );
}

#[test]
fn a_jump_onto_its_own_place_is_still_pushed() {
    let here = Position { line: 1, col: 1 };
    let jump = move_cursor_with_tracking(here, here, CursorMoveType::Jump);
    assert_eq!(jump.push_jump, Some(here));
}

#[test]
fn moves_are_named_by_their_variant() {
    assert_eq!(CursorMoveType::Step.label(), "Step");
    assert_eq!(CursorMoveType::Jump.label(), "Jump");
    assert_eq!(CursorMoveType::JumpRestoration.label(), "JumpRestoration");
}
