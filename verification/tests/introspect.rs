//! The two reports: what is bound, and why a key does what it does.

use action_plane::action::{ActionRegistry, Params, RuleTarget, MAX_ACTION_COUNT};
use action_plane::bind::{
    apply_text, builtin_index, BindingIndex, Consumption, MappingOwner, PanelFlags, PanelLine,
    PanelMap, PanelParseError, Provenance, Repeat, Rule, TargetSpec,
};
use action_plane::caps::Caps;
use action_plane::introspect::{
    explain_report, explain_stop, list_report, owner_label, render_rule, ChainFacts,
};
use action_plane::key::{Key, KeyEvent, KeyNames, Mode, Modifiers};
use action_plane::keys::{parse_lhs, starts_vim_grammar_sequence};
use action_plane::providers::forest;
use action_plane::resolve::Stop;
use action_plane::specs::registry;
use action_plane::surface::{ChainNode, ClassMask, FocusChain, InstanceId};
use compact_str::CompactString;

// ── Reading keys and lines ───────────────────────────────────────────

fn ch(c: char) -> KeyEvent {
    KeyEvent::new(Key::Char(c), Modifiers::none())
}

fn ctrl(c: char) -> KeyEvent {
    KeyEvent::new(Key::Char(c), Modifiers::ctrl())
}

/// One key between angle brackets.
fn bracketed(text: &str) -> KeyEvent {
    let mut body = text;
    let mut mods = Modifiers::none();
    loop {
        let (more, tail) = match body.get(..2) {
            Some("C-") => (Modifiers::ctrl(), &body[2..]),
            Some("S-") => (Modifiers::shift(), &body[2..]),
            Some("M-") => (Modifiers::alt(), &body[2..]),
            _ => break,
        };
        mods = mods.union(more);
        body = tail;
    }
    let key = match body {
        "CR" => Key::Enter,
        "Esc" => Key::Escape,
        "Tab" => Key::Tab,
        "Up" => Key::Up,
        "Down" => Key::Down,
        "F5" => Key::Function(5),
        other => Key::Char(other.chars().next().expect("a key")),
    };
    KeyEvent::new(key, mods)
}

/// What the engine's notation parser makes of a left-hand side.
fn notation(text: &str) -> Vec<KeyEvent> {
    let mut keys = Vec::new();
    let mut rest = text;
    while let Some(first) = rest.chars().next() {
        match rest.find('>') {
            Some(end) if first == '<' => {
                keys.push(bracketed(&rest[1..end]));
                rest = &rest[end + 1..];
            }
            _ => {
                keys.push(ch(first));
                rest = &rest[first.len_utf8()..];
            }
        }
    }
    keys
}

fn lhs(text: &str) -> Vec<KeyEvent> {
    parse_lhs(text, &notation(text)).expect("a left-hand side")
}

/// Whether the engine's grammar waits for another key after this one.
fn grammar(key: KeyEvent, _mode: Mode, _sneak: bool) -> bool {
    key == ctrl('w') || key == ctrl('\\') || matches!(key.key(), Key::Char('1'..='9'))
}

/// One line of a configuration.
fn read_line(line: &str) -> PanelLine {
    let mut words = line.split_whitespace();
    let verb = match words.next() {
        None => return PanelLine::Blank,
        Some(word) if word.starts_with('"') => return PanelLine::Blank,
        Some(word) => word,
    };
    let mut flags = PanelFlags {
        physical: false,
        void: false,
        norepeat: false,
        shift: false,
        nowait: false,
    };
    let mut operands: Vec<&str> = Vec::new();
    for word in words {
        match word {
            "<physical>" => flags.physical = true,
            "<void>" => flags.void = true,
            "<norepeat>" => flags.norepeat = true,
            "<shift>" => flags.shift = true,
            "<nowait>" => flags.nowait = true,
            _ => operands.push(word),
        }
    }
    let (surface, keys) = match operands.as_slice() {
        [] => return PanelLine::Fault(PanelParseError::MissingOperand("a surface")),
        [_] => return PanelLine::Fault(PanelParseError::MissingOperand("a left-hand side")),
        [surface, keys, ..] => (CompactString::new(surface), lhs(keys)),
    };
    if verb == "panelunmap" {
        return PanelLine::Unmap { surface, lhs: keys };
    }
    let target = match operands.get(2).copied() {
        None => return PanelLine::Fault(PanelParseError::MissingOperand("a target")),
        Some("native") => TargetSpec::Native,
        Some(word) => match word.strip_prefix("<Shortcut>(") {
            Some(path) => TargetSpec::Shortcut(CompactString::new(path.trim_end_matches(')'))),
            None => TargetSpec::Action(CompactString::new(word)),
        },
    };
    let mut params = Params::new();
    for word in &operands[3..] {
        let (name, value) = word.split_once('=').expect("a parameter");
        let value: i64 = value.parse().expect("a number");
        if name == "count" && !(1..=MAX_ACTION_COUNT).contains(&value) {
            return PanelLine::Fault(PanelParseError::CountOutOfRange(value));
        }
        params.set_int(name, value);
    }
    let grammar = starts_vim_grammar_sequence(keys[0], grammar);
    let map = PanelMap { surface, lhs: keys, target, params, flags };
    PanelLine::Bind { map, grammar }
}

/// The shipped bindings.
fn builtin(registry: &ActionRegistry) -> BindingIndex {
    builtin_index(registry, read_line)
}

// ── Focus chains ─────────────────────────────────────────────────────

fn node(class: &str, n: InstanceId, classes: ClassMask) -> ChainNode {
    ChainNode::new(class, class, n, classes)
}

fn tree(class: &str, n: InstanceId) -> ChainNode {
    node(class, n, ClassMask { tree: true, ..ClassMask::empty() })
}

fn item_list(class: &str, n: InstanceId) -> ChainNode {
    node(class, n, ClassMask { item_list: true, ..ClassMask::empty() })
}

fn line_edit(n: InstanceId) -> ChainNode {
    node("LineEdit", n, ClassMask { line_edit: true, ..ClassMask::empty() })
}

/// A code editor, which answers for its base class too.
fn code_edit(n: InstanceId) -> ChainNode {
    let classes = ClassMask { code_edit: true, text_edit: true, ..ClassMask::empty() };
    node("CodeEdit", n, classes)
}

/// Anything the vocabulary does not recognize.
fn plain(class: &str, n: InstanceId) -> ChainNode {
    node(class, n, ClassMask::empty())
}

/// The written form of every key these tests use.
fn names() -> KeyNames {
    let mut entries = Vec::new();
    for c in '!'..='~' {
        entries.push((ch(c), CompactString::new(c.to_string())));
        entries.push((ctrl(c), CompactString::new(format!("<C-{c}>"))));
    }
    for (key, name) in [
        (Key::Enter, "CR"),
        (Key::Escape, "Esc"),
        (Key::Tab, "Tab"),
        (Key::Up, "Up"),
        (Key::Down, "Down"),
    ] {
        let bare = KeyEvent::new(key, Modifiers::none());
        let shifted = KeyEvent::new(key, Modifiers::shift());
        entries.push((bare, CompactString::new(format!("<{name}>"))));
        entries.push((shifted, CompactString::new(format!("<S-{name}>"))));
    }
    KeyNames { entries }
}

const NEVER: &dyn Fn(KeyEvent) -> bool = &|_| false;
const ALWAYS: &dyn Fn(KeyEvent) -> bool = &|_| true;

fn explain(lhs: &str, chain: &FocusChain, claims: &dyn Fn(KeyEvent) -> bool) -> String {
    let reg = registry();
    let index = builtin(&reg);
    explain_with(&index, lhs, chain, claims)
}

fn fs_chain() -> FocusChain {
    FocusChain {
        nodes: vec![
            tree("FileSystemTree", 1),
            plain("VBoxContainer", 2),
            plain("FileSystemDock", 3),
        ],
        in_filesystem_dock: true,
        ..Default::default()
    }
}

fn dispatcher_can_fire(target: &RuleTarget) -> bool {
    match target {
        RuleTarget::Action(_) => true,
        RuleTarget::Native => false,
        RuleTarget::Shortcut(_) => false,
    }
}

fn explain_with(
    index: &BindingIndex,
    lhs: &str,
    chain: &FocusChain,
    claims: &dyn Fn(KeyEvent) -> bool,
) -> String {
    let reg = registry();
    let path = forest().classify(chain).expect("total probe");
    let facts = ChainFacts {
        attached_editor: format!("{:?}", chain.attached_editor),
        editor_mode: format!("{:?}", chain.editor_mode),
    };
    explain_report(
        lhs,
        &notation(lhs),
        chain,
        &facts,
        &path,
        index,
        &reg,
        claims,
        &names(),
    )
}

#[test]
fn the_report_calls_a_key_eligible_exactly_when_the_dispatcher_can_fire_it() {
    let reg = registry();
    let targets = [
        RuleTarget::Action(reg.id_of("godotvim.item.next").expect("shipped verb")),
        RuleTarget::Native,
        RuleTarget::Shortcut("filesystem_dock/rename".into()),
    ];
    for target in targets {
        let mut index = builtin(&reg);
        index.upsert(Rule {
            surface: "dock",
            lhs: vec![KeyEvent::new(Key::Char('q'), Modifiers::none())],
            target: target.clone(),
            params: Params::new(),
            consume: Consumption::Elastic,
            repeat: Repeat::Allow,
            physical: false,
            shift_tolerant: false,
            nowait: false,
            owner: MappingOwner::User,
            desc: "under test".into(),
        });
        let report = explain_with(&index, "q", &fs_chain(), NEVER);
        assert_eq!(
            report.contains("eligible"),
            dispatcher_can_fire(&target),
            "the report and the dispatcher disagree about {target:?}:\n{report}"
        );
    }
}

fn editor_chain(mode: Option<Mode>) -> FocusChain {
    FocusChain {
        nodes: vec![code_edit(7), plain("CodeTextEditor", 8)],
        attached_editor: Some(7),
        editor_mode: mode,
        ..Default::default()
    }
}

// ── The listing ──────────────────────────────────────────────────

#[test]
fn the_listing_is_a_golden_snapshot_of_the_shipped_keyset() {
    let reg = registry();
    let report = list_report(&builtin(&reg), &reg, &[], &names());
    assert_shipped_listing(&report);
}

fn assert_shipped_listing(report: &str) {
    let expected = "\
--- panel bindings ---
editor.nav  (no bindings)
editor.insert  (barrier — takes no bindings)
editor.completion  (parent: -, seal: Open)
  panelmap editor.completion <C-@> godotvim.completion.trigger    [godotvim.completion]
  panelmap editor.completion <C-n> godotvim.completion.next    [godotvim.completion]
  panelmap editor.completion <C-p> godotvim.completion.prev    [godotvim.completion]
  panelmap editor.completion <Tab> godotvim.completion.confirm    [godotvim.completion]
  panelmap editor.completion <CR> godotvim.completion.confirm    [godotvim.completion]
  panelmap editor.completion <Esc> godotvim.completion.dismiss    [godotvim.completion]
  panelmap editor.completion <Up> godotvim.completion.navigate    [godotvim.completion]
  panelmap editor.completion <Down> godotvim.completion.navigate    [godotvim.completion]
prompt  (no bindings)
searchbox  (parent: panel, seal: Sealed)
  panelmap <shift> searchbox <CR> godotvim.search.accept    [godotvim.searchbox]
  panelmap <shift> searchbox <Esc> godotvim.search.accept    [godotvim.searchbox]
dock.filesystem  (parent: dock, seal: Open)
  panelmap <physical> dock.filesystem a godotvim.fs.create    [godotvim.filesystem]
  panelmap <physical> dock.filesystem d godotvim.fs.delete    [godotvim.filesystem]
  panelmap <physical> dock.filesystem r godotvim.fs.rename    [godotvim.filesystem]
  panelmap <physical> dock.filesystem y godotvim.fs.yank_path    [godotvim.filesystem]
  panelmap <physical> dock.filesystem R godotvim.fs.refresh    [godotvim.filesystem]
dock.debugger  (parent: dock, seal: Open)
  panelmap dock.debugger J godotvim.debugger.frame_next    [godotvim.debugger]
  panelmap dock.debugger K godotvim.debugger.frame_prev    [godotvim.debugger]
  panelmap dock.debugger G godotvim.debugger.frame_last    [godotvim.debugger]
  panelmap dock.debugger y godotvim.debugger.yank_frame    [godotvim.debugger]
dock  (parent: panel, seal: Open)
  panelmap <physical> dock h godotvim.item.collapse    [godotvim.dock]
  panelmap <physical> dock j godotvim.item.next    [godotvim.dock]
  panelmap <physical> dock k godotvim.item.prev    [godotvim.dock]
  panelmap <physical> dock l godotvim.item.expand    [godotvim.dock]
  panelmap <physical> dock / godotvim.dock.search    [godotvim.dock]
  panelmap dock <CR> godotvim.item.activate    [godotvim.dock]
  panelmap dock <Esc> godotvim.focus.editor    [godotvim.dock]
foreign  (barrier — takes no bindings)
unknown  (no bindings)
panel  (parent: -, seal: Open)
  panelmap <physical> <void> <norepeat> panel <C-h> godotvim.focus.left    [godotvim.panel]
  panelmap <physical> <void> <norepeat> panel <C-j> godotvim.focus.down    [godotvim.panel]
  panelmap <physical> <void> <norepeat> panel <C-k> godotvim.focus.up    [godotvim.panel]
  panelmap <physical> <void> <norepeat> panel <C-l> godotvim.focus.right    [godotvim.panel]
--- 30 binding(s) ---
";
    assert_eq!(report, expected);
}

#[test]
fn every_listed_line_parses_back() {
    let reg = registry();
    let index = builtin(&reg);
    for rule in index.rules() {
        let line = render_rule(rule, &reg, &names());
        match read_line(&line) {
            PanelLine::Bind { map, .. } => {
                assert_eq!(map.surface, rule.surface, "'{line}'");
                assert_eq!(map.lhs, rule.lhs, "'{line}'");
                assert_eq!(map.flags.physical, rule.physical, "'{line}'");
                assert_eq!(map.flags.shift, rule.shift_tolerant, "'{line}'");
            }
            other => panic!("'{line}' does not parse back: {other:?}"),
        }
    }
}

// ── The explainer ────────────────────────────────────────────────

#[test]
fn it_explains_a_key_that_wins_on_the_deepest_surface() {
    let report = explain("d", &fs_chain(), NEVER);
    assert!(
        report.contains("dock.filesystem -> dock -> panel"),
        "{report}"
    );
    assert!(
        report.contains("runs: godotvim.fs.delete on 'dock.filesystem'"),
        "{report}"
    );
    assert!(report.contains("elastic"), "{report}");
}

#[test]
fn it_explains_a_key_that_falls_through_to_a_parent() {
    let report = explain("j", &fs_chain(), NEVER);
    assert!(
        report.contains("dock.filesystem: no rule for this key"),
        "{report}"
    );
    assert!(
        report.contains("runs: godotvim.item.next on 'dock'"),
        "{report}"
    );
}

#[test]
fn it_names_the_capability_that_gated_a_candidate_out() {
    let chain = FocusChain {
        nodes: vec![
            item_list("ItemList", 1),
            plain("VBoxContainer", 2),
        ],
        ..Default::default()
    };
    let report = explain("l", &chain, NEVER);
    assert!(report.contains("SKIPPED"), "{report}");
    assert!(report.contains("HIERARCHY"), "{report}");
    assert!(report.contains("NOT consumed"), "{report}");
}

#[test]
fn it_names_the_arbitration_seam_when_the_engine_wins() {
    let report = explain(
        "<C-h>",
        &editor_chain(Some(Mode::Normal)),
        ALWAYS,
    );
    assert!(report.contains("your own `:map` wins"), "{report}");
}

#[test]
fn it_names_the_barrier_in_an_insert_like_mode() {
    for mode in [
        Mode::Insert,
        Mode::Replace,
        Mode::CommandLine,
    ] {
        let report = explain("<C-h>", &editor_chain(Some(mode)), NEVER);
        assert!(report.contains("barrier"), "{mode:?}: {report}");
    }
}

#[test]
fn it_names_the_seal_for_a_bare_key_in_a_filter_box() {
    let chain = FocusChain {
        nodes: vec![line_edit(1), plain("VBoxContainer", 2)],
        sibling_nav_control: Some(9),
        ..Default::default()
    };
    let report = explain("x", &chain, NEVER);
    assert!(report.contains("sealed"), "{report}");
    let chord = explain("<C-l>", &chain, NEVER);
    assert!(
        chord.contains("runs: godotvim.focus.right on 'panel'"),
        "{chord:?}"
    );
}

#[test]
fn it_reports_the_void_policy_on_the_panel_chords() {
    let chain = FocusChain::default();
    let report = explain("<C-h>", &chain, NEVER);
    assert!(report.contains("<no focus owner>"), "{report}");
    assert!(report.contains("rootless"), "{report}");
    assert!(report.contains("consumed ALWAYS (void)"), "{report}");
    assert!(
        report.contains("echoes are consumed WITHOUT running"),
        "{report}"
    );
}

// ── What a written key cannot say ───────────────────────────────────

#[test]
fn the_report_says_its_probe_list_is_as_typed_only() {
    let report = explain("j", &fs_chain(), NEVER);
    assert!(report.contains("probes: j (as typed only"), "{report}");
    assert!(report.contains("Latin collapse"), "{report}");
    assert!(report.contains("US-QWERTY position"), "{report}");
    assert!(
        report.contains("a written LHS cannot derive"),
        "the caveat must name WHY the list is short: {report}"
    );
}

#[test]
fn the_caveat_renders_the_probe_in_the_notation_the_user_typed() {
    for (lhs, rendered) in [("<C-h>", "probes: <C-h> "), ("<CR>", "probes: <CR> ")] {
        let report = explain(lhs, &fs_chain(), NEVER);
        assert!(report.contains(rendered), "{lhs}: {report}");
    }
}

#[test]
fn the_report_names_the_physical_rules_that_could_shadow_a_key() {
    let report = explain("j", &fs_chain(), NEVER);
    assert!(
        report.contains(
            "dock.filesystem: reachable positionally from another physical key on \
             non-QWERTY layouts:"
        ),
        "{report}"
    );
    for rule in [
        "a -> godotvim.fs.create",
        "d -> godotvim.fs.delete",
        "r -> godotvim.fs.rename",
        "y -> godotvim.fs.yank_path",
        "R -> godotvim.fs.refresh",
    ] {
        assert!(report.contains(rule), "{rule} missing from: {report}");
    }
    assert!(report.contains("j -> godotvim.item.next"), "{report}");
    assert!(report.contains("<C-h> -> godotvim.focus.left"), "{report}");
}

#[test]
fn a_surface_that_refuses_positional_claims_no_positional_reachability() {
    let report = explain(
        "<C-h>",
        &editor_chain(Some(Mode::Normal)),
        NEVER,
    );
    assert!(
        report.contains("refuses_positional: true"),
        "fixture must be on the surface that refuses: {report}"
    );
    assert!(!report.contains("reachable positionally"), "{report}");
    assert!(report.contains("probes: <C-h> "), "{report}");
}

fn shadow_lines(report: &str) -> String {
    report
        .lines()
        .filter(|l| l.contains("reachable positionally"))
        .collect::<Vec<_>>()
        .join("\n")
}

#[test]
fn a_named_key_is_never_listed_as_positionally_reachable() {
    let index = index_with("panelmap <physical> dock <Tab> godotvim.item.activate");
    let report = explain_with(&index, "j", &fs_chain(), NEVER);
    let shadows = shadow_lines(&report);
    assert!(!shadows.is_empty(), "{report}");
    assert!(
        !shadows.contains("<Tab>"),
        "a named key has no layout-dependent position:\n{shadows}"
    );
    assert!(shadows.contains("j -> godotvim.item.next"), "{shadows}");
}

#[test]
fn a_rule_without_physical_is_never_listed_as_positionally_reachable() {
    let index = index_with("panelmap dock q godotvim.item.activate");
    let report = explain_with(&index, "j", &fs_chain(), NEVER);
    let shadows = shadow_lines(&report);
    assert!(!shadows.is_empty(), "{report}");
    assert!(
        !shadows.contains("q -> godotvim.item.activate"),
        "a rule without <physical> is not positionally reachable:\n{shadows}"
    );
}

#[test]
fn the_hedging_belongs_to_the_explainer_and_not_the_listing() {
    let reg = registry();
    let report = list_report(&builtin(&reg), &reg, &[], &names());
    assert!(!report.contains("as typed only"), "{report}");
    assert!(!report.contains("reachable positionally"), "{report}");
}

#[test]
fn it_refuses_an_unparseable_key_instead_of_guessing() {
    let report = explain("abcdefghi", &fs_chain(), NEVER);
    assert!(report.contains("cannot parse"), "{report}");
    assert!(
        !report.contains("surface stack"),
        "a report that could not parse its key must not pretend to resolve: {report}"
    );
}

#[test]
fn it_says_so_rather_than_guessing_at_a_sequence() {
    let report = explain("<C-", &fs_chain(), NEVER);
    assert!(report.contains("first key only"), "{report}");
}

#[test]
fn it_reports_an_unbound_key_as_unbound() {
    let report = explain("q", &fs_chain(), NEVER);
    assert!(
        report.contains("no surface on the stack binds this key"),
        "{report}"
    );
}

#[test]
fn caps_are_printed_so_a_gate_is_diagnosable() {
    let report = explain("d", &fs_chain(), NEVER);
    for bit in ["VNAV", "HIERARCHY", "ACTIVATE", "FILEOPS"] {
        assert!(report.contains(bit), "{bit} missing from: {report}");
    }
    let tree_in_fs_dock = Caps::vnav().union(Caps::hierarchy()).union(Caps::activate()).union(Caps::fileops());
    assert!(
        report.contains(&tree_in_fs_dock.debug_text()),
        "the resolved path caps must appear verbatim: {report}"
    );
}

#[test]
fn a_named_key_round_trips_through_the_explainer() {
    let chain = fs_chain();
    let report = explain("<CR>", &chain, NEVER);
    assert!(report.contains("runs: godotvim.item.activate"), "{report}");
}

#[test]
fn a_rejected_vimrc_line_is_printed_by_the_listing() {
    let reg = registry();
    let mut index = builtin(&reg);
    let mut diagnostics = Vec::new();
    apply_text(
        &mut index,
        &reg,
        "panelmap dock q godotvim.item.activate\n\
         panelmap dock w godotvim.item.nextt",
        read_line,
        &MappingOwner::User,
        "user://.godot-vimrc",
        Provenance::User,
        &mut diagnostics,
    );
    assert_eq!(diagnostics.len(), 1, "one bad line, one diagnostic");

    let report = list_report(&index, &reg, &diagnostics, &names());
    assert!(
        report.contains("rejected line(s)"),
        "the listing must announce the rejects:\n{report}"
    );
    assert!(
        report.contains("user://.godot-vimrc:2: no action named 'godotvim.item.nextt'"),
        "the diagnostic must name the file, the line and the cause:\n{report}"
    );
    assert!(report.contains("dock q godotvim.item.activate"), "{report}");
}

#[test]
fn a_clean_config_prints_no_rejection_section_at_all() {
    let reg = registry();
    let report = list_report(&builtin(&reg), &reg, &[], &names());
    assert!(!report.contains("rejected"), "{report}");
}

#[test]
fn shift_folding_is_visible_in_the_listing() {
    let reg = registry();
    let report = list_report(&builtin(&reg), &reg, &[], &names());
    assert!(report.contains("dock.filesystem R godotvim.fs.refresh"));
    assert!(!report.contains("<S-r>"));
    assert!(!report.contains("<S-R>"));
}

// ── Reservations ────────────────────────────────────────────────────

fn index_with(lines: &str) -> BindingIndex {
    let reg = registry();
    let mut index = builtin(&reg);
    let mut diagnostics = Vec::new();
    apply_text(
        &mut index,
        &reg,
        lines,
        read_line,
        &MappingOwner::User,
        "test",
        Provenance::User,
        &mut diagnostics,
    );
    assert!(diagnostics.is_empty(), "{diagnostics:?}");
    index
}

#[test]
fn the_listing_prints_every_reservation_and_who_owns_it() {
    let reg = registry();
    let index = index_with(
        "panelmap dock gg godotvim.item.prev\n\
         panelmap dock gj godotvim.item.next",
    );
    let report = list_report(&index, &reg, &[], &names());
    assert!(
        report.contains(
            "reserves g    (consumed bare on dock, then waits timeoutlen for: gg, gj)"
        ),
        "{report}"
    );
}

#[test]
fn the_listing_prints_no_reservation_line_for_the_shipped_keyset() {
    let reg = registry();
    let report = list_report(&builtin(&reg), &reg, &[], &names());
    assert!(!report.contains("reserves"), "{report}");
}

#[test]
fn the_explainer_names_a_reservation_before_the_single_key_rule() {
    let index = index_with("panelmap dock.filesystem dd godotvim.fs.delete");
    let report = explain_with(&index, "d", &fs_chain(), NEVER);
    assert!(report.contains("dock.filesystem: RESERVED"), "{report}");
    assert!(report.contains("waits timeoutlen for: dd"), "{report}");
}

#[test]
fn the_explainer_says_nothing_about_reservations_for_an_unreserved_key() {
    let report = explain("j", &fs_chain(), NEVER);
    assert!(!report.contains("RESERVED"), "{report}");
}

#[test]
fn an_action_id_never_renders_as_an_action_pseudo_key() {
    let reg = registry();
    let report = list_report(&builtin(&reg), &reg, &[], &names());
    assert!(!report.contains("<Action>("), "{report}");
}

#[test]
fn the_key_notation_helper_agrees_with_the_parser() {
    for notation in ["<C-h>", "<CR>", "<Esc>", "a", "/", "R"] {
        let keys = lhs(notation);
        assert_eq!(keys.len(), 1);
        let round = lhs(names().text(keys[0]));
        assert_eq!(round, keys, "{notation} does not round-trip");
    }
}

#[test]
fn the_bare_char_key_events_are_what_the_runtime_produces() {
    assert_eq!(
        lhs("R")[0],
        KeyEvent::new(Key::Char('R'), Modifiers::none())
    );
}

// ── Whole reports ────────────────────────────────────────────────────

#[test]
fn an_explanation_reads_from_the_focus_to_the_verdict() {
    let chain = FocusChain {
        nodes: vec![item_list("ItemList", 1), plain("VBoxContainer", 2)],
        ..Default::default()
    };
    let mut index = BindingIndex::new(forest());
    let reg = registry();
    let mut diagnostics = Vec::new();
    apply_text(
        &mut index,
        &reg,
        "panelmap dock l godotvim.item.expand",
        read_line,
        &MappingOwner::User,
        "test",
        Provenance::User,
        &mut diagnostics,
    );
    assert_eq!(diagnostics, Vec::new());
    let expected = "\
--- panelmap l ---
focus chain (leaf first):
  [0] ItemList (ItemList)
  [1] VBoxContainer (VBoxContainer)
facts: attached_editor=None mode=None in_filesystem_dock=false sibling_nav=false prompt=false
surface stack (deepest first): dock -> panel
anchor: chain[0]  caps: Caps(VNAV | ACTIVATE)  seal: Open  yields_to_engine: false  refuses_positional: false
probes: l (as typed only — a real keystroke on a non-QWERTY layout also carries a Latin collapse and a US-QWERTY position, which a written LHS cannot derive)
candidates:
  dock: panelmap dock l godotvim.item.expand via l -> SKIPPED — godotvim.item.expand needs Caps(HIERARCHY), path offers Caps(VNAV | ACTIVATE)
  panel: no rule for this key
nothing runs, and the key is NOT consumed.
reason: no surface on the stack binds this key, or every candidate was gated out by a missing capability (see above).
";
    assert_eq!(explain_with(&index, "l", &chain, NEVER), expected);
}

#[test]
fn a_refused_key_is_explained_in_two_lines() {
    let report = explain("abcdefghi", &fs_chain(), NEVER);
    assert!(report.starts_with("--- panelmap abcdefghi ---\ncannot parse 'abcdefghi': "));
    assert_eq!(report.lines().count(), 2);
}

#[test]
fn every_stop_has_its_own_sentence() {
    let key = ctrl('h');
    let all = [
        Stop::Barrier,
        Stop::Sealed("prompt"),
        Stop::Native("dock"),
        Stop::Yielded(key),
        Stop::Exhausted,
    ];
    let said: Vec<String> = all.iter().map(|s| explain_stop(*s, &names())).collect();
    for (i, a) in said.iter().enumerate() {
        for b in &said[i + 1..] {
            assert_ne!(a, b);
        }
    }
    assert!(said[1].contains("'prompt'"));
    assert!(said[2].contains("'dock'"));
    assert!(said[3].contains("<C-h>"));
}

#[test]
fn a_rule_renders_with_its_parameters_and_flags() {
    let index = index_with("panelmap <void> <nowait> dock q godotvim.item.next count=3");
    let reg = registry();
    let rule = index.rule_for("dock", &lhs("q")).expect("bound");
    assert_eq!(
        render_rule(rule, &reg, &names()),
        "panelmap <void> <nowait> dock q godotvim.item.next count=3"
    );
    assert_eq!(owner_label(&rule.owner), "user");
}

#[test]
fn no_two_rules_are_written_alike() {
    let reg = registry();
    let index = builtin(&reg);
    let base = index.rules()[0].clone();
    let mut params = Params::new();
    params.set_int("count", 3);
    let variants = vec![
        base.clone(),
        Rule { surface: "elsewhere", ..base.clone() },
        Rule { lhs: lhs("gg"), ..base.clone() },
        Rule { target: RuleTarget::Native, ..base.clone() },
        Rule { params, ..base.clone() },
        Rule { physical: !base.physical, ..base.clone() },
        Rule { shift_tolerant: !base.shift_tolerant, ..base.clone() },
        Rule { nowait: !base.nowait, ..base.clone() },
        Rule {
            consume: match base.consume {
                Consumption::Void => Consumption::Elastic,
                Consumption::Elastic => Consumption::Void,
            },
            ..base.clone()
        },
        Rule {
            repeat: match base.repeat {
                Repeat::Allow => Repeat::Suppress,
                Repeat::Suppress => Repeat::Allow,
            },
            ..base.clone()
        },
    ];
    let names = names();
    for (i, a) in variants.iter().enumerate() {
        for (j, b) in variants.iter().enumerate() {
            let alike = render_rule(a, &reg, &names) == render_rule(b, &reg, &names);
            assert_eq!(alike, i == j, "{a:?} and {b:?}");
        }
    }
    let mine = Rule { owner: MappingOwner::User, ..base.clone() };
    assert_eq!(
        render_rule(&mine, &reg, &names),
        render_rule(&base, &reg, &names),
        "who installed a rule is not written"
    );
}
