//! The binding index: loading lines, refusing them, and looking keys up.

use action_plane::action::{ActionId, ActionRegistry, ActionSpec, Params, RuleTarget};
use action_plane::action::MAX_ACTION_COUNT;
use action_plane::bind::{
    apply_text, builtin_index, load_defaults, load_text, shift_variant, BindingIndex, Consumption,
    MappingOwner, PanelDiagnostic, PanelFlags, PanelLine, PanelMap, PanelParseError, Provenance, Repeat, Rule,
    RuleReject, SlotId, TargetSpec,
};
use action_plane::caps::Caps;
use action_plane::key::{Key, KeyEvent, KeyNames, Mode, Modifiers};
use action_plane::keys::{parse_lhs, starts_vim_grammar_sequence};
use action_plane::providers::{forest, surfaces};
use action_plane::specs::{registry, Verb};
use action_plane::surface::Seal;
use action_plane::text::split_lines;
use action_plane::trie::{MappingEntry, MappingTrie, TrieLookup};
use compact_str::CompactString;

// ── Reading keys and lines ───────────────────────────────────────────

fn ch(c: char) -> KeyEvent {
    KeyEvent::new(Key::Char(c), Modifiers::none())
}

fn ctrl(c: char) -> KeyEvent {
    KeyEvent::new(Key::Char(c), Modifiers::ctrl())
}

/// One key between angle brackets.
fn bracketed(text: &str) -> KeyEvent {
    let mut body = text;
    let mut mods = Modifiers::none();
    loop {
        let (more, tail) = match body.get(..2) {
            Some("C-") => (Modifiers::ctrl(), &body[2..]),
            Some("S-") => (Modifiers::shift(), &body[2..]),
            Some("M-") => (Modifiers::alt(), &body[2..]),
            _ => break,
        };
        mods = mods.union(more);
        body = tail;
    }
    let key = match body {
        "CR" => Key::Enter,
        "Esc" => Key::Escape,
        "Tab" => Key::Tab,
        "Up" => Key::Up,
        "Down" => Key::Down,
        "F5" => Key::Function(5),
        other => Key::Char(other.chars().next().expect("a key")),
    };
    KeyEvent::new(key, mods)
}

/// What the engine's notation parser makes of a left-hand side.
fn notation(text: &str) -> Vec<KeyEvent> {
    let mut keys = Vec::new();
    let mut rest = text;
    while let Some(first) = rest.chars().next() {
        match rest.find('>') {
            Some(end) if first == '<' => {
                keys.push(bracketed(&rest[1..end]));
                rest = &rest[end + 1..];
            }
            _ => {
                keys.push(ch(first));
                rest = &rest[first.len_utf8()..];
            }
        }
    }
    keys
}

fn lhs(text: &str) -> Vec<KeyEvent> {
    parse_lhs(text, &notation(text)).expect("a left-hand side")
}

/// Whether the engine's grammar waits for another key after this one.
fn grammar(key: KeyEvent, _mode: Mode, _sneak: bool) -> bool {
    key == ctrl('w') || key == ctrl('\\') || matches!(key.key(), Key::Char('1'..='9'))
}

/// One line of a configuration.
fn read_line(line: &str) -> PanelLine {
    let mut words = line.split_whitespace();
    let verb = match words.next() {
        None => return PanelLine::Blank,
        Some(word) if word.starts_with('"') => return PanelLine::Blank,
        Some(word) => word,
    };
    let mut flags = PanelFlags {
        physical: false,
        void: false,
        norepeat: false,
        shift: false,
        nowait: false,
    };
    let mut operands: Vec<&str> = Vec::new();
    for word in words {
        match word {
            "<physical>" => flags.physical = true,
            "<void>" => flags.void = true,
            "<norepeat>" => flags.norepeat = true,
            "<shift>" => flags.shift = true,
            "<nowait>" => flags.nowait = true,
            _ => operands.push(word),
        }
    }
    let (surface, keys) = match operands.as_slice() {
        [] => return PanelLine::Fault(PanelParseError::MissingOperand("a surface")),
        [_] => return PanelLine::Fault(PanelParseError::MissingOperand("a left-hand side")),
        [surface, keys, ..] => (CompactString::new(surface), lhs(keys)),
    };
    if verb == "panelunmap" {
        return PanelLine::Unmap { surface, lhs: keys };
    }
    let target = match operands.get(2).copied() {
        None => return PanelLine::Fault(PanelParseError::MissingOperand("a target")),
        Some("native") => TargetSpec::Native,
        Some(word) => match word.strip_prefix("<Shortcut>(") {
            Some(path) => TargetSpec::Shortcut(CompactString::new(path.trim_end_matches(')'))),
            None => TargetSpec::Action(CompactString::new(word)),
        },
    };
    let mut params = Params::new();
    for word in &operands[3..] {
        let (name, value) = word.split_once('=').expect("a parameter");
        let value: i64 = value.parse().expect("a number");
        if name == "count" && !(1..=MAX_ACTION_COUNT).contains(&value) {
            return PanelLine::Fault(PanelParseError::CountOutOfRange(value));
        }
        params.set_int(name, value);
    }
    let grammar = starts_vim_grammar_sequence(keys[0], grammar);
    let map = PanelMap { surface, lhs: keys, target, params, flags };
    PanelLine::Bind { map, grammar }
}

/// The shipped bindings.
fn builtin(registry: &ActionRegistry) -> BindingIndex {
    builtin_index(registry, read_line)
}

fn empty_index() -> BindingIndex {
    BindingIndex::new(forest())
}

fn apply(index: &mut BindingIndex, registry: &ActionRegistry, text: &str) -> Vec<PanelDiagnostic> {
    let mut diagnostics = Vec::new();
    apply_text(
        index,
        registry,
        text,
        read_line,
        &MappingOwner::User,
        "test",
        Provenance::User,
        &mut diagnostics,
    );
    diagnostics
}

/// Register `line` as if it came from a user's configuration, returning the
/// reject.
fn user_reject(index: &mut BindingIndex, line: &str) -> Option<RuleReject> {
    apply(index, &registry(), line).pop().map(|d| d.reject)
}

fn user_ok(index: &mut BindingIndex, text: &str) {
    assert_eq!(
        apply(index, &registry(), text),
        Vec::new(),
        "expected '{text}' to load"
    );
}

/// The rule at `(surface, lhs)`, reached the way the resolver does.
fn resolve<'a>(index: &'a BindingIndex, surface: &str, keys: &[KeyEvent]) -> Option<&'a Rule> {
    match index.lookup(surface, keys) {
        TrieLookup::ExactOnly(entry) | TrieLookup::Prefix { exact: Some(entry) } => {
            index.rule_in(entry)
        }
        _ => None,
    }
}

/// The written form of one key, for messages.
fn names_of(keys: &[(KeyEvent, &str)]) -> KeyNames {
    KeyNames {
        entries: keys.iter().map(|(k, t)| (*k, CompactString::new(t))).collect(),
    }
}

// ── The shipped keyset ───────────────────────────────────────────────

/// Every default the plugin ships: surface, keys, verb, `<physical>`,
/// consumption, repeat, `<shift>`.
const SHIPPED_DEFAULTS: &[(&str, &str, &str, bool, Consumption, Repeat, bool)] = &[
    (
        "panel",
        "<C-h>",
        "godotvim.focus.left",
        true,
        Consumption::Void,
        Repeat::Suppress,
        false,
    ),
    (
        "panel",
        "<C-j>",
        "godotvim.focus.down",
        true,
        Consumption::Void,
        Repeat::Suppress,
        false,
    ),
    (
        "panel",
        "<C-k>",
        "godotvim.focus.up",
        true,
        Consumption::Void,
        Repeat::Suppress,
        false,
    ),
    (
        "panel",
        "<C-l>",
        "godotvim.focus.right",
        true,
        Consumption::Void,
        Repeat::Suppress,
        false,
    ),
    (
        "editor.completion",
        "<C-@>",
        "godotvim.completion.trigger",
        false,
        Consumption::Elastic,
        Repeat::Allow,
        false,
    ),
    (
        "editor.completion",
        "<C-n>",
        "godotvim.completion.next",
        false,
        Consumption::Elastic,
        Repeat::Allow,
        false,
    ),
    (
        "editor.completion",
        "<C-p>",
        "godotvim.completion.prev",
        false,
        Consumption::Elastic,
        Repeat::Allow,
        false,
    ),
    (
        "editor.completion",
        "<Tab>",
        "godotvim.completion.confirm",
        false,
        Consumption::Elastic,
        Repeat::Allow,
        false,
    ),
    (
        "editor.completion",
        "<CR>",
        "godotvim.completion.confirm",
        false,
        Consumption::Elastic,
        Repeat::Allow,
        false,
    ),
    (
        "editor.completion",
        "<Esc>",
        "godotvim.completion.dismiss",
        false,
        Consumption::Elastic,
        Repeat::Allow,
        false,
    ),
    (
        "editor.completion",
        "<Up>",
        "godotvim.completion.navigate",
        false,
        Consumption::Elastic,
        Repeat::Allow,
        false,
    ),
    (
        "editor.completion",
        "<Down>",
        "godotvim.completion.navigate",
        false,
        Consumption::Elastic,
        Repeat::Allow,
        false,
    ),
    (
        "dock",
        "h",
        "godotvim.item.collapse",
        true,
        Consumption::Elastic,
        Repeat::Allow,
        false,
    ),
    (
        "dock",
        "j",
        "godotvim.item.next",
        true,
        Consumption::Elastic,
        Repeat::Allow,
        false,
    ),
    (
        "dock",
        "k",
        "godotvim.item.prev",
        true,
        Consumption::Elastic,
        Repeat::Allow,
        false,
    ),
    (
        "dock",
        "l",
        "godotvim.item.expand",
        true,
        Consumption::Elastic,
        Repeat::Allow,
        false,
    ),
    (
        "dock",
        "/",
        "godotvim.dock.search",
        true,
        Consumption::Elastic,
        Repeat::Allow,
        false,
    ),
    (
        "dock",
        "<CR>",
        "godotvim.item.activate",
        false,
        Consumption::Elastic,
        Repeat::Allow,
        false,
    ),
    (
        "dock",
        "<Esc>",
        "godotvim.focus.editor",
        false,
        Consumption::Elastic,
        Repeat::Allow,
        false,
    ),
    (
        "searchbox",
        "<CR>",
        "godotvim.search.accept",
        false,
        Consumption::Elastic,
        Repeat::Allow,
        true,
    ),
    (
        "searchbox",
        "<Esc>",
        "godotvim.search.accept",
        false,
        Consumption::Elastic,
        Repeat::Allow,
        true,
    ),
    (
        "dock.filesystem",
        "a",
        "godotvim.fs.create",
        true,
        Consumption::Elastic,
        Repeat::Allow,
        false,
    ),
    (
        "dock.filesystem",
        "d",
        "godotvim.fs.delete",
        true,
        Consumption::Elastic,
        Repeat::Allow,
        false,
    ),
    (
        "dock.filesystem",
        "r",
        "godotvim.fs.rename",
        true,
        Consumption::Elastic,
        Repeat::Allow,
        false,
    ),
    (
        "dock.filesystem",
        "y",
        "godotvim.fs.yank_path",
        true,
        Consumption::Elastic,
        Repeat::Allow,
        false,
    ),
    (
        "dock.filesystem",
        "R",
        "godotvim.fs.refresh",
        true,
        Consumption::Elastic,
        Repeat::Allow,
        false,
    ),
    (
        "dock.debugger",
        "J",
        "godotvim.debugger.frame_next",
        false,
        Consumption::Elastic,
        Repeat::Allow,
        false,
    ),
    (
        "dock.debugger",
        "K",
        "godotvim.debugger.frame_prev",
        false,
        Consumption::Elastic,
        Repeat::Allow,
        false,
    ),
    (
        "dock.debugger",
        "G",
        "godotvim.debugger.frame_last",
        false,
        Consumption::Elastic,
        Repeat::Allow,
        false,
    ),
    (
        "dock.debugger",
        "y",
        "godotvim.debugger.yank_frame",
        false,
        Consumption::Elastic,
        Repeat::Allow,
        false,
    ),
];

#[test]
fn the_full_default_set_loads_exactly() {
    let registry = registry();
    let index = builtin(&registry);

    assert_eq!(
        index.len(),
        SHIPPED_DEFAULTS.len(),
        "shipped defaults: {:?}",
        index
            .rules()
            .iter()
            .map(|r| (r.surface, r.lhs.clone()))
            .collect::<Vec<_>>()
    );

    for (surface, keys, action, physical, consume, repeat, shift) in SHIPPED_DEFAULTS {
        let rule = resolve(&index, surface, &lhs(keys))
            .unwrap_or_else(|| panic!("no rule at {surface} {keys}"));
        let id = registry.id_of(action).expect(action);
        assert_eq!(rule.target, RuleTarget::Action(id), "{surface} {keys}");
        assert_eq!(rule.physical, *physical, "{surface} {keys} <physical>");
        assert_eq!(rule.consume, *consume, "{surface} {keys} consumption");
        assert_eq!(rule.repeat, *repeat, "{surface} {keys} repeat");
        assert_eq!(rule.shift_tolerant, *shift, "{surface} {keys} <shift>");
        assert!(!rule.nowait, "{surface} {keys} — nothing ships <nowait>");
        assert_eq!(
            rule.owner,
            MappingOwner::Host(CompactString::new(expected_owner(surface))),
            "{surface} {keys}"
        );
    }
}

/// Which provider owns each surface's defaults.
fn expected_owner(surface: &str) -> &'static str {
    match surface {
        "panel" => "godotvim.panel",
        "dock" => "godotvim.dock",
        "dock.filesystem" => "godotvim.filesystem",
        "dock.debugger" => "godotvim.debugger",
        "editor.completion" => "godotvim.completion",
        "searchbox" => "godotvim.searchbox",
        other => unreachable!("no provider ships defaults for '{other}'"),
    }
}

#[test]
fn exactly_fourteen_defaults_opt_into_the_positional_probe() {
    let index = builtin(&registry());
    assert_eq!(index.rules().iter().filter(|r| r.physical).count(), 14);
}

#[test]
fn exactly_two_defaults_are_shift_tolerant() {
    let index = builtin(&registry());
    let tolerant: Vec<&str> = index
        .rules()
        .iter()
        .filter(|r| r.shift_tolerant)
        .map(|r| r.surface)
        .collect();
    assert_eq!(tolerant, vec!["searchbox", "searchbox"]);
}

#[test]
fn every_default_target_resolves_and_every_surface_is_declared() {
    let registry = registry();
    let index = builtin(&registry);
    for rule in index.rules() {
        assert!(index.forest().get(rule.surface).is_some(), "{}", rule.surface);
        let RuleTarget::Action(id) = rule.target else {
            panic!("no shipped default uses a non-action target");
        };
        assert!(registry.get(id).is_some());
        assert!(!rule.desc.is_empty(), "a rule with no description");
    }
}

#[test]
fn no_default_lands_on_a_barrier_surface_or_reserves_a_prefix() {
    let index = builtin(&registry());
    for rule in index.rules() {
        let spec = index.forest().get(rule.surface).expect("declared");
        assert_ne!(spec.seal, Seal::Barrier, "{}", rule.surface);
        assert_eq!(rule.lhs.len(), 1, "no shipped default is multi-key");
    }
}

#[test]
fn the_shift_tolerant_defaults_match_their_shifted_spelling_too() {
    let index = builtin(&registry());
    for key in [Key::Enter, Key::Escape] {
        let bare = KeyEvent::new(key, Modifiers::none());
        let shifted = KeyEvent::new(key, Modifiers::shift());
        let a = resolve(&index, "searchbox", &[bare]).expect("bare");
        let b = resolve(&index, "searchbox", &[shifted]).expect("shifted");
        assert_eq!(a, b, "{key:?} — both spellings must reach ONE rule");
    }
}

#[test]
fn a_dock_rule_is_not_shift_tolerant() {
    let index = builtin(&registry());
    assert!(resolve(&index, "dock", &[ch('j')]).is_some());
    let shifted = KeyEvent::new(Key::Char('j'), Modifiers::shift());
    assert!(resolve(&index, "dock", &[shifted]).is_none());
}

#[test]
fn building_the_index_twice_yields_the_same_thing() {
    let registry = registry();
    let a = builtin(&registry);
    let b = builtin(&registry);
    let rules = |i: &BindingIndex| {
        i.rules()
            .iter()
            .map(|r| (r.surface, r.lhs.clone(), r.target.clone()))
            .collect::<Vec<_>>()
    };
    assert_eq!(rules(&a), rules(&b));
}

// ── Registration-time validation ─────────────────────────────────────

#[test]
fn an_unknown_action_id_is_rejected_and_binds_nothing() {
    let mut index = empty_index();
    let reject = user_reject(&mut index, "panelmap dock j godotvim.item.nextt");
    assert_eq!(
        reject,
        Some(RuleReject::UnknownAction("godotvim.item.nextt".into()))
    );
    assert!(index.is_empty(), "nothing may be inserted");
    assert!(resolve(&index, "dock", &[ch('j')]).is_none());
}

#[test]
fn the_unknown_action_diagnostic_names_the_line_and_the_action() {
    let mut index = empty_index();
    let mut diagnostics = Vec::new();
    apply_text(
        &mut index,
        &registry(),
        "\" a comment\npanelmap dock j godotvim.item.next\npanelmap dock k godotvim.nope",
        read_line,
        &MappingOwner::User,
        "user://.godot-vimrc",
        Provenance::User,
        &mut diagnostics,
    );
    assert_eq!(diagnostics.len(), 1);
    assert_eq!(diagnostics[0].line, Some(3));
    let text = diagnostics[0].message(&names_of(&[]));
    assert!(text.contains("user://.godot-vimrc:3"), "{text}");
    assert!(text.contains("godotvim.nope"), "{text}");
    // ...and the good line beside it still loaded.
    assert!(resolve(&index, "dock", &[ch('j')]).is_some());
}

#[test]
fn an_unknown_surface_is_rejected() {
    let mut index = empty_index();
    assert_eq!(
        user_reject(&mut index, "panelmap dock.profiler j godotvim.item.next"),
        Some(RuleReject::UnknownSurface("dock.profiler".into()))
    );
    assert_eq!(
        user_reject(&mut index, "panelunmap dock.profiler j"),
        Some(RuleReject::UnknownSurface("dock.profiler".into()))
    );
}

#[test]
fn barrier_surfaces_take_no_rules() {
    let mut index = empty_index();
    for line in [
        "panelmap foreign <Esc> godotvim.focus.editor",
        "panelmap editor.insert <C-h> godotvim.focus.left",
    ] {
        assert_eq!(
            user_reject(&mut index, line),
            Some(RuleReject::BarrierSurface(if line.contains("foreign") {
                "foreign"
            } else {
                "editor.insert"
            })),
            "{line}"
        );
    }
    assert!(index.is_empty());
}

#[test]
fn every_barrier_surface_in_the_forest_is_covered_by_that_rule() {
    let mut index = empty_index();
    let barriers: Vec<&'static str> = surfaces()
        .iter()
        .filter(|s| s.seal == Seal::Barrier)
        .map(|s| s.id)
        .collect();
    assert_eq!(barriers, vec!["editor.insert", "foreign"]);
    for surface in barriers {
        assert_eq!(
            user_reject(&mut index, &format!("panelmap {surface} x godotvim.item.next")),
            Some(RuleReject::BarrierSurface(surface))
        );
    }
}

#[test]
fn editor_reachable_surfaces_are_single_key_only() {
    // `panel` is the parent of `editor.nav`, so a rule there is live while the
    // script editor has focus.
    let mut index = empty_index();
    assert_eq!(
        user_reject(&mut index, "panelmap panel <C-w>h godotvim.focus.left"),
        Some(RuleReject::MultiKeyOnEditorPath("panel"))
    );
    assert_eq!(
        user_reject(&mut index, "panelmap editor.nav gg godotvim.focus.left"),
        Some(RuleReject::MultiKeyOnEditorPath("editor.nav"))
    );
    assert!(index.is_empty());
}

#[test]
fn editor_reachability_is_a_forest_property_not_a_name_prefix() {
    let index = empty_index();
    for surface in ["panel", "editor.nav", "editor.insert", "editor.completion"] {
        assert!(index.editor_reachable(surface), "{surface}");
    }
    for surface in [
        "dock",
        "dock.filesystem",
        "dock.debugger",
        "searchbox",
        "prompt",
        "foreign",
        "unknown",
    ] {
        assert!(!index.editor_reachable(surface), "{surface}");
    }
}

#[test]
fn multi_key_is_legal_off_the_editor_path() {
    let mut index = empty_index();
    user_ok(
        &mut index,
        "panelmap dock <C-w>h godotvim.focus.left\npanelmap dock <C-w>l godotvim.focus.right",
    );
    assert_eq!(index.len(), 2);
    assert!(index.is_reserved("dock", ctrl('w')));
    assert!(!index.is_reserved("dock", ctrl('h')));
    assert!(matches!(
        index.lookup("dock", &[ctrl('w')]),
        TrieLookup::Prefix { exact: None }
    ));
}

#[test]
fn a_vim_grammar_prefix_is_refused_on_an_editor_reachable_surface() {
    let mut index = empty_index();
    assert_eq!(
        user_reject(&mut index, "panelmap panel <C-w> godotvim.focus.left"),
        Some(RuleReject::VimGrammarPrefix(ctrl('w')))
    );
    assert_eq!(
        user_reject(&mut index, "panelmap panel <C-\\> godotvim.focus.left"),
        Some(RuleReject::VimGrammarPrefix(ctrl('\\')))
    );
    // ...and the diagnostic says which key and why.
    let text = RuleReject::VimGrammarPrefix(ctrl('w')).message(&names_of(&[(ctrl('w'), "<C-w>")]));
    assert!(text.contains("<C-w>"), "{text}");
    assert!(text.contains("destroy the key that follows"), "{text}");
}

#[test]
fn the_shipped_panel_chords_survive_the_grammar_guard() {
    let mut index = empty_index();
    user_ok(
        &mut index,
        "panelmap panel <C-h> godotvim.focus.left\n\
         panelmap panel <C-j> godotvim.focus.down\n\
         panelmap panel <C-k> godotvim.focus.up\n\
         panelmap panel <C-l> godotvim.focus.right",
    );
    assert_eq!(index.len(), 4);
}

#[test]
fn a_grammar_prefix_is_legal_off_the_editor_path() {
    let mut index = empty_index();
    user_ok(&mut index, "panelmap dock <C-w> godotvim.focus.left");
    assert!(resolve(&index, "dock", &[ctrl('w')]).is_some());
}

#[test]
fn a_count_out_of_range_never_reaches_the_index() {
    let mut index = empty_index();
    assert!(matches!(
        user_reject(&mut index, "panelmap dock j godotvim.item.next count=5000"),
        Some(RuleReject::Parse(PanelParseError::CountOutOfRange(5000)))
    ));
    assert!(index.is_empty());
}

#[test]
fn a_missing_operand_is_a_fault_of_the_line() {
    let mut index = empty_index();
    assert_eq!(
        user_reject(&mut index, "panelmap dock"),
        Some(RuleReject::Parse(PanelParseError::MissingOperand("a left-hand side")))
    );
    assert!(index.is_empty());
}

// ── Provenance ───────────────────────────────────────────────────────

/// Apply shipped text, where every line must load.
fn ship(index: &mut BindingIndex, text: &str, tag: &str) {
    let owner = MappingOwner::Host(tag.into());
    let failures = load_text(index, &registry(), text, read_line, &owner, tag);
    let names = names_of(&[]);
    for failure in &failures {
        panic!(
            "a shipped panelmap default must always load: {}",
            failure.message(&names)
        );
    }
}

#[test]
#[should_panic(expected = "a shipped panelmap default must always load")]
fn a_malformed_builtin_default_is_a_programming_error() {
    let mut index = empty_index();
    ship(&mut index, "panelmap dock j godotvim.typo", "godotvim.test");
}

#[test]
fn a_line_that_does_not_load_is_told() {
    let mut index = empty_index();
    let failures = load_text(
        &mut index,
        &registry(),
        "panelmap dock j godotvim.typo\npanelmap dock k godotvim.item.prev",
        read_line,
        &MappingOwner::Host("godotvim.test".into()),
        "godotvim.test",
    );
    assert_eq!(failures.len(), 1);
    assert_eq!(failures[0].line, Some(1));
    assert_eq!(
        failures[0].reject,
        RuleReject::UnknownAction("godotvim.typo".into())
    );
    assert_eq!(index.len(), 1, "the other line loads");
}

#[test]
fn shipped_text_that_loads_adds_no_diagnostic() {
    let mut index = empty_index();
    let mut diagnostics = Vec::new();
    apply_text(
        &mut index,
        &registry(),
        "panelmap dock k godotvim.item.prev",
        read_line,
        &MappingOwner::Host("godotvim.test".into()),
        "godotvim.test",
        Provenance::Builtin,
        &mut diagnostics,
    );
    assert_eq!(diagnostics, Vec::new());
    assert_eq!(index.len(), 1);
}

#[test]
fn every_shipped_default_loads() {
    let (index, failures) = load_defaults(&registry(), read_line);
    assert_eq!(failures, Vec::new());
    assert_eq!(index.rules(), builtin(&registry()).rules());
}

#[test]
fn a_malformed_user_line_is_warn_and_skip() {
    let mut index = empty_index();
    let diagnostics = apply(
        &mut index,
        &registry(),
        "panelmap dock j godotvim.typo\npanelmap dock k godotvim.item.prev",
    );
    assert_eq!(diagnostics.len(), 1);
    assert!(resolve(&index, "dock", &[ch('k')]).is_some());
}

// ── Upsert, unmap and last-writer-wins ───────────────────────────────

#[test]
fn the_last_writer_wins_at_one_surface_and_lhs() {
    let mut index = empty_index();
    user_ok(
        &mut index,
        "panelmap dock j godotvim.item.next\npanelmap dock j godotvim.item.prev",
    );
    assert_eq!(index.len(), 1, "one rule per (surface, lhs)");
    let registry = registry();
    assert_eq!(
        resolve(&index, "dock", &[ch('j')]).map(|r| r.target.clone()),
        Some(RuleTarget::Action(registry.id_of("godotvim.item.prev").unwrap()))
    );
}

#[test]
fn re_inserting_reuses_the_slot_rather_than_orphaning_the_old_rule() {
    let mut index = empty_index();
    user_ok(&mut index, "panelmap dock j godotvim.item.next");
    let before: Vec<_> = index.rules().iter().map(|r| r.lhs.clone()).collect();
    user_ok(&mut index, "panelmap dock j godotvim.item.prev");
    let after: Vec<_> = index.rules().iter().map(|r| r.lhs.clone()).collect();
    assert_eq!(before, after);
}

#[test]
fn the_same_lhs_on_two_surfaces_is_two_rules() {
    let mut index = empty_index();
    user_ok(
        &mut index,
        "panelmap dock r godotvim.item.prev\npanelmap dock.filesystem r godotvim.fs.rename",
    );
    assert_eq!(index.len(), 2);
    assert_ne!(
        resolve(&index, "dock", &[ch('r')]).map(|r| r.target.clone()),
        resolve(&index, "dock.filesystem", &[ch('r')]).map(|r| r.target.clone())
    );
}

#[test]
fn unmapping_removes_the_rule_and_leaves_no_trie_entry() {
    let mut index = empty_index();
    user_ok(
        &mut index,
        "panelmap dock.filesystem y godotvim.fs.yank_path\npanelunmap dock.filesystem y",
    );
    assert!(index.is_empty());
    assert_eq!(
        index.lookup("dock.filesystem", &[ch('y')]),
        TrieLookup::NoMatch
    );
}

#[test]
fn unmapping_a_shift_tolerant_rule_removes_its_twin_too() {
    let mut index = empty_index();
    user_ok(
        &mut index,
        "panelmap <shift> searchbox <Esc> godotvim.search.accept\npanelunmap searchbox <Esc>",
    );
    let shifted = KeyEvent::new(Key::Escape, Modifiers::shift());
    assert!(matches!(
        index.lookup("searchbox", &[shifted]),
        TrieLookup::NoMatch
    ));
}

#[test]
fn unmapping_drops_the_prefix_reservation_with_the_rule() {
    let mut index = empty_index();
    user_ok(&mut index, "panelmap dock <C-w>h godotvim.focus.left");
    assert!(index.is_reserved("dock", ctrl('w')));
    user_ok(&mut index, "panelunmap dock <C-w>h");
    assert!(!index.is_reserved("dock", ctrl('w')));
}

#[test]
fn unmapping_something_that_was_never_bound_is_a_no_op() {
    let mut index = empty_index();
    user_ok(&mut index, "panelunmap dock q");
    assert!(index.is_empty());
}

#[test]
fn a_rebind_is_an_unmap_followed_by_a_map() {
    let registry = registry();
    let mut index = builtin(&registry);
    user_ok(
        &mut index,
        "panelunmap panel <C-h>\n\
         panelmap <physical> <void> <norepeat> panel <M-h> godotvim.focus.left",
    );
    assert!(resolve(&index, "panel", &[ctrl('h')]).is_none());
    let alt_h = KeyEvent::new(Key::Char('h'), Modifiers::alt());
    assert_eq!(
        resolve(&index, "panel", &[alt_h]).map(|r| r.target.clone()),
        Some(RuleTarget::Action(registry.id_of("godotvim.focus.left").unwrap()))
    );
    assert_eq!(index.len(), SHIPPED_DEFAULTS.len());
}

// ── Targets that are not actions ─────────────────────────────────────

#[test]
fn native_is_legal_on_every_non_barrier_surface() {
    let mut index = empty_index();
    for surface in ["panel", "dock", "dock.filesystem", "searchbox", "editor.nav"] {
        user_ok(&mut index, &format!("panelmap {surface} <C-h> native"));
        assert_eq!(
            resolve(&index, surface, &[ctrl('h')]).map(|r| r.target.clone()),
            Some(RuleTarget::Native),
            "{surface}"
        );
    }
}

#[test]
fn a_shortcut_target_is_refused_because_nothing_dispatches_it() {
    let mut index = empty_index();
    assert_eq!(
        user_reject(
            &mut index,
            "panelmap dock.filesystem <C-r> <Shortcut>(filesystem_dock/rename)"
        ),
        Some(RuleReject::UndispatchedTarget {
            surface: "dock.filesystem",
            target: "<Shortcut>(filesystem_dock/rename)".into(),
        })
    );
    assert!(
        resolve(&index, "dock.filesystem", &[ctrl('r')]).is_none(),
        "nothing may be inserted"
    );
    assert!(user_reject(
        &mut index,
        "panelmap dock.debugger s <Shortcut>(debugger/step_over)"
    )
    .is_some());
    assert!(resolve(&index, "dock.debugger", &[ch('s')]).is_none());
}

#[test]
fn a_transport_only_surface_refuses_a_verb_it_could_never_gate() {
    // No chain classifies to this surface, so nothing could say what the
    // control offers.
    let mut index = empty_index();
    let diagnostics = apply(
        &mut index,
        &registry(),
        "panelmap editor.completion <C-y> godotvim.fs.delete",
    );
    assert_eq!(diagnostics.len(), 1, "exactly one diagnostic");
    assert_eq!(
        diagnostics[0].reject,
        RuleReject::UnsatisfiableCapability {
            surface: "editor.completion",
            action: "godotvim.fs.delete".into(),
        }
    );
    assert!(
        resolve(&index, "editor.completion", &[ctrl('y')]).is_none(),
        "no rule may be installed"
    );

    // ...and the verbs that surface is for still install.
    user_ok(
        &mut index,
        "panelmap editor.completion <C-y> godotvim.completion.confirm",
    );
    assert!(resolve(&index, "editor.completion", &[ctrl('y')]).is_some());
}

#[test]
fn a_capability_bearing_verb_is_still_fine_on_a_classified_surface() {
    let mut index = empty_index();
    user_ok(&mut index, "panelmap panel <C-y> godotvim.item.next");
    assert!(resolve(&index, "panel", &[ctrl('y')]).is_some());
}

#[test]
fn every_shipped_completion_default_still_loads() {
    let registry = registry();
    let index = builtin(&registry);
    assert_eq!(index.rules_on("editor.completion").len(), 8);
    for rule in index.rules_on("editor.completion") {
        let RuleTarget::Action(id) = rule.target else {
            panic!("a completion default must target an action");
        };
        assert!(
            registry.get(id).is_some_and(|s| s.requires.is_empty()),
            "{:?} needs capabilities this surface cannot grant",
            rule.lhs
        );
    }
}

// ── The trie underneath ──────────────────────────────────────────────

#[test]
fn the_trie_payload_is_an_opaque_slot_and_nothing_else() {
    let mut index = empty_index();
    user_ok(&mut index, "panelmap dock j godotvim.item.next");
    let TrieLookup::ExactOnly(entry) = index.lookup("dock", &[ch('j')]) else {
        panic!("expected an exact match");
    };
    assert_eq!(entry.sequence.len(), 1);
    assert!(matches!(entry.sequence[0].key(), Key::Action(_)));
    assert!(BindingIndex::slot_in(entry).is_some());
}

#[test]
fn nowait_reaches_the_trie_and_promotes_prefix_to_exact() {
    let mut index = empty_index();
    user_ok(
        &mut index,
        "panelmap dock dd godotvim.fs.delete\npanelmap dock d godotvim.item.next",
    );
    assert!(matches!(
        index.lookup("dock", &[ch('d')]),
        TrieLookup::Prefix { exact: Some(_) }
    ));

    let mut index = empty_index();
    user_ok(
        &mut index,
        "panelmap dock dd godotvim.fs.delete\npanelmap <nowait> dock d godotvim.item.next",
    );
    assert!(
        matches!(index.lookup("dock", &[ch('d')]), TrieLookup::ExactOnly(_)),
        "<nowait> must make the shorter mapping fire immediately"
    );
}

#[test]
fn a_lookup_on_an_unbound_surface_is_a_miss_rather_than_a_panic() {
    let index = empty_index();
    assert!(matches!(
        index.lookup("dock", &[ch('j')]),
        TrieLookup::NoMatch
    ));
    assert!(index.rule_at(SlotId(99)).is_none());
    assert!(!index.is_reserved("dock", ch('j')));
}

#[test]
fn a_trie_holds_one_entry_per_sequence() {
    let mut trie = MappingTrie::new();
    let entry = |n: u32| MappingEntry { sequence: vec![KeyEvent::action(n)], nowait: false };
    trie.insert(vec![ch('g'), ch('g')], entry(1));
    trie.insert(vec![ch('g'), ch('g')], entry(2));
    match trie.lookup(&[ch('g'), ch('g')]) {
        TrieLookup::ExactOnly(found) => assert_eq!(found.sequence, vec![KeyEvent::action(2)]),
        other => panic!("expected one entry, got {other:?}"),
    }
    assert!(matches!(
        trie.lookup(&[ch('g')]),
        TrieLookup::Prefix { exact: None }
    ));
    trie.remove(&[ch('g'), ch('g')]);
    assert!(matches!(trie.lookup(&[ch('g')]), TrieLookup::NoMatch));
}

// ── shift_variant ────────────────────────────────────────────────────

#[test]
fn only_a_bare_single_named_key_gets_a_shifted_twin() {
    let enter = |mods: Modifiers| KeyEvent::new(Key::Enter, mods);
    assert_eq!(
        shift_variant(&[enter(Modifiers::none())]),
        Some(vec![enter(Modifiers::shift())])
    );
    assert_eq!(shift_variant(&[ch('r')]), None, "printables fold instead");
    assert_eq!(
        shift_variant(&[enter(Modifiers::ctrl())]),
        None,
        "a command chord is already distinct"
    );
    assert_eq!(
        shift_variant(&[enter(Modifiers::shift())]),
        None,
        "already shifted"
    );
    assert_eq!(
        shift_variant(&[enter(Modifiers::none()), ch('x')]),
        None,
        "multi-key sequences have no twin"
    );
}

// ── Questions about the whole index ──────────────────────────────────

#[test]
fn any_rule_targets_answers_for_bound_and_unbound_verbs() {
    let registry = registry();
    let index = builtin(&registry);
    assert!(index.any_rule_targets(registry.id_of("godotvim.item.next").unwrap()));
    assert!(!index.any_rule_targets(registry.id_of("godotvim.focus.cycle_next").unwrap()));
    assert!(!index.any_rule_targets(ActionId(9999)));
}

#[test]
fn a_capability_impossible_binding_is_still_registered() {
    // What a control offers is asked when a key is resolved, not here.
    let mut index = empty_index();
    user_ok(&mut index, "panelmap dock a godotvim.fs.create");
    let rule = resolve(&index, "dock", &[ch('a')]).expect("registered");
    let registry = registry();
    let RuleTarget::Action(id) = rule.target else {
        unreachable!()
    };
    assert_eq!(registry.get(id).map(|s| s.requires), Some(Caps::fileops()));
}

#[test]
fn a_newly_registered_action_becomes_bindable_with_no_index_changes() {
    let third_party = ActionSpec {
        id: "thirdparty.debugger.step",
        desc: "step over",
        requires: Caps::empty(),
        host_invocable: false,
        run: Verb::External(1),
    };
    let mut registry = registry();
    let mut index = empty_index();
    let line = "panelmap dock <F5> thirdparty.debugger.step";
    assert_eq!(
        apply(&mut index, &registry, line).len(),
        1,
        "unregistered — must be rejected"
    );

    let id = registry.register(third_party);
    let mut diagnostics = Vec::new();
    apply_text(
        &mut index,
        &registry,
        line,
        read_line,
        &MappingOwner::Host("thirdparty".into()),
        "thirdparty",
        Provenance::User,
        &mut diagnostics,
    );
    assert_eq!(diagnostics, Vec::new());
    assert!(index.any_rule_targets(id));
}

#[test]
fn a_generation_is_kept_beside_the_bindings() {
    let mut index = builtin(&registry());
    let rules = index.len();
    index.set_generation(7);
    assert_eq!(index.generation(), 7);
    assert_eq!(index.len(), rules);
}

// ── The listing ──────────────────────────────────────────────────────

/// The listing as surfaces, keys and verbs.
fn listed(index: &BindingIndex) -> Vec<(&'static str, Vec<KeyEvent>, RuleTarget)> {
    index
        .rules()
        .into_iter()
        .map(|rule| (rule.surface, rule.lhs.clone(), rule.target.clone()))
        .collect()
}

#[test]
fn a_rebound_rule_keeps_its_place_and_a_new_one_goes_to_the_end() {
    let mut index = empty_index();
    user_ok(
        &mut index,
        "panelmap dock j godotvim.item.next\n\
         panelmap dock k godotvim.item.prev\n\
         panelmap searchbox <CR> godotvim.search.accept",
    );
    let before = listed(&index);
    assert_eq!(before.len(), 3);
    user_ok(&mut index, "panelmap dock k native");
    let mut replaced = before.clone();
    replaced[1].2 = RuleTarget::Native;
    assert_eq!(listed(&index), replaced);
    user_ok(&mut index, "panelmap dock x native");
    replaced.push(("dock", lhs("x"), RuleTarget::Native));
    assert_eq!(listed(&index), replaced);
}

#[test]
fn a_removed_rule_leaves_the_others_in_their_order() {
    let mut index = empty_index();
    user_ok(
        &mut index,
        "panelmap dock gg godotvim.item.next\n\
         panelmap dock k godotvim.item.prev\n\
         panelmap dock gx native",
    );
    let mut rules = listed(&index);
    assert!(index.remove("dock", &lhs("gg")));
    rules.remove(0);
    assert_eq!(listed(&index), rules);
    assert!(index.is_reserved("dock", ch('g')), "another sequence starts with it");
    assert!(index.remove("dock", &lhs("gx")));
    assert!(!index.is_reserved("dock", ch('g')));
    assert!(!index.remove("dock", &lhs("gx")));
}

#[test]
fn reservations_come_in_rule_order_without_repeats() {
    let mut index = empty_index();
    assert_eq!(index.reservations("dock"), Vec::new());
    user_ok(
        &mut index,
        "panelmap dock zz native\n\
         panelmap dock gg native\n\
         panelmap dock j native\n\
         panelmap dock zx native",
    );
    assert_eq!(index.reservations("dock"), vec![ch('z'), ch('g')]);
    assert!(index.remove("dock", &lhs("zz")));
    assert_eq!(index.reservations("dock"), vec![ch('g'), ch('z')]);
    assert!(index.reserves_any("dock") && !index.reserves_any("panel"));
}

#[test]
fn two_texts_joined_by_a_newline_apply_in_turn() {
    let first = "panelmap dock gg native\npanelmap nowhere x native";
    let second = "panelmap dock gx native\n\npanelmap dock j godotvim.typo\n";
    let reg = registry();
    let mut joined = empty_index();
    let at_once = apply(&mut joined, &reg, &format!("{first}\n{second}"));
    let mut apart = empty_index();
    let mut in_turn = apply(&mut apart, &reg, first);
    for mut diagnostic in apply(&mut apart, &reg, second) {
        diagnostic.line = diagnostic.line.map(|n| n + 2);
        in_turn.push(diagnostic);
    }
    assert_eq!(listed(&joined), listed(&apart));
    assert_eq!(at_once, in_turn);
    assert_eq!(at_once.len(), 2);
    assert_eq!(at_once[1].line, Some(5));
}

// ── Messages ─────────────────────────────────────────────────────────

#[test]
fn every_reject_says_what_is_wrong() {
    let names = names_of(&[(ctrl('w'), "<C-w>")]);
    let say = |reject: RuleReject| reject.message(&names);
    assert!(say(RuleReject::UnknownSurface("dock.profiler".into())).contains("dock.profiler"));
    assert!(say(RuleReject::UnknownAction("godotvim.nope".into())).contains("godotvim.nope"));
    assert!(say(RuleReject::BarrierSurface("foreign")).contains("foreign"));
    assert!(say(RuleReject::MultiKeyOnEditorPath("panel")).contains("panel"));
    assert!(say(RuleReject::VimGrammarPrefix(ctrl('w'))).contains("<C-w>"));
    let gated = say(RuleReject::UnsatisfiableCapability {
        surface: "editor.completion",
        action: "godotvim.fs.delete".into(),
    });
    assert!(gated.contains("editor.completion") && gated.contains("godotvim.fs.delete"));
    let dead = say(RuleReject::UndispatchedTarget {
        surface: "dock",
        target: "<Shortcut>(a/b)".into(),
    });
    assert!(dead.contains("dock") && dead.contains("<Shortcut>(a/b)"));
    assert!(say(RuleReject::Parse(PanelParseError::CountOutOfRange(5000))).contains("5000"));
    assert!(say(RuleReject::Parse(PanelParseError::MissingOperand("a target"))).contains("a target"));
    assert!(say(RuleReject::Parse(PanelParseError::Other("odd".into()))).contains("odd"));
}

// ── Lines ────────────────────────────────────────────────────────────

#[test]
fn text_is_split_at_line_endings_of_either_kind() {
    for text in [
        "",
        "a",
        "a\n",
        "a\nb",
        "a\r\nb\r\n",
        "\n\n",
        "a\r",
        "a\rb\n",
        "a\r\r\nb",
        "é\nü\n\n",
    ] {
        let want: Vec<String> = text.lines().map(String::from).collect();
        assert_eq!(split_lines(text), want, "{text:?}");
    }
}
