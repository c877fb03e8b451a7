//! Resolving a keystroke against a surface path, and disposing of it.

use action_plane::action::{ActionId, ActionRegistry, ActionSpec, Params, RuleTarget};
use action_plane::action::MAX_ACTION_COUNT;
use action_plane::bind::{
    apply_text, builtin_index, BindingIndex, Consumption, MappingOwner, PanelFlags, PanelLine,
    PanelMap, PanelParseError, Provenance, Repeat, Rule, TargetSpec,
};
use action_plane::caps::Caps;
use action_plane::key::{Key, KeyEvent, Mode, Modifiers, Operator, VisualType};
use action_plane::keys::{parse_lhs, starts_vim_grammar_sequence, Probes};
use action_plane::outcome::Outcome;
use action_plane::providers::forest;
use action_plane::resolve::{
    dispose, engine_claims, resolve, Candidate, CandidateTarget, Disposition, Resolution,
    ResolveInput, Stop,
};
use action_plane::scripted::ScriptedRunner;
use action_plane::specs::registry;
use action_plane::surface::{Anchor, ChainNode, ClassMask, FocusChain, InstanceId, SurfacePath};
use compact_str::CompactString;

// ── Reading keys and lines ───────────────────────────────────────────

fn ch(c: char) -> KeyEvent {
    KeyEvent::new(Key::Char(c), Modifiers::none())
}

fn ctrl(c: char) -> KeyEvent {
    KeyEvent::new(Key::Char(c), Modifiers::ctrl())
}

/// One key between angle brackets.
fn bracketed(text: &str) -> KeyEvent {
    let mut body = text;
    let mut mods = Modifiers::none();
    loop {
        let (more, tail) = match body.get(..2) {
            Some("C-") => (Modifiers::ctrl(), &body[2..]),
            Some("S-") => (Modifiers::shift(), &body[2..]),
            Some("M-") => (Modifiers::alt(), &body[2..]),
            _ => break,
        };
        mods = mods.union(more);
        body = tail;
    }
    let key = match body {
        "CR" => Key::Enter,
        "Esc" => Key::Escape,
        "Tab" => Key::Tab,
        "Up" => Key::Up,
        "Down" => Key::Down,
        "F5" => Key::Function(5),
        other => Key::Char(other.chars().next().expect("a key")),
    };
    KeyEvent::new(key, mods)
}

/// What the engine's notation parser makes of a left-hand side.
fn notation(text: &str) -> Vec<KeyEvent> {
    let mut keys = Vec::new();
    let mut rest = text;
    while let Some(first) = rest.chars().next() {
        match rest.find('>') {
            Some(end) if first == '<' => {
                keys.push(bracketed(&rest[1..end]));
                rest = &rest[end + 1..];
            }
            _ => {
                keys.push(ch(first));
                rest = &rest[first.len_utf8()..];
            }
        }
    }
    keys
}

fn lhs(text: &str) -> Vec<KeyEvent> {
    parse_lhs(text, &notation(text)).expect("a left-hand side")
}

/// Whether the engine's grammar waits for another key after this one.
fn grammar(key: KeyEvent, _mode: Mode, _sneak: bool) -> bool {
    key == ctrl('w') || key == ctrl('\\') || matches!(key.key(), Key::Char('1'..='9'))
}

/// One line of a configuration.
fn read_line(line: &str) -> PanelLine {
    let mut words = line.split_whitespace();
    let verb = match words.next() {
        None => return PanelLine::Blank,
        Some(word) if word.starts_with('"') => return PanelLine::Blank,
        Some(word) => word,
    };
    let mut flags = PanelFlags {
        physical: false,
        void: false,
        norepeat: false,
        shift: false,
        nowait: false,
    };
    let mut operands: Vec<&str> = Vec::new();
    for word in words {
        match word {
            "<physical>" => flags.physical = true,
            "<void>" => flags.void = true,
            "<norepeat>" => flags.norepeat = true,
            "<shift>" => flags.shift = true,
            "<nowait>" => flags.nowait = true,
            _ => operands.push(word),
        }
    }
    let (surface, keys) = match operands.as_slice() {
        [] => return PanelLine::Fault(PanelParseError::MissingOperand("a surface")),
        [_] => return PanelLine::Fault(PanelParseError::MissingOperand("a left-hand side")),
        [surface, keys, ..] => (CompactString::new(surface), lhs(keys)),
    };
    if verb == "panelunmap" {
        return PanelLine::Unmap { surface, lhs: keys };
    }
    let target = match operands.get(2).copied() {
        None => return PanelLine::Fault(PanelParseError::MissingOperand("a target")),
        Some("native") => TargetSpec::Native,
        Some(word) => match word.strip_prefix("<Shortcut>(") {
            Some(path) => TargetSpec::Shortcut(CompactString::new(path.trim_end_matches(')'))),
            None => TargetSpec::Action(CompactString::new(word)),
        },
    };
    let mut params = Params::new();
    for word in &operands[3..] {
        let (name, value) = word.split_once('=').expect("a parameter");
        let value: i64 = value.parse().expect("a number");
        if name == "count" && !(1..=MAX_ACTION_COUNT).contains(&value) {
            return PanelLine::Fault(PanelParseError::CountOutOfRange(value));
        }
        params.set_int(name, value);
    }
    let grammar = starts_vim_grammar_sequence(keys[0], grammar);
    let map = PanelMap { surface, lhs: keys, target, params, flags };
    PanelLine::Bind { map, grammar }
}

/// The shipped bindings.
fn builtin(registry: &ActionRegistry) -> BindingIndex {
    builtin_index(registry, read_line)
}

// ── Focus chains ─────────────────────────────────────────────────────

fn node(class: &str, n: InstanceId, classes: ClassMask) -> ChainNode {
    ChainNode::new(class, class, n, classes)
}

fn tree(class: &str, n: InstanceId) -> ChainNode {
    node(class, n, ClassMask { tree: true, ..ClassMask::empty() })
}

fn item_list(class: &str, n: InstanceId) -> ChainNode {
    node(class, n, ClassMask { item_list: true, ..ClassMask::empty() })
}

fn line_edit(n: InstanceId) -> ChainNode {
    node("LineEdit", n, ClassMask { line_edit: true, ..ClassMask::empty() })
}

/// A code editor, which answers for its base class too.
fn code_edit(n: InstanceId) -> ChainNode {
    let classes = ClassMask { code_edit: true, text_edit: true, ..ClassMask::empty() };
    node("CodeEdit", n, classes)
}

/// Anything the vocabulary does not recognize.
fn plain(class: &str, n: InstanceId) -> ChainNode {
    node(class, n, ClassMask::empty())
}

// ── Resolving ────────────────────────────────────────────────────────

fn named(k: Key) -> KeyEvent {
    KeyEvent::new(k, Modifiers::none())
}

fn spec_of(name: &str) -> ActionSpec {
    let r = registry();
    *r.get(r.id_of(name).expect("registered")).expect("registered")
}

fn tree_caps() -> Caps {
    Caps::vnav().union(Caps::hierarchy()).union(Caps::activate())
}

fn list_caps() -> Caps {
    Caps::vnav().union(Caps::activate())
}

/// A path as the forest would produce it, with the capabilities spelled out.
fn path(leaf: &'static str, caps: Caps) -> SurfacePath {
    let forest = forest();
    let spec = forest.get(leaf).expect("declared surface");
    SurfacePath {
        ids: forest.path_from(leaf),
        anchor: Anchor::Node(0),
        caps,
        seal: spec.seal,
        anchor_yields_to_engine: spec.yields_to_engine,
        anchor_refuses_positional: spec.refuses_positional,
    }
}

const NEVER: &dyn Fn(KeyEvent) -> bool = &|_| false;
const ALWAYS: &dyn Fn(KeyEvent) -> bool = &|_| true;

fn run_on(p: &SurfacePath, keys: &[KeyEvent], claims: &dyn Fn(KeyEvent) -> bool) -> Resolution {
    resolve_with(p, &Probes::from_slice(keys), claims)
}

fn run_positional(
    p: &SurfacePath,
    keys: &[KeyEvent],
    claims: &dyn Fn(KeyEvent) -> bool,
) -> Resolution {
    resolve_with(p, &Probes::from_slice_positional(keys), claims)
}

fn resolve_with(
    p: &SurfacePath,
    probes: &Probes,
    claims: &dyn Fn(KeyEvent) -> bool,
) -> Resolution {
    let index = builtin(&registry());
    let reg = registry();
    resolve(&ResolveInput {
        probes,
        path: p,
        index: &index,
        registry: &reg,
        vim_claims: claims,
    })
}

fn action_of(res: &Resolution) -> Option<&'static str> {
    match res {
        Resolution::Run { candidates, .. } => match candidates.first()?.target {
            CandidateTarget::Action(_, spec) => Some(spec.id),
            CandidateTarget::Shortcut(_) => None,
        },
        Resolution::Nothing(_) => None,
    }
}

fn stop_of(res: &Resolution) -> Option<Stop> {
    match res {
        Resolution::Nothing(stop) => Some(*stop),
        Resolution::Run { .. } => None,
    }
}


// ── The precedence table, one row at a time ─────────────────────────

#[test]
fn row3_a_barrier_resolves_nothing() {
    for leaf in ["foreign", "editor.insert"] {
        let p = path(leaf, Caps::textentry());
        assert_eq!(
            stop_of(&run_on(&p, &[ctrl('h')], NEVER)),
            Some(Stop::Barrier),
            "{leaf} must intercept nothing"
        );
    }
}

#[test]
fn row4_the_deepest_surface_wins() {
    let fs = path("dock.filesystem", tree_caps().union(Caps::fileops()));
    assert_eq!(
        action_of(&run_on(&fs, &[ch('d')], NEVER)),
        Some("godotvim.fs.delete")
    );
    assert_eq!(
        action_of(&run_on(&fs, &[ch('j')], NEVER)),
        Some("godotvim.item.next")
    );
}

#[test]
fn row4_a_plain_dock_never_reaches_the_filesystem_keyset() {
    let dock = path("dock", tree_caps());
    assert_eq!(
        stop_of(&run_on(&dock, &[ch('d')], NEVER)),
        Some(Stop::Exhausted)
    );
    assert_eq!(
        stop_of(&run_on(&dock, &[ch('a')], NEVER)),
        Some(Stop::Exhausted)
    );
}

#[test]
fn row5_the_as_typed_probe_beats_the_positional_one() {
    let dock = path("dock", tree_caps());
    assert_eq!(
        action_of(&run_positional(&dock, &[ch('/'), ch('j')], NEVER)),
        Some("godotvim.dock.search")
    );
}

#[test]
fn row5_a_later_probe_recovers_a_non_latin_layout() {
    let dock = path("dock", tree_caps());
    assert_eq!(
        action_of(&run_on(&dock, &[ch('о'), ch('j')], NEVER)),
        Some("godotvim.item.next")
    );
}

#[test]
fn row5_the_positional_probe_is_offered_only_where_a_rule_asks_for_it() {
    let dock = path("dock", tree_caps());
    assert_eq!(
        action_of(&run_positional(&dock, &[ch('z'), ch('j')], NEVER)),
        Some("godotvim.item.next")
    );
}

/// The shipped bindings and some of the user's.
fn index_with(text: &str) -> BindingIndex {
    let reg = registry();
    let mut index = builtin(&reg);
    let mut rejected = Vec::new();
    let owner = MappingOwner::User;
    apply_text(
        &mut index,
        &reg,
        text,
        read_line,
        &owner,
        "vimrc",
        Provenance::User,
        &mut rejected,
    );
    assert_eq!(rejected, Vec::new());
    index
}

fn run_in(index: &BindingIndex, p: &SurfacePath, probes: &Probes) -> Resolution {
    let reg = registry();
    resolve(&ResolveInput {
        probes,
        path: p,
        index,
        registry: &reg,
        vim_claims: |_: KeyEvent| false,
    })
}

#[test]
fn a_guess_on_a_deeper_surface_does_not_outrank_the_typed_key() {
    // The dock below binds the guess, the dock above binds what was typed.
    let fs = path("dock.filesystem", tree_caps().union(Caps::fileops()));
    let Resolution::Run { matched, candidates } =
        run_positional(&fs, &[ch('j'), ch('y')], NEVER)
    else {
        panic!("the typed key is bound");
    };
    assert_eq!(matched, ch('j'));
    assert_eq!(candidates.len(), 1);
    assert_eq!(candidates[0].surface, "dock");
    assert_eq!(candidates[0].target, {
        let r = registry();
        let id = r.id_of("godotvim.item.next").expect("registered");
        CandidateTarget::Action(id, spec_of("godotvim.item.next"))
    });
}

#[test]
fn a_guess_is_taken_where_nothing_typed_is_bound() {
    let fs = path("dock.filesystem", tree_caps().union(Caps::fileops()));
    let Resolution::Run { matched, candidates } =
        run_positional(&fs, &[ch('z'), ch('j')], NEVER)
    else {
        panic!("the guess is bound");
    };
    assert_eq!(matched, ch('j'));
    assert_eq!(candidates[0].surface, "dock");
}

#[test]
fn a_native_key_that_was_typed_ends_the_walk_before_any_guess() {
    let index = index_with("panelmap dock z native");
    let fs = path("dock.filesystem", tree_caps().union(Caps::fileops()));
    let res = run_in(&index, &fs, &Probes::from_slice_positional(&[ch('z'), ch('j')]));
    assert_eq!(stop_of(&res), Some(Stop::Native("dock")));
}

#[test]
fn a_rule_without_physical_is_not_reached_by_position() {
    let bare = index_with("panelmap dock q godotvim.item.activate");
    let dock = path("dock", tree_caps());
    let guessed = Probes::from_slice_positional(&[ch('z'), ch('q')]);
    assert!(bare.has_physical_rule("dock"), "another rule there asks for the guess");
    assert_eq!(stop_of(&run_in(&bare, &dock, &guessed)), Some(Stop::Exhausted));
    let typed = Probes::from_slice(&[ch('q')]);
    assert_eq!(action_of(&run_in(&bare, &dock, &typed)), Some("godotvim.item.activate"));
    let flagged = index_with("panelmap <physical> dock q godotvim.item.activate");
    assert_eq!(
        action_of(&run_in(&flagged, &dock, &guessed)),
        Some("godotvim.item.activate")
    );
}

#[test]
fn the_typed_latin_key_outranks_a_deeper_guess_too() {
    let fs = path("dock.filesystem", tree_caps().union(Caps::fileops()));
    assert_eq!(
        action_of(&run_positional(&fs, &[ch('о'), ch('j'), ch('y')], NEVER)),
        Some("godotvim.item.next")
    );
}

#[test]
fn a_sealed_anchor_keeps_a_bare_guess_too() {
    let search = path("searchbox", Caps::textentry());
    assert_eq!(
        stop_of(&run_positional(&search, &[ch('z'), ch('j')], NEVER)),
        Some(Stop::Sealed("searchbox"))
    );
}

#[test]
fn row6_a_sealed_anchor_swallows_a_bare_key_and_passes_a_chord() {
    let search = path("searchbox", Caps::textentry());
    assert_eq!(
        stop_of(&run_on(&search, &[ch('x')], NEVER)),
        Some(Stop::Sealed("searchbox"))
    );
    assert_eq!(
        action_of(&run_on(&search, &[ctrl('l')], NEVER)),
        Some("godotvim.focus.right")
    );
}

#[test]
fn row6_the_prompt_is_sealed_with_no_rules_at_all() {
    let prompt = path("prompt", Caps::textentry());
    for key in [named(Key::Enter), named(Key::Escape), ch('a')] {
        assert_eq!(
            stop_of(&run_on(&prompt, &[key], NEVER)),
            Some(Stop::Sealed("prompt")),
            "{key:?} must reach the prompt LineEdit"
        );
    }
    assert_eq!(
        action_of(&run_on(&prompt, &[ctrl('k')], NEVER)),
        Some("godotvim.focus.up")
    );
}

#[test]
fn row7_a_capability_miss_skips_the_candidate_and_walks_on() {
    let list = path("dock", list_caps());
    assert_eq!(
        stop_of(&run_on(&list, &[ch('l')], NEVER)),
        Some(Stop::Exhausted)
    );
    let tree = path("dock", tree_caps());
    assert_eq!(
        action_of(&run_on(&tree, &[ch('l')], NEVER)),
        Some("godotvim.item.expand")
    );
}

#[test]
fn row7_a_rich_text_label_keeps_vertical_navigation() {
    let docs = path("dock", Caps::vnav());
    assert_eq!(
        action_of(&run_on(&docs, &[ch('j')], NEVER)),
        Some("godotvim.item.next")
    );
    assert_eq!(
        stop_of(&run_on(&docs, &[named(Key::Enter)], NEVER)),
        Some(Stop::Exhausted)
    );
}

#[test]
fn row10_native_terminates_the_walk_instead_of_falling_through() {
    let mut index = builtin(&registry());
    index.upsert(Rule {
        surface: "dock",
        lhs: vec![ctrl('h')],
        target: RuleTarget::Native,
        params: Params::new(),
        consume: Consumption::Elastic,
        repeat: Repeat::Allow,
        physical: false,
        shift_tolerant: false,
        nowait: false,
        owner: MappingOwner::User,
        desc: "give it back".into(),
    });
    let reg = registry();
    let p = path("dock", tree_caps());
    let probes = Probes::from_slice(&[ctrl('h')]);
    let res = resolve(&ResolveInput {
        probes: &probes,
        path: &p,
        index: &index,
        registry: &reg,
        vim_claims: NEVER,
    });
    assert_eq!(stop_of(&res), Some(Stop::Native("dock")));
}

#[test]
fn row11_the_editor_yields_a_key_the_engine_claims() {
    let editor = path("editor.nav", Caps::empty());
    assert_eq!(
        action_of(&run_on(&editor, &[ctrl('h')], NEVER)),
        Some("godotvim.focus.left")
    );
    assert_eq!(
        stop_of(&run_on(&editor, &[ctrl('h')], ALWAYS)),
        Some(Stop::Yielded(ctrl('h')))
    );
}

#[test]
fn row11_arbitration_is_evaluated_on_the_key_that_matched() {
    let editor = path("editor.nav", Caps::empty());
    let claims_h: &dyn Fn(KeyEvent) -> bool = &|k| k == ctrl('h');
    assert_eq!(
        stop_of(&run_on(&editor, &[ctrl('х'), ctrl('h')], claims_h)),
        Some(Stop::Yielded(ctrl('h')))
    );
}

#[test]
fn row11_only_the_editor_ever_asks_the_engine() {
    let dock = path("dock", tree_caps());
    assert_eq!(
        action_of(&run_on(&dock, &[ctrl('h')], ALWAYS)),
        Some("godotvim.focus.left")
    );
}

// ── The arbitration polarity ─────────────────────────────────────

#[test]
fn resolve_no_controller_means_intercept() {
    let never_asked = |_: &(), _: KeyEvent| panic!("must not consult a missing controller");
    assert!(!engine_claims(None::<&()>, ctrl('h'), never_asked));
}

#[test]
fn a_controller_that_claims_the_key_wins() {
    assert!(engine_claims(Some(&()), ctrl('h'), |_, _| true));
    assert!(!engine_claims(Some(&()), ctrl('h'), |_, _| false));
}

#[test]
fn arbitration_asks_about_the_matched_key_only() {
    let editor = path("editor.nav", Caps::empty());
    let seen = std::cell::RefCell::new(Vec::new());
    let record: &dyn Fn(KeyEvent) -> bool = &|k| {
        seen.borrow_mut().push(k);
        false
    };
    run_on(&editor, &[ctrl('h')], record);
    assert_eq!(seen.into_inner(), vec![ctrl('h')]);
}

#[test]
fn a_barrier_never_asks_the_engine_at_all() {
    let insert = path("editor.insert", Caps::empty());
    let never = |_: &(), _: KeyEvent| panic!("a barrier must not resolve");
    assert!(!engine_claims(None::<&()>, ctrl('h'), never));
    assert_eq!(
        stop_of(&run_on(&insert, &[ctrl('h')], ALWAYS)),
        Some(Stop::Barrier)
    );
}

// ── The positional refusal ──────────────────────────────────────────

#[test]
fn the_editor_refuses_the_positional_probe() {
    let editor = path("editor.nav", Caps::empty());
    assert_eq!(
        stop_of(&run_positional(&editor, &[ctrl('d'), ctrl('h')], NEVER)),
        Some(Stop::Exhausted),
        "Ctrl+d in the editor must stay half-page-down"
    );
    for chord in [ctrl('n'), ctrl('e')] {
        assert_eq!(
            stop_of(&run_positional(&editor, &[chord, ctrl('j')], NEVER)),
            Some(Stop::Exhausted),
            "{chord:?} in the editor must reach the engine"
        );
    }
    let dock = path("dock", tree_caps());
    assert_eq!(
        action_of(&run_positional(&dock, &[ctrl('d'), ctrl('h')], NEVER)),
        Some("godotvim.focus.left")
    );
}

#[test]
fn the_editor_still_gets_the_latin_probe() {
    let editor = path("editor.nav", Caps::empty());
    assert_eq!(
        action_of(&run_on(&editor, &[ctrl('х'), ctrl('h')], NEVER)),
        Some("godotvim.focus.left")
    );
}

// ── Consumption ─────────────────────────────────────────────────────

fn void_plan() -> Vec<Candidate> {
    vec![Candidate {
        surface: "panel",
        target: CandidateTarget::Action(ActionId(0), spec_of("godotvim.focus.left")),
        params: Params::new(),
        consume: Consumption::Void,
        repeat: Repeat::Suppress,
    }]
}

fn elastic_plan() -> Vec<Candidate> {
    vec![Candidate {
        surface: "dock",
        target: CandidateTarget::Action(ActionId(0), spec_of("godotvim.item.next")),
        params: Params::new(),
        consume: Consumption::Elastic,
        repeat: Repeat::Allow,
    }]
}

/// A runner that gives one answer to every candidate.
fn always(outcome: Outcome) -> ScriptedRunner {
    ScriptedRunner { answers: vec![outcome; 8], log: Vec::new() }
}

/// Where the candidates that ran came from, in order.
fn ran_on(run: &ScriptedRunner) -> Vec<&'static str> {
    run.log.iter().map(|(candidate, _)| candidate.surface).collect()
}

#[test]
fn void_consumes_even_when_the_action_declines() {
    let mut run = always(Outcome::Declined);
    let d = dispose(&void_plan(), false, &mut run);
    assert_eq!(d, Disposition::Consume);
    assert_eq!(run.log.len(), 1, "Void still runs the action; it ignores the answer");
}

#[test]
fn elastic_does_not_consume_a_declination() {
    let d = dispose(&elastic_plan(), false, &mut always(Outcome::Declined));
    assert_eq!(d, Disposition::Ignore);
}

#[test]
fn elastic_consumes_an_acceptance() {
    for outcome in [Outcome::Handled, Outcome::FocusChanged] {
        assert_eq!(
            dispose(&elastic_plan(), false, &mut always(outcome)),
            Disposition::Consume
        );
    }
}

#[test]
fn declination_falls_through_to_the_next_candidate() {
    let mut plan = elastic_plan();
    plan.extend(void_plan());
    let mut run = always(Outcome::Declined);
    let d = dispose(&plan, false, &mut run);
    assert_eq!(ran_on(&run), vec!["dock", "panel"], "the walk must continue");
    assert_eq!(d, Disposition::Consume, "…and Void still terminates it");
}

#[test]
fn an_exhausted_plan_consumes_nothing() {
    assert_eq!(
        dispose(&[], false, &mut always(Outcome::Handled)),
        Disposition::Ignore
    );
}

#[test]
fn a_suppressed_echo_consumes_without_running() {
    let mut run = always(Outcome::Handled);
    let d = dispose(&void_plan(), true, &mut run);
    assert_eq!(d, Disposition::Consume, "an echo must not leak to Godot");
    assert_eq!(run.log.len(), 0, "…and must not queue another grab_focus");
}

#[test]
fn an_allowed_echo_runs_normally() {
    let mut run = always(Outcome::Handled);
    let d = dispose(&elastic_plan(), true, &mut run);
    assert_eq!(d, Disposition::Consume);
    assert_eq!(run.log.len(), 1);
}

#[test]
fn nothing_runs_after_the_candidate_that_decides() {
    let mut plan = elastic_plan();
    plan.extend(elastic_plan());
    plan.extend(void_plan());
    let mut run = ScriptedRunner {
        answers: vec![Outcome::Declined, Outcome::Handled],
        log: Vec::new(),
    };
    assert_eq!(dispose(&plan, false, &mut run), Disposition::Consume);
    assert_eq!(
        run.log,
        vec![
            (plan[0].clone(), Outcome::Declined),
            (plan[1].clone(), Outcome::Handled)
        ]
    );
}

#[test]
fn a_suppressed_echo_runs_what_stands_before_it_and_nothing_else() {
    let mut plan = elastic_plan();
    plan.extend(void_plan());
    plan.extend(elastic_plan());
    let mut run = always(Outcome::Declined);
    assert_eq!(dispose(&plan, true, &mut run), Disposition::Consume);
    assert_eq!(ran_on(&run), vec!["dock"]);
}

// ── The full shipped default set, resolved ───────────────────────

#[test]
fn the_four_panel_chords_resolve_from_every_non_barrier_surface() {
    let wanted = [
        (ctrl('h'), "godotvim.focus.left"),
        (ctrl('j'), "godotvim.focus.down"),
        (ctrl('k'), "godotvim.focus.up"),
        (ctrl('l'), "godotvim.focus.right"),
    ];
    for leaf in [
        "dock.filesystem",
        "dock",
        "searchbox",
        "prompt",
        "unknown",
        "panel",
        "editor.nav",
    ] {
        let p = path(leaf, Caps::all());
        for (key, id) in wanted {
            assert_eq!(
                action_of(&run_on(&p, &[key], NEVER)),
                Some(id),
                "{key:?} must reach {id} from {leaf}"
            );
        }
    }
}

#[test]
fn the_panel_chords_are_void_and_norepeat_wherever_they_resolve() {
    let p = path("unknown", Caps::empty());
    let Resolution::Run { candidates, .. } = run_on(&p, &[ctrl('h')], NEVER) else {
        panic!("Ctrl+h must resolve with no focus owner at all");
    };
    assert_eq!(candidates[0].consume, Consumption::Void);
    assert_eq!(candidates[0].repeat, Repeat::Suppress);
    assert_eq!(candidates[0].surface, "panel");
}

#[test]
fn the_filesystem_keyset_needs_fileops() {
    let no_grant = SurfacePath {
        caps: tree_caps(),
        ..path("dock.filesystem", tree_caps())
    };
    for key in ['a', 'd', 'r', 'y', 'R'] {
        assert_eq!(
            stop_of(&run_on(&no_grant, &[ch(key)], NEVER)),
            Some(Stop::Exhausted),
            "{key:?} must be gated out without FILEOPS"
        );
    }
}

#[test]
fn the_search_box_tolerates_shift_where_a_dock_does_not() {
    let search = path("searchbox", Caps::textentry());
    let shift_enter = KeyEvent::new(Key::Enter, Modifiers::shift());
    assert_eq!(
        action_of(&run_on(&search, &[shift_enter], NEVER)),
        Some("godotvim.search.accept")
    );
    let dock = path("dock", tree_caps());
    assert_eq!(
        stop_of(&run_on(&dock, &[shift_enter], NEVER)),
        Some(Stop::Exhausted),
        "Shift+Enter is inert in a dock"
    );
}

#[test]
fn every_shipped_default_resolves_to_a_registered_verb() {
    let index = builtin(&registry());
    let reg = registry();
    assert!(!index.is_empty());
    for rule in index.rules() {
        let RuleTarget::Action(id) = rule.target else {
            continue;
        };
        assert!(
            reg.get(id).is_some(),
            "{:?} on {} names no spec",
            rule.lhs,
            rule.surface
        );
    }
}

#[test]
fn the_forest_audit_is_clean() {
    let errors = forest().audit();
    assert!(errors.is_empty(), "{errors:?}");
}

// ── From a chain, through the classifier, to the verb ────────────────

const ATTACHED: InstanceId = 7;

fn editor(mode: Option<Mode>) -> FocusChain {
    FocusChain {
        nodes: vec![code_edit(ATTACHED), plain("CodeTextEditor", 8)],
        attached_editor: Some(ATTACHED),
        editor_mode: mode,
        ..Default::default()
    }
}

fn resolve_chain(
    chain: &FocusChain,
    keys: &[KeyEvent],
    claims: &dyn Fn(KeyEvent) -> bool,
) -> Resolution {
    let path = forest()
        .classify(chain)
        .expect("the shipped forest is total");
    resolve_with(&path, &Probes::from_slice(keys), claims)
}

#[test]
fn insert_like_modes_never_intercept_the_panel_chords() {
    for mode in [
        Mode::Insert,
        Mode::Replace,
        Mode::VirtualReplace,
        Mode::CommandLine,
        Mode::Select(VisualType::Char),
        Mode::Select(VisualType::Line),
        Mode::Select(VisualType::Block),
    ] {
        for key in [ctrl('h'), ctrl('j'), ctrl('k'), ctrl('l')] {
            assert_eq!(
                stop_of(&resolve_chain(&editor(Some(mode)), &[key], NEVER)),
                Some(Stop::Barrier),
                "{mode:?} must not intercept {key:?}"
            );
        }
    }
}

#[test]
fn nav_modes_do_intercept_the_panel_chords() {
    for mode in [
        Mode::Normal,
        Mode::Visual(VisualType::Char),
        Mode::OperatorPending(Operator::Delete),
    ] {
        assert_eq!(
            action_of(&resolve_chain(&editor(Some(mode)), &[ctrl('h')], NEVER)),
            Some("godotvim.focus.left"),
            "{mode:?} must navigate"
        );
    }
}

#[test]
fn no_controller_at_all_still_intercepts() {
    assert_eq!(
        action_of(&resolve_chain(&editor(None), &[ctrl('h')], NEVER)),
        Some("godotvim.focus.left")
    );
}

#[test]
fn a_foreign_text_input_is_never_touched() {
    let foreign = FocusChain {
        nodes: vec![
            line_edit(1),
            plain("VBoxContainer", 2),
        ],
        ..Default::default()
    };
    for key in [ctrl('h'), ch('j'), named(Key::Escape)] {
        assert_eq!(
            stop_of(&resolve_chain(&foreign, &[key], NEVER)),
            Some(Stop::Barrier),
            "{key:?} must reach the LineEdit"
        );
    }
}

#[test]
fn a_non_attached_code_edit_is_foreign() {
    let theirs = FocusChain {
        nodes: vec![code_edit(99)],
        attached_editor: Some(ATTACHED),
        editor_mode: Some(Mode::Normal),
        ..Default::default()
    };
    assert_eq!(
        stop_of(&resolve_chain(&theirs, &[ctrl('h')], NEVER)),
        Some(Stop::Barrier)
    );
}

#[test]
fn no_focus_owner_still_reaches_the_panel_chords() {
    let nothing = FocusChain::default();
    let Resolution::Run { candidates, .. } = resolve_chain(&nothing, &[ctrl('j')], NEVER)
    else {
        panic!("Ctrl+j must resolve with no focus owner at all");
    };
    assert_eq!(candidates[0].surface, "panel");
    assert_eq!(candidates[0].consume, Consumption::Void);
    assert_eq!(
        dispose(&candidates, false, &mut always(Outcome::Declined)),
        Disposition::Consume
    );
}

#[test]
fn the_filesystem_dock_gets_first_refusal_by_depth_alone() {
    let fs = FocusChain {
        nodes: vec![
            tree("FileSystemTree", 1),
            plain("SplitContainer", 2),
            plain("FileSystemDock", 3),
        ],
        in_filesystem_dock: true,
        ..Default::default()
    };
    for (key, want) in [
        ('a', "godotvim.fs.create"),
        ('d', "godotvim.fs.delete"),
        ('r', "godotvim.fs.rename"),
        ('y', "godotvim.fs.yank_path"),
        ('R', "godotvim.fs.refresh"),
    ] {
        assert_eq!(
            action_of(&resolve_chain(&fs, &[ch(key)], NEVER)),
            Some(want),
            "{key:?} must resolve on dock.filesystem"
        );
    }
    assert_eq!(
        action_of(&resolve_chain(&fs, &[ch('j')], NEVER)),
        Some("godotvim.item.next")
    );
}

#[test]
fn the_same_widget_outside_the_filesystem_dock_has_no_file_keyset() {
    let scene = FocusChain {
        nodes: vec![tree("SceneTreeEditor", 1), plain("SceneTreeDock", 2)],
        ..Default::default()
    };
    for key in ['a', 'd', 'r', 'y', 'R'] {
        assert_eq!(
            stop_of(&resolve_chain(&scene, &[ch(key)], NEVER)),
            Some(Stop::Exhausted),
            "{key:?} must be unbound outside the FileSystem dock"
        );
    }
}

#[test]
fn hierarchy_keys_go_inert_on_a_list_and_live_on_a_tree() {
    let list = FocusChain {
        nodes: vec![item_list("ItemList", 1), plain("VBoxContainer", 2)],
        ..Default::default()
    };
    let a_tree = FocusChain {
        nodes: vec![tree("Tree", 1), plain("VBoxContainer", 2)],
        ..Default::default()
    };
    for key in ['h', 'l'] {
        assert_eq!(
            stop_of(&resolve_chain(&list, &[ch(key)], NEVER)),
            Some(Stop::Exhausted),
            "{key:?} must be inert on an ItemList"
        );
        assert!(
            action_of(&resolve_chain(&a_tree, &[ch(key)], NEVER)).is_some(),
            "{key:?} must work on a Tree"
        );
    }
    for chain in [&list, &a_tree] {
        assert_eq!(
            action_of(&resolve_chain(chain, &[ch('j')], NEVER)),
            Some("godotvim.item.next")
        );
    }
}

#[test]
fn every_probe_relevant_fact_moves_the_classification() {
    let forest = forest();
    let ids = |chain: &FocusChain| forest.classify(chain).expect("total").ids;

    let empty = FocusChain::default();
    let with_tree = FocusChain {
        nodes: vec![tree("Tree", 1)],
        ..Default::default()
    };
    assert_ne!(ids(&empty), ids(&with_tree));

    let code = FocusChain {
        nodes: vec![code_edit(ATTACHED)],
        editor_mode: Some(Mode::Normal),
        ..Default::default()
    };
    let attached = FocusChain {
        attached_editor: Some(ATTACHED),
        ..code.clone()
    };
    assert_ne!(ids(&code), ids(&attached));

    let inserting = FocusChain {
        editor_mode: Some(Mode::Insert),
        ..attached.clone()
    };
    assert_ne!(ids(&attached), ids(&inserting));

    let fs = FocusChain {
        in_filesystem_dock: true,
        ..with_tree.clone()
    };
    assert_ne!(ids(&with_tree), ids(&fs));

    let bare_line = FocusChain {
        nodes: vec![line_edit(1)],
        ..Default::default()
    };
    let filter_box = FocusChain {
        sibling_nav_control: Some(9),
        ..bare_line.clone()
    };
    assert_ne!(ids(&bare_line), ids(&filter_box));

    let prompt = FocusChain {
        is_plugin_prompt: true,
        ..bare_line.clone()
    };
    assert_ne!(ids(&bare_line), ids(&prompt));
}

#[test]
fn a_focused_button_in_a_dock_still_gets_the_panel_chords() {
    let button = FocusChain {
        nodes: vec![plain("Button", 1), plain("HBoxContainer", 2)],
        ..Default::default()
    };
    assert_eq!(
        action_of(&resolve_chain(&button, &[ctrl('l')], NEVER)),
        Some("godotvim.focus.right")
    );
    assert_eq!(
        stop_of(&resolve_chain(&button, &[ch('j')], NEVER)),
        Some(Stop::Exhausted)
    );
}

#[test]
fn a_target_is_known_by_its_name_and_id() {
    let verb = |id: u32, spec: ActionSpec| CandidateTarget::Action(ActionId(id), spec);
    let next = spec_of("godotvim.item.next");
    let renamed = ActionSpec { desc: "another description", ..next };
    assert_eq!(verb(1, next), verb(1, renamed), "the description does not matter");
    assert_ne!(verb(1, next), verb(2, next));
    assert_ne!(verb(1, next), verb(1, spec_of("godotvim.item.prev")));
    let path = |p: &str| CandidateTarget::Shortcut(CompactString::new(p));
    assert_eq!(path("a/b"), path("a/b"));
    assert_ne!(path("a/b"), path("a/c"));
    assert_ne!(path("a/b"), verb(1, next));
}
