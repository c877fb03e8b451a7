//! Spelling keys: canonical forms, left-hand sides and probe lists.

use action_plane::key::{Key, KeyEvent, Mode, Modifiers};
use action_plane::keys::{
    canonicalize, collapse_latin, parse_lhs, probes_from_parts, starts_vim_grammar_sequence,
    validate_lhs_key, LhsError, Probes,
};

fn ch(c: char) -> KeyEvent {
    KeyEvent::new(Key::Char(c), Modifiers::none())
}

fn named(k: Key) -> KeyEvent {
    KeyEvent::new(k, Modifiers::none())
}

fn ctrl(c: char) -> KeyEvent {
    KeyEvent::new(Key::Char(c), Modifiers::ctrl())
}

/// What the engine's notation parser makes of the spellings used below: plain
/// characters, and `<..>` around one character with `C-` or `S-` before it.
fn notation(text: &str) -> Vec<KeyEvent> {
    let mut keys = Vec::new();
    let mut rest = text;
    while let Some(first) = rest.chars().next() {
        let close = rest.find('>');
        match close {
            Some(end) if first == '<' => {
                let mut body = &rest[1..end];
                let mut mods = Modifiers::none();
                loop {
                    if let Some(tail) = body.strip_prefix("C-") {
                        mods = mods.union(Modifiers::ctrl());
                        body = tail;
                    } else if let Some(tail) = body.strip_prefix("S-") {
                        mods = mods.union(Modifiers::shift());
                        body = tail;
                    } else {
                        break;
                    }
                }
                keys.push(KeyEvent::new(Key::Char(body.chars().next().unwrap()), mods));
                rest = &rest[end + 1..];
            }
            _ => {
                keys.push(ch(first));
                rest = &rest[first.len_utf8()..];
            }
        }
    }
    keys
}

fn lhs(text: &str) -> Result<Vec<KeyEvent>, LhsError> {
    parse_lhs(text, &notation(text))
}

/// The engine's grammar on one key, as far as the rows below ask: a window or
/// terminal chord waits, and a digit starts a count.
fn grammar(key: KeyEvent, _mode: Mode, _sneak: bool) -> bool {
    key == ctrl('w') || key == ctrl('\\') || matches!(key.key(), Key::Char('1'..='9'))
}

// ── canonicalize ─────────────────────────────────────────────────────

#[test]
fn shifted_lowercase_folds_to_uppercase() {
    let from_notation = KeyEvent::new(Key::Char('r'), Modifiers::shift());
    assert_eq!(canonicalize(from_notation), ch('R'));
}

#[test]
fn shifted_uppercase_also_folds() {
    let from_notation = KeyEvent::new(Key::Char('R'), Modifiers::shift());
    assert_eq!(canonicalize(from_notation), ch('R'));
}

#[test]
fn a_bare_uppercase_char_is_already_canonical() {
    // What the runtime delivers for Shift+r.
    assert_eq!(canonicalize(ch('R')), ch('R'));
}

#[test]
fn all_three_spellings_of_shift_r_intern_identically() {
    let runtime = ch('R');
    let s_lower = KeyEvent::new(Key::Char('r'), Modifiers::shift());
    let s_upper = KeyEvent::new(Key::Char('R'), Modifiers::shift());
    assert_eq!(canonicalize(runtime), canonicalize(s_lower));
    assert_eq!(canonicalize(s_lower), canonicalize(s_upper));
}

#[test]
fn ctrl_shift_is_not_folded() {
    // `<C-S-f>` is a distinct chord from `<C-F>`.
    let k = KeyEvent::new(Key::Char('f'), Modifiers::ctrl().union(Modifiers::shift()));
    assert_eq!(canonicalize(k), k);
}

#[test]
fn shifted_digits_and_symbols_are_not_folded() {
    // There is no canonical form: `<S-1>` is `!` on one layout, `+` on another.
    for c in ['1', '/', '-', '='] {
        let k = KeyEvent::new(Key::Char(c), Modifiers::shift());
        assert_eq!(canonicalize(k), k, "{c} should not fold");
    }
}

#[test]
fn named_keys_keep_their_shift() {
    let k = KeyEvent::new(Key::Tab, Modifiers::shift());
    assert_eq!(canonicalize(k), k);
}

#[test]
fn a_non_ascii_char_is_left_alone_and_keeps_its_latin_override() {
    let k = KeyEvent::new(Key::Char('ф'), Modifiers::shift()).with_latin(Key::Char('a'));
    assert_eq!(canonicalize(k), k);
    assert_eq!(canonicalize(k).latin_key(), Some(Key::Char('a')));
}

#[test]
fn canonicalize_is_idempotent() {
    for k in [
        ch('R'),
        KeyEvent::new(Key::Char('r'), Modifiers::shift()),
        KeyEvent::new(Key::Char('1'), Modifiers::shift()),
        named(Key::Enter),
    ] {
        assert_eq!(canonicalize(canonicalize(k)), canonicalize(k));
    }
}

#[test]
fn canonicalize_is_a_fixpoint_over_all_of_ascii() {
    for c in '!'..='~' {
        for shift in [false, true] {
            for with_ctrl in [false, true] {
                let mut mods = Modifiers::none();
                if shift {
                    mods = mods.union(Modifiers::shift());
                }
                if with_ctrl {
                    mods = mods.union(Modifiers::ctrl());
                }
                let once = canonicalize(KeyEvent::new(Key::Char(c), mods));
                assert_eq!(canonicalize(once), once);
            }
        }
    }
}

// ── validate_lhs_key ─────────────────────────────────────────────────

#[test]
fn a_shifted_symbol_lhs_is_rejected_with_advice() {
    let err = validate_lhs_key(KeyEvent::new(Key::Char('1'), Modifiers::shift())).unwrap_err();
    assert_eq!(err, LhsError::UnspellableShift('1'));
    assert!(err.message().contains("write the literal character"));
}

#[test]
fn ordinary_left_hand_sides_are_accepted() {
    for k in [
        ch('a'),
        ch('R'),
        ch('/'),
        named(Key::Enter),
        named(Key::Escape),
        ctrl('h'),
        KeyEvent::new(Key::Tab, Modifiers::shift()),
        KeyEvent::new(Key::Char('1'), Modifiers::ctrl().union(Modifiers::shift())),
    ] {
        assert!(validate_lhs_key(k).is_ok(), "{k:?} should be a valid LHS");
    }
}

// ── parse_lhs ────────────────────────────────────────────────────────

#[test]
fn parse_lhs_handles_single_and_multi_key_notation() {
    assert_eq!(lhs("a").unwrap(), vec![ch('a')]);
    assert_eq!(lhs("dd").unwrap(), vec![ch('d'), ch('d')]);
    assert_eq!(lhs("<C-h>").unwrap(), vec![ctrl('h')]);
}

#[test]
fn parse_lhs_canonicalizes_what_it_parses() {
    // The two planes must not disagree about how `<S-r>` is spelled.
    assert_eq!(lhs("<S-r>").unwrap(), vec![ch('R')]);
}

#[test]
fn parse_lhs_caps_the_sequence_length() {
    // A longer left-hand side would be cut into a binding nobody wrote.
    assert_eq!(lhs("abcdefgh").map(|k| k.len()), Ok(8));
    assert_eq!(lhs("abcdefghi"), Err(LhsError::TooLong(9)));
    assert!(lhs("abcdefghi").unwrap_err().message().contains("at most 8"));
}

#[test]
fn parse_lhs_rejects_empty_and_unspellable() {
    assert_eq!(lhs(""), Err(LhsError::Empty));
    assert_eq!(
        lhs("<S-1>"),
        Err(LhsError::UnspellableShift('1')),
        "a binding that can never fire must not load"
    );
}

#[test]
fn a_notation_that_yields_no_key_is_unparseable() {
    let err = parse_lhs("<nonsense>", &[]).unwrap_err();
    assert_eq!(err, LhsError::Unparseable("<nonsense>".to_string()));
    assert!(err.message().contains("<nonsense>"));
}

// ── starts_vim_grammar_sequence ──────────────────────────────────────

#[test]
fn the_vim_core_grammar_prefix_canary() {
    let rows: &[(&str, KeyEvent, bool)] = &[
        // Starts a grammar sequence: consuming it destroys the next key.
        ("<C-w>", ctrl('w'), true),
        ("<C-\\>", ctrl('\\'), true),
        // The shipped panel keyset.
        ("<C-h>", ctrl('h'), false),
        ("<C-j>", ctrl('j'), false),
        ("<C-k>", ctrl('k'), false),
        ("<C-l>", ctrl('l'), false),
    ];
    for (name, key, want) in rows {
        assert_eq!(
            starts_vim_grammar_sequence(*key, grammar),
            *want,
            "the answer for {name} changed"
        );
    }
}

#[test]
fn the_guard_is_reached_through_the_same_notation_users_type() {
    let keys = lhs("<C-w>").expect("valid notation");
    assert!(starts_vim_grammar_sequence(keys[0], grammar));
    let keys = lhs("<C-h>").expect("valid notation");
    assert!(!starts_vim_grammar_sequence(keys[0], grammar));
}

#[test]
fn a_bare_digit_starts_a_count_and_is_therefore_a_prefix() {
    for c in ['1', '9'] {
        assert!(
            starts_vim_grammar_sequence(ch(c), grammar),
            "{c} begins a count and must be refused"
        );
    }
}

#[test]
fn one_waiting_answer_in_any_mode_is_enough() {
    let visual_only = |_: KeyEvent, mode: Mode, _: bool| matches!(mode, Mode::Visual(_));
    let sneak_only = |_: KeyEvent, _: Mode, sneak: bool| sneak;
    let never = |_: KeyEvent, _: Mode, _: bool| false;
    assert!(starts_vim_grammar_sequence(ch('s'), visual_only));
    assert!(starts_vim_grammar_sequence(ch('s'), sneak_only));
    assert!(!starts_vim_grammar_sequence(ch('s'), never));
}

// ── Probes ───────────────────────────────────────────────────────────

#[test]
fn probes_deduplicate() {
    let p = Probes::from_slice(&[ch('j'), ch('j'), ch('j')]);
    assert_eq!(p.iter().len(), 1);
}

#[test]
fn probes_preserve_priority_order() {
    let p = Probes::from_slice(&[ch('/'), ch('j')]);
    assert_eq!(p.iter(), vec![ch('/'), ch('j')]);
    assert_eq!(p.primary(), Some(ch('/')));
}

#[test]
fn probes_saturate_at_three() {
    let p = Probes::from_slice(&[ch('a'), ch('b'), ch('c'), ch('d')]);
    assert_eq!(p.iter().len(), 3);
}

#[test]
fn resolve_tries_the_whole_table_at_each_probe_before_the_next() {
    // A table owning both `/` and `j`, given probes [`/`, `j`], must answer
    // for the slash.
    let table = |k: KeyEvent| match k.key() {
        Key::Char('/') => Some("slash"),
        Key::Char('j') => Some("down"),
        _ => None,
    };
    let p = Probes::from_slice(&[ch('/'), ch('j')]);
    assert_eq!(p.resolve(table), Some("slash"));

    // ...and the fallback still works when the first probe misses.
    let p = Probes::from_slice(&[ch('ц'), ch('j')]);
    assert_eq!(p.resolve(table), Some("down"));
}

#[test]
fn resolve_yields_none_when_no_probe_matches() {
    let p = Probes::from_slice(&[ch('z')]);
    assert_eq!(p.resolve(|_| None::<()>), None);
    assert_eq!(Probes::default().resolve(|_| Some(())), None);
    assert!(Probes::default().is_empty());
}

#[test]
fn collapse_latin_only_fires_when_there_is_an_override() {
    assert_eq!(collapse_latin(ch('j')), None);
    let cyrillic = KeyEvent::new(Key::Char('о'), Modifiers::none()).with_latin(Key::Char('j'));
    assert_eq!(collapse_latin(cyrillic), Some(ch('j')));
}

#[test]
fn collapse_latin_keeps_modifiers() {
    let k = KeyEvent::new(Key::Char('о'), Modifiers::ctrl()).with_latin(Key::Char('j'));
    assert_eq!(collapse_latin(k), Some(ctrl('j')));
}

#[test]
fn a_command_modifier_on_any_probe_counts() {
    assert!(!Probes::from_slice(&[ch('j'), ch('k')]).has_command_modifier());
    assert!(Probes::from_slice(&[ch('j'), ctrl('k')]).has_command_modifier());
    let shifted = KeyEvent::new(Key::Tab, Modifiers::shift());
    assert!(!Probes::from_slice(&[shifted]).has_command_modifier());
}

// ── The construction from an event ───────────────────────────────────

/// A key of the keyboard, by what is printed on a US one.
#[derive(Clone, Copy, PartialEq)]
enum Cap {
    Nothing,
    Letter(char),
    Enter,
    KeypadEnter,
    Escape,
}

/// The character at a key's place on a US keyboard.
fn us_char(cap: Cap, shift: bool) -> Option<char> {
    match (cap, shift) {
        (Cap::Letter('1'), true) => Some('!'),
        (Cap::Letter(c), true) if c.is_ascii_lowercase() => Some(c.to_ascii_uppercase()),
        (Cap::Letter(c), _) => Some(c),
        _ => None,
    }
}

/// What the input bridge decodes an event into.
fn decode(cap: Cap, place: Cap, unicode: char, mods: Modifiers) -> Option<KeyEvent> {
    match cap {
        Cap::Enter | Cap::KeypadEnter => return Some(KeyEvent::new(Key::Enter, mods)),
        Cap::Escape => return Some(KeyEvent::new(Key::Escape, mods)),
        _ => {}
    }
    if unicode != '\0' {
        // A composed character hides the modifiers that composed it.
        let shown = if mods.alt {
            Modifiers { shift: false, ctrl: false, alt: false, meta: mods.meta }
        } else {
            mods.unshifted()
        };
        let event = KeyEvent::new(Key::Char(unicode), shown);
        if unicode.is_ascii() {
            return Some(event);
        }
        return Some(match us_char(place, false) {
            Some(latin) => event.with_latin(Key::Char(latin)),
            None => event,
        });
    }
    match (us_char(cap, false), us_char(place, false)) {
        (Some(c), _) | (None, Some(c)) => Some(KeyEvent::new(Key::Char(c), mods)),
        (None, None) => None,
    }
}

/// One event, as the bridge hands it over.
fn event(cap: Cap, place: Cap, unicode: char, mods: Modifiers) -> Probes {
    probes_from_parts(
        decode(cap, place, unicode, mods),
        None,
        us_char(place, mods.shift),
        mods.alt,
        mods.meta,
    )
}

fn typed(cap: Cap, place: Cap, unicode: char, shift: bool) -> Probes {
    let mods = if shift { Modifiers::shift() } else { Modifiers::none() };
    event(cap, place, unicode, mods)
}

fn typed_ctrl(cap: Cap, place: Cap) -> Probes {
    event(cap, place, '\0', Modifiers::ctrl())
}

fn at(c: char) -> Cap {
    Cap::Letter(c)
}

#[test]
fn on_a_us_layout_every_probe_agrees_and_collapses_to_one() {
    let p = typed(at('j'), at('j'), 'j', false);
    assert_eq!(p.iter(), vec![ch('j')]);
}

#[test]
fn a_cyrillic_key_yields_as_typed_then_its_latin_equivalent() {
    let p = typed(Cap::Nothing, at('j'), 'о', false);
    let got = p.iter();
    assert_eq!(got[0].key(), Key::Char('о'), "probe 1 is what was typed");
    assert!(got.contains(&ch('j')), "a later probe must recover `j`");
    assert_eq!(p.primary(), Some(got[0]));
}

#[test]
fn a_qwertz_z_yields_z_first_and_the_physical_y_second() {
    let p = typed(at('z'), at('y'), 'z', false);
    assert_eq!(p.iter(), vec![ch('z'), ch('y')]);
}

#[test]
fn a_logical_slash_over_a_physical_j_leads_with_the_slash() {
    let p = typed(at('/'), at('j'), '/', false);
    assert_eq!(p.iter(), vec![ch('/'), ch('j')]);
    assert_eq!(p.primary(), Some(ch('/')));
}

#[test]
fn numpad_enter_decodes_as_a_plain_enter() {
    let p = event(Cap::KeypadEnter, Cap::KeypadEnter, '\0', Modifiers::none());
    assert_eq!(p.iter(), vec![named(Key::Enter)]);
}

#[test]
fn enter_and_escape_never_gain_a_physical_probe() {
    // A place must never synthesize a binding for a named key.
    for (cap, want) in [(Cap::Enter, Key::Enter), (Cap::Escape, Key::Escape)] {
        let p = event(cap, at('j'), '\0', Modifiers::none());
        assert_eq!(
            p.iter(),
            vec![named(want)],
            "{want:?} must not gain a physical probe"
        );
    }
}

#[test]
fn shift_is_folded_into_the_character_on_every_probe() {
    let p = typed(at('j'), at('j'), 'J', true);
    for k in p.iter() {
        assert_eq!(k, ch('J'), "probe must be uppercase with SHIFT cleared");
    }
}

#[test]
fn a_shifted_digit_uses_the_us_symbol_for_its_physical_probe() {
    let p = typed(at('1'), at('1'), '"', true);
    let got = p.iter();
    assert_eq!(got[0], ch('"'));
    assert!(got.contains(&ch('!')), "US symbol should be the fallback");
    assert!(got.iter().all(|k| !k.modifiers().shift));
}

#[test]
fn ctrl_survives_into_the_physical_probe() {
    let p = typed_ctrl(Cap::Nothing, at('j'));
    assert!(p.iter().iter().any(|k| *k == ctrl('j')), "got {:?}", p.iter());
}

#[test]
fn alt_and_meta_chords_gain_no_extra_positional_probe() {
    for mods in [Modifiers::alt(), Modifiers::meta()] {
        let p = event(Cap::Nothing, at('j'), '\0', mods);
        assert_eq!(
            p.iter().len(),
            1,
            "Alt/Meta must not add a positional probe: {:?}",
            p.iter()
        );
    }
}

#[test]
fn an_undecodable_event_yields_no_probes() {
    let p = event(Cap::Nothing, Cap::Nothing, '\0', Modifiers::none());
    assert!(p.is_empty());
    assert_eq!(p.primary(), None);
}

#[test]
fn langmap_rewrites_the_as_typed_probe() {
    // A remapping that swaps `j` and `k`.
    let p = probes_from_parts(Some(ch('j')), Some(ch('k')), Some('j'), false, false);
    assert_eq!(p.primary(), Some(ch('k')), "the remapping must apply to probe 1");
    assert_eq!(p.iter(), vec![ch('k'), ch('j')]);
}

#[test]
fn a_remapped_event_still_offers_the_latin_key_of_the_original() {
    let cyrillic = ch('о').with_latin(Key::Char('j'));
    let p = probes_from_parts(Some(cyrillic), Some(ch('x')), None, false, false);
    assert_eq!(p.iter(), vec![ch('x'), ch('j')]);
}

#[test]
fn no_langmap_leaves_the_key_alone() {
    let p = typed(at('j'), at('j'), 'j', false);
    assert_eq!(p.primary(), Some(ch('j')));
}

#[test]
fn the_shipped_keyset_is_reachable_on_every_supported_layout() {
    // (name, logical key, character, place)
    let rows: &[(&str, Cap, char, Cap)] = &[
        ("QWERTY j", at('j'), 'j', at('j')),
        ("QWERTZ j", at('j'), 'j', at('j')),
        ("AZERTY j", at('j'), 'j', at('j')),
        ("Dvorak  h@J", at('h'), 'h', at('j')),
        ("Colemak y@J", at('y'), 'y', at('j')),
        ("Cyrillic о@J", Cap::Nothing, 'о', at('j')),
    ];
    for (name, cap, unicode, place) in rows {
        let p = typed(*cap, *place, *unicode, false);
        assert!(!p.is_empty(), "{name}: decoded to nothing");
        assert_eq!(
            p.primary().map(|k| k.key()),
            Some(Key::Char(*unicode)),
            "{name}: probe 1 must be the typed character"
        );
        assert!(
            p.iter().iter().any(|k| k.key() == Key::Char('j')),
            "{name}: lost access to the QWERTY-J binding"
        );
    }
}

#[test]
fn probe_lists_are_bounded_and_unique() {
    for a in 'a'..='p' {
        for b in 'a'..='p' {
            for shift in [false, true] {
                let unicode = if shift { a.to_ascii_uppercase() } else { a };
                let got = typed(at(a), at(b), unicode, shift).iter();
                assert!(got.len() <= 3);
                for (i, x) in got.iter().enumerate() {
                    for y in &got[i + 1..] {
                        assert_ne!(x, y, "duplicate probe");
                    }
                }
            }
        }
    }
}

#[test]
fn a_positional_probe_is_marked_and_can_be_refused() {
    // `y` is a guess, `z` is not.
    let p = typed(at('z'), at('y'), 'z', false);
    assert_eq!(p.iter(), vec![ch('z'), ch('y')]);
    assert_eq!(
        p.iter_typed(),
        vec![ch('z')],
        "iter_typed must drop the positional guess"
    );
    assert_eq!(p.positional(), Some(ch('y')));
    assert_eq!(p.iter_scoped(true), p.iter());
    assert_eq!(p.iter_scoped(false), p.iter_typed());
}

#[test]
fn iter_typed_equals_iter_when_no_probe_was_positional() {
    let p = event(Cap::Enter, Cap::Enter, '\0', Modifiers::none());
    assert_eq!(p.iter(), p.iter_typed());
}

#[test]
fn a_dvorak_ctrl_chord_keeps_its_typed_meaning() {
    let p = typed_ctrl(at('d'), at('h'));
    let typed_only = p.iter_typed();
    assert!(
        !typed_only.iter().any(|k| k.key() == Key::Char('h')),
        "editor must not see a positional `h`: {typed_only:?}"
    );
    assert!(
        p.iter().iter().any(|k| k.key() == Key::Char('h')),
        "a dock should still get the positional fallback"
    );
}

#[test]
fn a_colemak_ctrl_chord_keeps_its_typed_meaning() {
    let p = typed_ctrl(at('n'), at('j'));
    assert!(!p.iter_typed().iter().any(|k| k.key() == Key::Char('j')));
}

#[test]
fn altgr_composed_characters_get_no_fallback_probes() {
    // AltGr is Alt on one system, and Ctrl with Alt on another.
    let alt_only = event(at('a'), at('a'), 'ą', Modifiers::alt());
    assert!(
        !alt_only.iter().iter().any(|k| k.key() == Key::Char('a')),
        "AltGr must not surface a Latin fallback: {:?}",
        alt_only.iter()
    );
    let both = Modifiers::ctrl().union(Modifiers::alt());
    let p = event(at('a'), at('a'), 'ą', both);
    assert!(!p.iter().iter().any(|k| k.key() == Key::Char('a')));
}

#[test]
fn a_genuine_alt_chord_still_gets_no_fallback_probes() {
    let p = event(at('j'), at('j'), '\0', Modifiers::alt());
    assert!(p.iter().len() <= 1);
}

#[test]
fn an_unmodified_non_latin_key_still_gets_its_latin_fallback() {
    let p = typed(Cap::Nothing, at('j'), 'о', false);
    assert!(p.iter().iter().any(|k| k.key() == Key::Char('j')));
}
