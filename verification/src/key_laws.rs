//! What the spellings of a keystroke are, and what a written left-hand side
//! means.

use vstd::prelude::*;
use crate::bind;
use crate::key::{Key, KeyEvent, KeyNames, Modifiers};
use crate::keys;
use crate::keys::{LhsFault, ProbeList};
use crate::text;

verus! {

// ── One spelling per key ──────────────────────────────────────────────

/// Whether a key event is a letter held with Shift and nothing else.
pub open spec fn is_shifted_letter(k: KeyEvent) -> bool {
    &&& k.key matches Key::Char(c) && ('a' <= c <= 'z' || 'A' <= c <= 'Z')
    &&& k.modifiers.shift
    &&& !k.modifiers.ctrl
    &&& !k.modifiers.alt
    &&& !k.modifiers.meta
}

/// Whether a key event is a character that is no letter, held with Shift and
/// nothing else.
pub open spec fn is_shifted_symbol(k: KeyEvent) -> bool {
    &&& k.key matches Key::Char(c) && !('a' <= c <= 'z') && !('A' <= c <= 'Z')
    &&& k.modifiers.shift
    &&& !k.modifiers.ctrl
    &&& !k.modifiers.alt
    &&& !k.modifiers.meta
}

/// A letter held with Shift alone is spelled as its capital without Shift; any
/// other key event is spelled as it is.
pub proof fn only_a_shifted_letter_is_respelled(k: KeyEvent)
    ensures
        ({
            let r = keys::canonical(k);
            if is_shifted_letter(k) {
                &&& r.modifiers == (Modifiers { shift: false, ctrl: false, alt: false, meta: false })
                &&& r.latin is None
                &&& k.key matches Key::Char(c) && r.key matches Key::Char(up) && 'A' <= up <= 'Z'
                    && (up == c || up as int + 32 == c as int)
            } else {
                r == k
            }
        }),
{
}

/// The Latin equivalent of a key event is the key at its place, in its one
/// spelling, with the same modifiers held; there is one exactly where the event
/// names such a key.
pub proof fn the_latin_equivalent_keeps_the_modifiers(k: KeyEvent)
    ensures
        (keys::latin_collapsed(k) is Some) == (k.latin is Some),
        k.latin matches Some(latin) ==> ({
            let bare = KeyEvent { key: latin, modifiers: k.modifiers, latin: None };
            let r = keys::latin_collapsed(k)->0;
            if is_shifted_letter(bare) {
                &&& r.modifiers == (Modifiers { shift: false, ctrl: false, alt: false, meta: false })
                &&& r.latin is None
                &&& latin matches Key::Char(c) && r.key matches Key::Char(up) && 'A' <= up <= 'Z'
                    && (up == c || up as int + 32 == c as int)
            } else {
                r == bare
            }
        }),
{
    if let Some(latin) = k.latin {
        only_a_shifted_letter_is_respelled(
            KeyEvent { key: latin, modifiers: k.modifiers, latin: None },
        );
    }
}

// ── Spellings of a keystroke ──────────────────────────────────────────

/// The spellings of a keystroke that stand for what was typed.
pub open spec fn is_typed(list: ProbeList, key: KeyEvent) -> bool {
    exists|i: int|
        0 <= i < list.keys.len() && #[trigger] list.keys[i] == key && (list.positional matches Some(
            at,
        ) ==> i < at)
}

/// What was typed is the keystroke itself, as the layout remaps it, and its
/// Latin equivalent where no Alt or Meta goes with it: these spellings, in this
/// order, and no other.
pub proof fn the_typed_spellings_are_the_key_and_its_latin_equivalent(
    typed: Option<KeyEvent>,
    remapped: Option<KeyEvent>,
    physical: Option<char>,
    alt: bool,
    meta: bool,
    key: KeyEvent,
)
    ensures
        ({
            let list = keys::probes_of_parts(typed, remapped, physical, alt, meta);
            match typed {
                None => list.keys.len() == 0 && list.positional is None,
                Some(event) => {
                    let lead = keys::canonical(
                        match remapped {
                            Some(other) => other,
                            None => event,
                        },
                    );
                    &&& list.keys.len() > 0 && list.keys[0] == lead
                    &&& is_typed(list, lead)
                    &&& is_typed(list, key) <==> {
                        ||| key == lead
                        ||| !alt && !meta && keys::latin_collapsed(event) == Some(key)
                    }
                    &&& list.scoped(false).contains(key) <==> is_typed(list, key)
                },
            }
        }),
{
    let list = keys::probes_of_parts(typed, remapped, physical, alt, meta);
    if let Some(event) = typed {
        let lead = keys::canonical(
            match remapped {
                Some(other) => other,
                None => event,
            },
        );
        let one = ProbeList::none().plus(lead, false);
        assert(one.keys =~= seq![lead]);
        assert(one.positional is None);
        assert(list.keys[0] == lead);
        assert(is_typed(list, lead));
        if let Some(latin) = keys::latin_collapsed(event) {
            if !alt && !meta {
                if latin != lead {
                    assert(!one.keys.contains(latin));
                    let two = one.plus(latin, false);
                    assert(two.keys =~= seq![lead, latin]);
                    assert(list.keys[1] == latin);
                    assert(is_typed(list, latin));
                }
            }
        }
        if is_typed(list, key) {
            let i = choose|i: int|
                0 <= i < list.keys.len() && #[trigger] list.keys[i] == key
                    && (list.positional matches Some(at) ==> i < at);
            assert(list.scoped(false)[i] == key);
        }
        if list.scoped(false).contains(key) {
            let typed_keys = list.scoped(false);
            let i = choose|i: int| 0 <= i < typed_keys.len() && typed_keys[i] == key;
            assert(list.keys[i] == key);
        }
    }
}

/// The guess is the character at the US keyboard's place, with Shift released,
/// and there is one exactly where a character was typed without Alt or Meta,
/// the place is known, and the character there is neither what was typed nor
/// its Latin equivalent; it comes last.
pub proof fn the_guess_is_the_key_at_the_place(
    typed: Option<KeyEvent>,
    remapped: Option<KeyEvent>,
    physical: Option<char>,
    alt: bool,
    meta: bool,
)
    ensures
        ({
            let list = keys::probes_of_parts(typed, remapped, physical, alt, meta);
            match (typed, physical) {
                (Some(event), Some(ch)) => {
                    let lead = keys::canonical(
                        match remapped {
                            Some(other) => other,
                            None => event,
                        },
                    );
                    let guess = KeyEvent {
                        key: Key::Char(ch),
                        modifiers: Modifiers {
                            shift: false,
                            ctrl: event.modifiers.ctrl,
                            alt: false,
                            meta: false,
                        },
                        latin: None,
                    };
                    if event.key is Char && !alt && !meta && !event.modifiers.alt
                        && !event.modifiers.meta && guess != lead && keys::latin_collapsed(event)
                        != Some(guess) {
                        &&& list.positional == Some((list.keys.len() - 1) as nat)
                        &&& list.keys.last() == guess
                    } else {
                        list.positional is None
                    }
                },
                _ => list.positional is None,
            }
        }),
{
    if let (Some(event), Some(ch)) = (typed, physical) {
        let lead = keys::canonical(
            match remapped {
                Some(other) => other,
                None => event,
            },
        );
        let one = ProbeList::none().plus(lead, false);
        assert(one.keys =~= seq![lead]);
        let two = match keys::latin_collapsed(event) {
            Some(latin) => if alt || meta {
                one
            } else {
                one.plus(latin, false)
            },
            None => one,
        };
        if let Some(latin) = keys::latin_collapsed(event) {
            if !alt && !meta {
                if latin != lead {
                    assert(!one.keys.contains(latin));
                    assert(two.keys =~= seq![lead, latin]);
                    assert(two.keys[1] == latin);
                }
            }
        }
        assert(two.keys[0] == lead);
        assert(two.keys.len() <= 2);
        let guess = KeyEvent {
            key: Key::Char(ch),
            modifiers: Modifiers {
                shift: false,
                ctrl: event.modifiers.ctrl,
                alt: false,
                meta: false,
            },
            latin: None,
        };
        if two.keys.contains(guess) {
            let i = choose|i: int| 0 <= i < two.keys.len() && two.keys[i] == guess;
            assert(i == 0 || i == 1);
        }
    }
}

/// A handler that admits the guess sees every spelling; one that refuses it
/// sees those before it, in their order.
pub proof fn refusing_the_guess_cuts_it_off(list: ProbeList, i: int)
    requires
        list.valid(),
        0 <= i < list.keys.len(),
    ensures
        list.scoped(true) == list.keys,
        list.positional is None ==> list.scoped(false) == list.keys,
        list.positional matches Some(at) ==> {
            &&& list.scoped(false).len() == at
            &&& i < at ==> list.scoped(false)[i] == list.keys[i]
        },
{
}

/// A keystroke is a chord where any of its spellings holds Ctrl, Alt or Meta.
pub proof fn a_chord_holds_ctrl_alt_or_meta(list: ProbeList)
    ensures
        list.commands() <==> exists|i: int|
            0 <= i < list.keys.len() && ((#[trigger] list.keys[i]).modifiers.ctrl
                || list.keys[i].modifiers.alt || list.keys[i].modifiers.meta),
{
    if list.commands() {
        let i = choose|i: int|
            0 <= i < list.keys.len() && (#[trigger] list.keys[i]).modifiers.spec_command();
        assert(list.keys[i].modifiers.ctrl || list.keys[i].modifiers.alt
            || list.keys[i].modifiers.meta);
    }
    if exists|i: int|
        0 <= i < list.keys.len() && ((#[trigger] list.keys[i]).modifiers.ctrl
            || list.keys[i].modifiers.alt || list.keys[i].modifiers.meta) {
        let i = choose|i: int|
            0 <= i < list.keys.len() && ((#[trigger] list.keys[i]).modifiers.ctrl
                || list.keys[i].modifiers.alt || list.keys[i].modifiers.meta);
        assert(list.keys[i].modifiers.spec_command());
    }
}

/// A list of up to three different spellings holds them all, in order, and its
/// last is the guess where that was asked for.
pub proof fn different_spellings_are_all_kept(all: Seq<KeyEvent>, mark_last: bool, n: int)
    requires
        0 <= n <= all.len() <= 3,
        all.no_duplicates(),
    ensures
        keys::probes_of(all, n, mark_last).keys == all.take(n),
        keys::probes_of(all, n, mark_last).positional == (if mark_last && n == all.len() && n > 0 {
            Some((n - 1) as nat)
        } else {
            None
        }),
    decreases n,
{
    if n > 0 {
        different_spellings_are_all_kept(all, mark_last, n - 1);
        let init = all.take(n - 1);
        if init.contains(all[n - 1]) {
            let i = choose|i: int| 0 <= i < init.len() && init[i] == all[n - 1];
            assert(all[i] == all[n - 1]);
        }
        assert(init.push(all[n - 1]) =~= all.take(n));
    } else {
        assert(all.take(0) =~= Seq::empty());
    }
}

/// Adding a spelling that is there already, or to a full list, adds nothing;
/// any other goes to the end, and is the guess exactly where it is marked so.
pub proof fn a_spelling_is_added_once(list: ProbeList, key: KeyEvent, mark: bool)
    ensures
        ({
            let r = list.plus(key, mark);
            if list.keys.len() >= 3 || (exists|i: int|
                0 <= i < list.keys.len() && #[trigger] list.keys[i] == key) {
                r == list
            } else {
                &&& r.keys.len() == list.keys.len() + 1
                &&& r.keys.last() == key
                &&& r.keys.drop_last() == list.keys
                &&& r.positional == if mark {
                    Some(list.keys.len())
                } else {
                    list.positional
                }
            }
        }),
{
    let r = list.plus(key, mark);
    if list.keys.len() < 3 && !list.keys.contains(key) {
        assert(r.keys.drop_last() =~= list.keys);
        if exists|i: int| 0 <= i < list.keys.len() && #[trigger] list.keys[i] == key {
            let i = choose|i: int| 0 <= i < list.keys.len() && #[trigger] list.keys[i] == key;
            assert(list.keys.contains(list.keys[i]));
        }
    }
}

// ── Left-hand sides ───────────────────────────────────────────────────

/// The first dead key of a sequence is a symbol held with Shift alone, and no
/// key before it is one.
proof fn the_first_dead_key(all: Seq<KeyEvent>)
    ensures
        match keys::first_unspellable(all) {
            Some(c) => exists|i: int|
                {
                    &&& 0 <= i < all.len()
                    &&& is_shifted_symbol(#[trigger] all[i])
                    &&& all[i].key == Key::Char(c)
                    &&& forall|j: int| 0 <= j < i ==> !is_shifted_symbol(#[trigger] all[j])
                },
            None => forall|j: int| 0 <= j < all.len() ==> !is_shifted_symbol(#[trigger] all[j]),
        },
    decreases all.len(),
{
    if all.len() > 0 {
        let rest = all.skip(1);
        the_first_dead_key(rest);
        if keys::unspellable(all[0]) is Some {
            assert(is_shifted_symbol(all[0]));
        } else {
            assert(!is_shifted_symbol(all[0]));
            assert forall|j: int| 0 < j < all.len() implies all[j] == rest[j - 1] by {}
            match keys::first_unspellable(rest) {
                Some(c) => {
                    let i = choose|i: int|
                        {
                            &&& 0 <= i < rest.len()
                            &&& is_shifted_symbol(#[trigger] rest[i])
                            &&& rest[i].key == Key::Char(c)
                            &&& forall|j: int|
                                0 <= j < i ==> !is_shifted_symbol(#[trigger] rest[j])
                        };
                    assert(is_shifted_symbol(all[i + 1]));
                    assert forall|j: int| 0 <= j < i + 1 implies !is_shifted_symbol(
                        #[trigger] all[j],
                    ) by {
                        if j > 0 {
                            assert(!is_shifted_symbol(rest[j - 1]));
                        }
                    }
                },
                None => {
                    assert forall|j: int| 0 <= j < all.len() implies !is_shifted_symbol(
                        #[trigger] all[j],
                    ) by {
                        if j > 0 {
                            assert(!is_shifted_symbol(rest[j - 1]));
                        }
                    }
                },
            }
        }
    }
}

/// What a written left-hand side means: it is refused as empty, as unreadable,
/// as too long, or for its first symbol held with Shift alone, each exactly in
/// its case; otherwise it loads as its keys, in order, each in its one spelling.
pub proof fn a_left_hand_side_loads_or_says_why(notation: Seq<char>, parsed: Seq<KeyEvent>)
    ensures
        ({
            let r = keys::lhs_of(notation, parsed);
            &&& r == Err::<Seq<KeyEvent>, LhsFault>(LhsFault::Empty) <==> notation.len() == 0
            &&& r matches Err(LhsFault::Unparseable(said)) ==> said == notation
            &&& r is Err && r->Err_0 is Unparseable <==> notation.len() > 0 && parsed.len() == 0
            &&& r matches Err(LhsFault::TooLong(n)) ==> n == parsed.len()
            &&& r is Err && r->Err_0 is TooLong <==> notation.len() > 0 && parsed.len() > 8
            &&& r matches Err(LhsFault::UnspellableShift(c)) ==> exists|i: int|
                {
                    &&& 0 <= i < parsed.len()
                    &&& is_shifted_symbol(#[trigger] parsed[i])
                    &&& parsed[i].key == Key::Char(c)
                    &&& forall|j: int| 0 <= j < i ==> !is_shifted_symbol(#[trigger] parsed[j])
                }
            &&& r is Ok <==> notation.len() > 0 && 0 < parsed.len() <= 8 && forall|i: int|
                0 <= i < parsed.len() ==> !is_shifted_symbol(#[trigger] parsed[i])
            &&& r matches Ok(all) ==> all.len() == parsed.len() && forall|i: int|
                0 <= i < all.len() ==> #[trigger] all[i] == keys::canonical(parsed[i])
        }),
{
    let all = parsed.map_values(|k: KeyEvent| keys::canonical(k));
    the_first_dead_key(all);
    assert forall|i: int| 0 <= i < parsed.len() implies is_shifted_symbol(#[trigger] parsed[i])
        == is_shifted_symbol(all[i]) && (is_shifted_symbol(all[i]) ==> all[i].key
        == parsed[i].key) by {
        only_a_shifted_letter_is_respelled(parsed[i]);
    }
    if 0 < notation.len() && 0 < parsed.len() <= 8 {
        match keys::first_unspellable(all) {
            Some(c) => {
                let i = choose|i: int|
                    {
                        &&& 0 <= i < all.len()
                        &&& is_shifted_symbol(#[trigger] all[i])
                        &&& all[i].key == Key::Char(c)
                        &&& forall|j: int| 0 <= j < i ==> !is_shifted_symbol(#[trigger] all[j])
                    };
                assert(is_shifted_symbol(parsed[i]));
                assert forall|j: int| 0 <= j < i implies !is_shifted_symbol(
                    #[trigger] parsed[j],
                ) by {
                    assert(!is_shifted_symbol(all[j]));
                }
            },
            None => {
                assert forall|i: int| 0 <= i < parsed.len() implies !is_shifted_symbol(
                    #[trigger] parsed[i],
                ) by {
                    assert(!is_shifted_symbol(all[i]));
                }
            },
        }
    }
}

/// Only a single named key that is held with nothing has a Shift-held twin: the
/// same key with Shift and nothing else.
pub proof fn only_a_bare_named_key_has_a_shifted_twin(lhs: Seq<KeyEvent>)
    ensures
        match bind::shift_twin(lhs) {
            Some(twin) => {
                &&& lhs.len() == 1
                &&& !(lhs[0].key is Char)
                &&& lhs[0].modifiers == (Modifiers {
                    shift: false,
                    ctrl: false,
                    alt: false,
                    meta: false,
                })
                &&& twin.len() == 1
                &&& twin[0].key == lhs[0].key
                &&& twin[0].modifiers == (Modifiers {
                    shift: true,
                    ctrl: false,
                    alt: false,
                    meta: false,
                })
                &&& twin[0].latin is None
            },
            None => lhs.len() != 1 || lhs[0].key is Char || lhs[0].modifiers.shift
                || lhs[0].modifiers.ctrl || lhs[0].modifiers.alt || lhs[0].modifiers.meta,
        },
{
}

/// The name of a key is that of its first entry, and nothing without one.
pub proof fn a_key_is_written_as_its_first_entry(names: KeyNames, key: KeyEvent, i: int)
    requires
        0 <= i <= names.entries@.len(),
        forall|j: int| 0 <= j < i ==> (#[trigger] names.entries@[j]).0 != key,
        i < names.entries@.len() ==> names.entries@[i].0 == key,
    ensures
        names.spec_text(key) == if i < names.entries@.len() {
            text::compact_text(names.entries@[i].1)
        } else {
            Seq::empty()
        },
{
    names_are_read_in_order(names, key, i);
}

proof fn names_are_read_in_order(names: KeyNames, key: KeyEvent, i: int)
    requires
        0 <= i <= names.entries@.len(),
        forall|j: int| 0 <= j < i ==> (#[trigger] names.entries@[j]).0 != key,
    ensures
        crate::key::key_text(names.entries@, key) == crate::key::key_text(
            names.entries@.skip(i),
            key,
        ),
    decreases i,
{
    if i > 0 {
        names_are_read_in_order(names, key, i - 1);
        assert(names.entries@.skip(i - 1).skip(1) =~= names.entries@.skip(i));
        assert(names.entries@.skip(i - 1)[0] == names.entries@[i - 1]);
    } else {
        assert(names.entries@.skip(0) =~= names.entries@);
    }
}

} // verus!
