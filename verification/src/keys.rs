//! One key vocabulary: how a keystroke is spelled, and in what order its
//! spellings are tried.
//!
//! A keystroke is offered as an ordered list of at most three spellings:
//! what was typed, the Latin key at the same place, and the key at that place
//! of a US keyboard. A handler tries the first spelling against every binding
//! it owns before it tries the second against any, so a lower-priority
//! interpretation never shadows a higher-priority one.

use vstd::prelude::*;
use vstd::string::*;
use crate::key::{Key, KeyEvent, Mode, Modifiers, Operator, VisualType};
use crate::text;
use crate::text::push_decimal;

verus! {

/// The longest key sequence a binding can have.
pub const MAX_KEY_SEQUENCE_LEN: usize = 8;

// ── Canonical spelling ────────────────────────────────────────────────

/// Whether a character is an ASCII letter.
pub open spec fn is_ascii_letter(c: char) -> bool {
    'a' <= c <= 'z' || 'A' <= c <= 'Z'
}

/// The uppercase form of an ASCII letter; any other character unchanged.
pub open spec fn ascii_upper(c: char) -> char {
    if 'a' <= c <= 'z' {
        ((c as u32) - 32) as char
    } else {
        c
    }
}

fn ascii_letter(c: char) -> (r: bool)
    ensures
        r == is_ascii_letter(c),
{
    ('a' <= c && c <= 'z') || ('A' <= c && c <= 'Z')
}

fn to_ascii_upper(c: char) -> (r: char)
    ensures
        r == ascii_upper(c),
{
    if 'a' <= c && c <= 'z' {
        let n: u32 = c as u32;
        let b: u8 = (n - 32) as u8;
        b as char
    } else {
        c
    }
}

/// The one spelling a binding can be written as.
///
/// A letter held with Shift alone is the uppercase letter without Shift.
/// Everything else is already canonical: a shifted symbol has no
/// layout-independent spelling, and a chord with Ctrl, Alt or Meta keeps its
/// Shift.
pub open spec fn canonical(k: KeyEvent) -> KeyEvent {
    match k.key {
        Key::Char(c) => if is_ascii_letter(c) && k.modifiers.shift && !k.modifiers.spec_command() {
            KeyEvent::spec_new(Key::Char(ascii_upper(c)), k.modifiers.spec_unshifted())
        } else {
            k
        },
        _ => k,
    }
}

/// Fold a keystroke into the one spelling a binding can be written as.
pub fn canonicalize(k: KeyEvent) -> (r: KeyEvent)
    ensures
        r == canonical(k),
{
    match k.key {
        Key::Char(c) => if ascii_letter(c) && k.modifiers.shift && !k.modifiers.is_command() {
            KeyEvent::new(Key::Char(to_ascii_upper(c)), k.modifiers.unshifted())
        } else {
            k
        },
        _ => k,
    }
}

/// Canonicalizing is a fixpoint: a canonical key stays as it is, so a parsed
/// binding and a runtime keystroke land on the same spelling.
pub proof fn canonical_is_idempotent(k: KeyEvent)
    ensures
        canonical(canonical(k)) == canonical(k),
{
}

/// The three ways to write a shifted letter — the bare uppercase letter, Shift
/// with the lowercase letter and Shift with the uppercase letter — have one
/// canonical spelling.
pub proof fn shifted_letter_spellings_agree(lower: char)
    requires
        'a' <= lower <= 'z',
    ensures
        ({
            let upper = ascii_upper(lower);
            let none = crate::key::no_modifiers();
            let shift = Modifiers { shift: true, ..none };
            &&& canonical(KeyEvent::spec_new(Key::Char(lower), shift)) == KeyEvent::spec_new(
                Key::Char(upper),
                none,
            )
            &&& canonical(KeyEvent::spec_new(Key::Char(upper), shift)) == KeyEvent::spec_new(
                Key::Char(upper),
                none,
            )
            &&& canonical(KeyEvent::spec_new(Key::Char(upper), none)) == KeyEvent::spec_new(
                Key::Char(upper),
                none,
            )
        }),
{
}

/// The Latin key of an event that has one, canonical, with its modifiers.
pub open spec fn latin_collapsed(k: KeyEvent) -> Option<KeyEvent> {
    match k.latin {
        Some(latin) => Some(canonical(KeyEvent::spec_new(latin, k.modifiers))),
        None => None,
    }
}

/// Collapse a Latin override into the key itself.
pub fn collapse_latin(k: KeyEvent) -> (r: Option<KeyEvent>)
    ensures
        r == latin_collapsed(k),
{
    match k.latin {
        Some(latin) => Some(canonicalize(KeyEvent::new(latin, k.modifiers))),
        None => None,
    }
}

// ── Probes ────────────────────────────────────────────────────────────

/// An ordered list of at most three distinct interpretations of one keystroke.
#[derive(Debug, Clone, Copy, PartialEq, Eq)]
pub struct Probes {
    buf: [Option<KeyEvent>; 3],
    /// Place of the positional guess, if one was added.
    positional: Option<u8>,
}

/// What a probe list is: its spellings, highest priority first, and the place
/// of the positional guess among them.
#[verifier::ext_equal]
pub struct ProbeList {
    pub keys: Seq<KeyEvent>,
    pub positional: Option<nat>,
}

impl ProbeList {
    /// A list that holds nothing.
    pub open spec fn none() -> ProbeList {
        ProbeList { keys: Seq::empty(), positional: None }
    }

    /// Append a spelling unless it is already there or the list is full.
    pub open spec fn plus(self, key: KeyEvent, positional: bool) -> ProbeList {
        if self.keys.contains(key) || self.keys.len() >= 3 {
            self
        } else {
            ProbeList {
                keys: self.keys.push(key),
                positional: if positional {
                    Some(self.keys.len())
                } else {
                    self.positional
                },
            }
        }
    }

    /// The spellings a handler sees that admits the positional guess, or that
    /// refuses it and whatever follows it.
    pub open spec fn scoped(self, positional: bool) -> Seq<KeyEvent> {
        match self.positional {
            Some(at) => if positional {
                self.keys
            } else {
                self.keys.take(at as int)
            },
            None => self.keys,
        }
    }

    /// Whether any spelling carries Ctrl, Alt or Meta.
    pub open spec fn commands(self) -> bool {
        exists|i: int| 0 <= i < self.keys.len() && (#[trigger] self.keys[i]).modifiers.spec_command()
    }

    /// At most three spellings, none of them twice; the guess is one of them.
    pub open spec fn valid(self) -> bool {
        &&& self.keys.len() <= 3
        &&& self.keys.no_duplicates()
        &&& self.positional matches Some(at) ==> at < self.keys.len()
    }
}

impl View for Probes {
    type V = ProbeList;

    closed spec fn view(&self) -> ProbeList {
        ProbeList {
            keys: match (self.buf@[0], self.buf@[1], self.buf@[2]) {
                (None, _, _) => Seq::empty(),
                (Some(a), None, _) => seq![a],
                (Some(a), Some(b), None) => seq![a, b],
                (Some(a), Some(b), Some(c)) => seq![a, b, c],
            },
            positional: match self.positional {
                Some(at) => Some(at as nat),
                None => None,
            },
        }
    }
}

impl Default for Probes {
    /// A list that holds nothing.
    fn default() -> (r: Probes)
        ensures
            r.wf(),
            r@ == ProbeList::none(),
    {
        let r = Probes { buf: [None, None, None], positional: None };
        assert(r@.keys =~= Seq::empty());
        r
    }
}

impl Probes {
    /// The list is filled from the front and its contents are valid.
    pub closed spec fn wf(&self) -> bool {
        &&& self.buf@.len() == 3
        &&& self.buf@[0] is None ==> self.buf@[1] is None
        &&& self.buf@[1] is None ==> self.buf@[2] is None
        &&& self@.valid()
    }

    /// Append `key` unless an earlier probe already produced it.
    fn push(&mut self, key: KeyEvent, positional: bool)
        requires
            old(self).wf(),
        ensures
            final(self).wf(),
            final(self)@ == old(self)@.plus(key, positional),
    {
        let ghost before = self@;
        let mut i: usize = 0;
        while i < 3
            invariant
                i <= 3,
                self.wf(),
                self@ == before,
                before == old(self)@,
                *self == *old(self),
                i <= before.keys.len(),
                forall|j: int| 0 <= j < i ==> before.keys[j] != key,
            decreases 3 - i,
        {
            match self.buf[i] {
                Some(k) => {
                    assert(before.keys[i as int] == k);
                    if k == key {
                        assert(before.keys.contains(key));
                        return ;
                    }
                },
                None => {
                    assert(i == before.keys.len());
                    assert(!before.keys.contains(key));
                    self.buf[i] = Some(key);
                    if positional {
                        self.positional = Some(i as u8);
                    }
                    assert(self@.keys =~= before.keys.push(key));
                    assert(self@ =~= before.plus(key, positional));
                    assert(self@.keys.no_duplicates());
                    return ;
                },
            }
            i = i + 1;
        }
    }

    /// The probe at a place, highest priority first.
    fn at(&self, i: usize) -> (r: Option<KeyEvent>)
        requires
            self.wf(),
        ensures
            r == (if i < self@.keys.len() {
                Some(self@.keys[i as int])
            } else {
                None
            }),
    {
        if i < 3 {
            self.buf[i]
        } else {
            None
        }
    }

    /// Probes in priority order, highest first.
    pub fn iter(&self) -> (r: Vec<KeyEvent>)
        requires
            self.wf(),
        ensures
            r@ == self@.keys,
    {
        self.iter_scoped(true)
    }

    /// Probes in priority order, with the positional guess only when
    /// `positional` is true.
    pub fn iter_scoped(&self, positional: bool) -> (r: Vec<KeyEvent>)
        requires
            self.wf(),
        ensures
            r@ == self@.scoped(positional),
    {
        let stop: usize = if positional {
            3
        } else {
            match self.positional {
                Some(at) => at as usize,
                None => 3,
            }
        };
        let mut out: Vec<KeyEvent> = Vec::new();
        let mut i: usize = 0;
        while i < stop
            invariant
                i <= stop,
                i <= self@.keys.len(),
                out@ == self@.keys.take(i as int),
                self.wf(),
                stop == (match self@.positional {
                    Some(at) => if positional {
                        3int
                    } else {
                        at as int
                    },
                    None => 3int,
                }),
            decreases stop - i,
        {
            match self.at(i) {
                Some(k) => {
                    out.push(k);
                    assert(self@.keys.take(i as int).push(k) =~= self@.keys.take(i + 1));
                },
                None => {
                    assert(self@.keys.take(i as int) =~= self@.keys);
                    return out;
                },
            }
            i = i + 1;
        }
        assert(self@.keys.take(3) =~= self@.keys || self@.keys.len() < 3);
        out
    }

    /// Whether any probe carries a command chord.
    ///
    /// A bare key stops at a sealed surface; a key with Ctrl, Alt or Meta
    /// continues up the forest.
    pub fn has_command_modifier(&self) -> (r: bool)
        requires
            self.wf(),
        ensures
            r == self@.commands(),
    {
        let mut i: usize = 0;
        while i < 3
            invariant
                self.wf(),
                i <= self@.keys.len(),
                i <= 3,
                forall|j: int|
                    0 <= j < i ==> !(#[trigger] self@.keys[j]).modifiers.spec_command(),
            decreases 3 - i,
        {
            match self.at(i) {
                Some(k) => if k.modifiers.is_command() {
                    assert(self@.keys[i as int].modifiers.spec_command());
                    return true;
                },
                None => {
                    return false;
                },
            }
            i = i + 1;
        }
        false
    }

    /// Probes without the positional guess.
    pub fn iter_typed(&self) -> (r: Vec<KeyEvent>)
        requires
            self.wf(),
        ensures
            r@ == self@.scoped(false),
    {
        self.iter_scoped(false)
    }

    /// The positional guess, where the list has one.
    pub fn positional(&self) -> (r: Option<KeyEvent>)
        requires
            self.wf(),
        ensures
            r == (match self@.positional {
                Some(at) => Some(self@.keys[at as int]),
                None => None,
            }),
    {
        match self.positional {
            Some(at) => self.at(at as usize),
            None => None,
        }
    }

    /// The as-typed interpretation, if there is one.
    pub fn primary(&self) -> (r: Option<KeyEvent>)
        requires
            self.wf(),
        ensures
            r == (if self@.keys.len() > 0 {
                Some(self@.keys[0])
            } else {
                None
            }),
    {
        self.at(0)
    }

    /// Whether the keystroke decoded to nothing.
    pub fn is_empty(&self) -> (r: bool)
        requires
            self.wf(),
        ensures
            r == (self@.keys.len() == 0),
    {
        self.at(0).is_none()
    }

    /// Resolve against a per-key table, trying each probe in turn.
    ///
    /// The answer is the table's for the first probe it knows.
    pub fn resolve<T, F: Fn(KeyEvent) -> Option<T>>(&self, table: F) -> (r: Option<T>)
        requires
            self.wf(),
            forall|k: KeyEvent| self@.keys.contains(k) ==> call_requires(table, (k,)),
        ensures
            match r {
                Some(_) => exists|i: int|
                    0 <= i < self@.keys.len() && call_ensures(table, (#[trigger] self@.keys[i],), r)
                        && (forall|j: int|
                        0 <= j < i ==> call_ensures(
                            table,
                            (#[trigger] self@.keys[j],),
                            None::<T>,
                        )),
                None => forall|j: int|
                    0 <= j < self@.keys.len() ==> call_ensures(
                        table,
                        (#[trigger] self@.keys[j],),
                        None::<T>,
                    ),
            },
    {
        let mut i: usize = 0;
        while i < 3
            invariant
                self.wf(),
                i <= 3,
                i <= self@.keys.len(),
                forall|k: KeyEvent| self@.keys.contains(k) ==> call_requires(table, (k,)),
                forall|j: int|
                    0 <= j < i ==> call_ensures(table, (#[trigger] self@.keys[j],), None::<T>),
            decreases 3 - i,
        {
            match self.at(i) {
                Some(k) => {
                    assert(self@.keys.contains(k));
                    let answer = table(k);
                    if answer.is_some() {
                        assert(call_ensures(table, (self@.keys[i as int],), answer));
                        return answer;
                    }
                },
                None => {
                    return None;
                },
            }
            i = i + 1;
        }
        None
    }

    /// A list of exactly `key`, canonicalized: a written key has no layout
    /// that another interpretation could be derived from.
    pub fn from_key(key: KeyEvent) -> (r: Probes)
        ensures
            r.wf(),
            r@.keys == seq![canonical(key)],
            r@.positional is None,
    {
        let mut p = Probes::default();
        p.push(canonicalize(key), false);
        assert(p@.keys =~= seq![canonical(key)]);
        p
    }

    /// A list of the given spellings, none of them positional.
    pub fn from_slice(keys: &[KeyEvent]) -> (r: Probes)
        ensures
            r.wf(),
            r@ == probes_of(keys@, keys@.len() as int, false),
    {
        Probes::from_keys(keys, false)
    }

    /// A list of the given spellings, the last of several positional.
    pub fn from_slice_positional(keys: &[KeyEvent]) -> (r: Probes)
        ensures
            r.wf(),
            r@ == probes_of(keys@, keys@.len() as int, keys@.len() > 1),
    {
        Probes::from_keys(keys, keys.len() > 1)
    }

    fn from_keys(keys: &[KeyEvent], mark_last: bool) -> (r: Probes)
        ensures
            r.wf(),
            r@ == probes_of(keys@, keys@.len() as int, mark_last),
    {
        let mut p = Probes::default();
        let mut i: usize = 0;
        while i < keys.len()
            invariant
                i <= keys@.len(),
                p.wf(),
                p@ == probes_of(keys@, i as int, mark_last),
            decreases keys@.len() - i,
        {
            p.push(keys[i], mark_last && i + 1 == keys.len());
            i = i + 1;
        }
        p
    }
}

/// The probe list that the first `n` of `keys` make, the last of `keys`
/// positional if `mark_last` says so.
pub open spec fn probes_of(keys: Seq<KeyEvent>, n: int, mark_last: bool) -> ProbeList
    decreases n,
{
    if n <= 0 {
        ProbeList::none()
    } else {
        probes_of(keys, n - 1, mark_last).plus(keys[n - 1], mark_last && n == keys.len())
    }
}

/// The probe list of a decoded keystroke.
///
/// First what was typed, as the layout remaps it; then, unless Alt or Meta is
/// held, its Latin equivalent; then, for a character that no Alt or Meta goes
/// with, the character at that place of a US keyboard.
pub open spec fn probes_of_parts(
    typed: Option<KeyEvent>,
    remapped: Option<KeyEvent>,
    physical: Option<char>,
    alt: bool,
    meta: bool,
) -> ProbeList {
    match typed {
        None => ProbeList::none(),
        Some(key) => {
            let as_typed = match remapped {
                Some(other) => other,
                None => key,
            };
            let one = ProbeList::none().plus(canonical(as_typed), false);
            let two = match latin_collapsed(key) {
                Some(latin) => if alt || meta {
                    one
                } else {
                    one.plus(latin, false)
                },
                None => one,
            };
            match (key.key, physical) {
                (Key::Char(_), Some(ch)) => if alt || meta || key.modifiers.alt
                    || key.modifiers.meta {
                    two
                } else {
                    two.plus(
                        canonical(
                            KeyEvent::spec_new(Key::Char(ch), key.modifiers.spec_unshifted()),
                        ),
                        true,
                    )
                },
                _ => two,
            }
        },
    }
}

/// Build the ordered probe list from the fields of one key event.
///
/// `typed` is the event as the input bridge decodes it, `remapped` the same
/// event under the user's layout remapping where one is set, `physical` the
/// character at its place of a US keyboard; `alt` and `meta` are the raw
/// modifier states, before a composed character hides them.
pub fn probes_from_parts(
    typed: Option<KeyEvent>,
    remapped: Option<KeyEvent>,
    physical: Option<char>,
    alt: bool,
    meta: bool,
) -> (r: Probes)
    ensures
        r.wf(),
        r@ == probes_of_parts(typed, remapped, physical, alt, meta),
{
    let mut out = Probes::default();

    // As typed.
    if let Some(key) = typed {
        let key = match remapped {
            Some(other) => other,
            None => key,
        };
        out.push(canonicalize(key), false);
    }
    // A chord with Alt or Meta belongs to the editor, and AltGr composes
    // characters: neither is guessed about. The raw state decides, because
    // decoding clears the modifiers of a composed character.

    let raw_chord = alt || meta;

    // The Latin equivalent, of the event before any remapping: a remapped
    // event carries no Latin key.
    if !raw_chord {
        if let Some(key) = typed {
            if let Some(latin) = collapse_latin(key) {
                out.push(latin, false);
            }
        }
    }
    // The place on a US keyboard, last: it is a guess and never outranks what
    // was typed. Only a character has one.

    if let Some(key) = typed {
        let mods = key.modifiers;
        let is_char = matches!(key.key, Key::Char(_));
        if is_char && !raw_chord && !mods.alt && !mods.meta {
            if let Some(ch) = physical {
                // The shifted state is already in the character.
                out.push(canonicalize(KeyEvent::new(Key::Char(ch), mods.unshifted())), true);
            }
        }
    }
    out
}

/// Every probe list is bounded by three and repeats nothing, and what was
/// typed leads it, whatever the layout.
pub proof fn probes_are_bounded_and_lead_with_the_typed_key(
    typed: Option<KeyEvent>,
    remapped: Option<KeyEvent>,
    physical: Option<char>,
    alt: bool,
    meta: bool,
)
    ensures
        ({
            let list = probes_of_parts(typed, remapped, physical, alt, meta);
            &&& list.valid()
            &&& (typed is None) == (list.keys.len() == 0)
            &&& typed matches Some(key) ==> list.keys[0] == canonical(
                match remapped {
                    Some(other) => other,
                    None => key,
                },
            )
        }),
{
}

/// No chord that holds Alt or Meta gets a fallback interpretation.
pub proof fn raw_chords_get_no_fallback(
    typed: Option<KeyEvent>,
    remapped: Option<KeyEvent>,
    physical: Option<char>,
    alt: bool,
    meta: bool,
)
    requires
        alt || meta,
    ensures
        probes_of_parts(typed, remapped, physical, alt, meta).keys.len() <= 1,
        probes_of_parts(typed, remapped, physical, alt, meta).positional is None,
{
}

/// The refused guess is the only difference between the two readings of a
/// decoded keystroke's list: without it a handler sees all that was typed.
pub proof fn typed_probes_drop_only_the_guess(
    typed: Option<KeyEvent>,
    remapped: Option<KeyEvent>,
    physical: Option<char>,
    alt: bool,
    meta: bool,
)
    ensures
        ({
            let list = probes_of_parts(typed, remapped, physical, alt, meta);
            list.scoped(false) == (match list.positional {
                Some(_) => list.keys.drop_last(),
                None => list.keys,
            })
        }),
{
    let list = probes_of_parts(typed, remapped, physical, alt, meta);
    if let Some(at) = list.positional {
        assert(list.keys.take(at as int) =~= list.keys.drop_last());
    }
}

// ── Left-hand sides ───────────────────────────────────────────────────

/// Why a left-hand side cannot be used as a binding.
#[derive(Debug, Clone, PartialEq, Eq)]
pub enum LhsError {
    /// A shifted symbol has no layout-independent spelling.
    UnspellableShift(char),
    /// The notation did not parse at all.
    Unparseable(String),
    /// There is no notation.
    Empty,
    /// Longer than [`MAX_KEY_SEQUENCE_LEN`]: rejected, because a shortened
    /// sequence would be a binding nobody wrote.
    TooLong(usize),
}

/// What an [`LhsError`] says.
pub enum LhsFault {
    UnspellableShift(char),
    Unparseable(Seq<char>),
    Empty,
    TooLong(nat),
}

impl View for LhsError {
    type V = LhsFault;

    open spec fn view(&self) -> LhsFault {
        match *self {
            LhsError::UnspellableShift(c) => LhsFault::UnspellableShift(c),
            LhsError::Unparseable(s) => LhsFault::Unparseable(s@),
            LhsError::Empty => LhsFault::Empty,
            LhsError::TooLong(n) => LhsFault::TooLong(n as nat),
        }
    }
}

impl LhsFault {
    /// The message that describes the fault.
    pub open spec fn message(self) -> Seq<char> {
        match self {
            LhsFault::UnspellableShift(c) => ("<S-"@).push(c)
                + "> is layout-dependent and can never match; write the literal character instead"@,
            LhsFault::Unparseable(s) => "cannot parse key notation '"@ + s + "'"@,
            LhsFault::Empty => "empty key sequence"@,
            LhsFault::TooLong(n) => "key sequence is "@ + text::decimal(n)
                + " keys long; at most 8 are supported"@,
        }
    }
}

impl LhsError {
    /// The message that describes the error.
    pub fn message(&self) -> (r: String)
        ensures
            r@ == self@.message(),
    {
        let mut out = String::new();
        self.write_to(&mut out);
        assert(Seq::<char>::empty() + self@.message() =~= self@.message());
        out
    }

    /// Append the message that describes the error.
    pub fn write_to(&self, out: &mut String)
        ensures
            final(out)@ == old(out)@ + self@.message(),
    {
        match self {
            LhsError::UnspellableShift(c) => {
                out.append("<S-");
                out.push(*c);
                out.append(
                    "> is layout-dependent and can never match; write the literal character instead",
                );
            },
            LhsError::Unparseable(s) => {
                out.append("cannot parse key notation '");
                out.append(s.as_str());
                out.append("'");
            },
            LhsError::Empty => {
                out.append("empty key sequence");
            },
            LhsError::TooLong(n) => {
                out.append("key sequence is ");
                push_decimal(out, *n as u64);
                out.append(" keys long; at most 8 are supported");
            },
        }
        assert(out@ =~= old(out)@ + self@.message());
    }
}

/// Whether a key, as a left-hand side, could never match a keystroke: a
/// symbol held with Shift alone. A keyboard delivers the shifted symbol.
pub open spec fn unspellable(k: KeyEvent) -> Option<char> {
    match k.key {
        Key::Char(c) => if !is_ascii_letter(c) && k.modifiers.shift && !k.modifiers.spec_command() {
            Some(c)
        } else {
            None
        },
        _ => None,
    }
}

/// Reject a left-hand side that could never match a keystroke.
pub fn validate_lhs_key(k: KeyEvent) -> (r: Result<(), LhsError>)
    ensures
        match unspellable(k) {
            Some(c) => r == Err::<(), LhsError>(LhsError::UnspellableShift(c)),
            None => r is Ok,
        },
{
    match k.key {
        Key::Char(c) => if !ascii_letter(c) && k.modifiers.shift && !k.modifiers.is_command() {
            Err(LhsError::UnspellableShift(c))
        } else {
            Ok(())
        },
        _ => Ok(()),
    }
}

/// The first symbol among `keys` that no keystroke could match.
pub open spec fn first_unspellable(keys: Seq<KeyEvent>) -> Option<char>
    decreases keys.len(),
{
    if keys.len() == 0 {
        None
    } else {
        match unspellable(keys[0]) {
            Some(c) => Some(c),
            None => first_unspellable(keys.skip(1)),
        }
    }
}

/// What a written left-hand side means: its keys, canonical, or what is wrong
/// with it.
pub open spec fn lhs_of(notation: Seq<char>, parsed: Seq<KeyEvent>) -> Result<
    Seq<KeyEvent>,
    LhsFault,
> {
    let keys = parsed.map_values(|k: KeyEvent| canonical(k));
    if notation.len() == 0 {
        Err(LhsFault::Empty)
    } else if parsed.len() == 0 {
        Err(LhsFault::Unparseable(notation))
    } else if parsed.len() > MAX_KEY_SEQUENCE_LEN {
        Err(LhsFault::TooLong(parsed.len()))
    } else {
        match first_unspellable(keys) {
            Some(c) => Err(LhsFault::UnspellableShift(c)),
            None => Ok(keys),
        }
    }
}

/// Make a left-hand side of a written key sequence.
///
/// `parsed` is what the editor engine's own notation parser makes of
/// `notation`, so that both planes read a sequence alike.
pub fn parse_lhs(notation: &str, parsed: &[KeyEvent]) -> (r: Result<Vec<KeyEvent>, LhsError>)
    ensures
        match (r, lhs_of(notation@, parsed@)) {
            (Ok(keys), Ok(want)) => keys@ == want,
            (Err(e), Err(want)) => e@ == want,
            _ => false,
        },
{
    if notation.is_empty() {
        return Err(LhsError::Empty);
    }
    if parsed.len() == 0 {
        return Err(LhsError::Unparseable(notation.to_owned()));
    }
    if parsed.len() > MAX_KEY_SEQUENCE_LEN {
        return Err(LhsError::TooLong(parsed.len()));
    }
    let ghost want = parsed@.map_values(|k: KeyEvent| canonical(k));
    let mut keys: Vec<KeyEvent> = Vec::new();
    let mut i: usize = 0;
    while i < parsed.len()
        invariant
            i <= parsed@.len(),
            want == parsed@.map_values(|k: KeyEvent| canonical(k)),
            keys@ == want.take(i as int),
        decreases parsed@.len() - i,
    {
        keys.push(canonicalize(parsed[i]));
        assert(want.take(i as int).push(want[i as int]) =~= want.take(i + 1));
        i = i + 1;
    }
    assert(want.take(i as int) =~= want);
    let mut j: usize = 0;
    assert(want.skip(0) =~= want);
    while j < keys.len()
        invariant
            j <= keys@.len(),
            keys@ == want,
            first_unspellable(want) == first_unspellable(want.skip(j as int)),
            want == parsed@.map_values(|k: KeyEvent| canonical(k)),
            0 < parsed@.len() <= MAX_KEY_SEQUENCE_LEN,
            notation@.len() > 0,
        decreases keys@.len() - j,
    {
        assert(want.skip(j as int).skip(1) =~= want.skip(j + 1));
        match validate_lhs_key(keys[j]) {
            Ok(_) => {},
            Err(e) => {
                return Err(e);
            },
        }
        j = j + 1;
    }
    Ok(keys)
}

/// A left-hand side that loads is canonical key by key, not empty, within the
/// longest length, and none of its keys is dead.
pub proof fn loaded_lhs_is_live(notation: Seq<char>, parsed: Seq<KeyEvent>)
    ensures
        lhs_of(notation, parsed) matches Ok(keys) ==> {
            &&& 0 < keys.len() <= MAX_KEY_SEQUENCE_LEN
            &&& forall|i: int|
                0 <= i < keys.len() ==> canonical(#[trigger] keys[i]) == keys[i] && unspellable(
                    keys[i],
                ) is None
        },
{
    if let Ok(keys) = lhs_of(notation, parsed) {
        all_spellable(keys);
        assert forall|i: int| 0 <= i < keys.len() implies canonical(#[trigger] keys[i]) == keys[i]
            && unspellable(keys[i]) is None by {
            canonical_is_idempotent(parsed[i]);
        }
    }
}

proof fn all_spellable(keys: Seq<KeyEvent>)
    requires
        first_unspellable(keys) is None,
    ensures
        forall|i: int| 0 <= i < keys.len() ==> unspellable(#[trigger] keys[i]) is None,
    decreases keys.len(),
{
    if keys.len() > 0 {
        all_spellable(keys.skip(1));
        assert forall|i: int| 0 <= i < keys.len() implies unspellable(#[trigger] keys[i]) is None by {
            if i > 0 {
                assert(keys[i] == keys.skip(1)[i - 1]);
            }
        }
    }
}

// ── Grammar prefixes ──────────────────────────────────────────────────

/// A mode in which an editor surface takes panel chords, one of each kind.
pub open spec fn is_asked_mode(m: Mode) -> bool {
    m == Mode::Normal || m == Mode::Visual(VisualType::Char) || m == Mode::OperatorPending(
        Operator::Delete,
    )
}

/// Whether `key` starts a command sequence of the editor's grammar.
///
/// `pending` runs the engine's grammar on the key in a mode, with or without
/// two-key sneaking, and answers whether it then waits for another key. It is
/// asked in every navigation mode and under both settings: one waiting answer
/// is enough, because consuming such a key would destroy the key after it.
pub fn starts_vim_grammar_sequence<F: Fn(KeyEvent, Mode, bool) -> bool>(
    key: KeyEvent,
    pending: F,
) -> (r: bool)
    requires
        forall|m: Mode, sneak: bool|
            is_asked_mode(m) ==> #[trigger] call_requires(pending, (key, m, sneak)),
    ensures
        r ==> exists|m: Mode, sneak: bool|
            is_asked_mode(m) && #[trigger] call_ensures(pending, (key, m, sneak), true),
        !r ==> forall|m: Mode, sneak: bool|
            is_asked_mode(m) ==> #[trigger] call_ensures(pending, (key, m, sneak), false),
{
    let modes: [Mode; 3] = [
        Mode::Normal,
        Mode::Visual(VisualType::Char),
        Mode::OperatorPending(Operator::Delete),
    ];
    let mut i: usize = 0;
    while i < 3
        invariant
            i <= 3,
            modes@ == seq![
                Mode::Normal,
                Mode::Visual(VisualType::Char),
                Mode::OperatorPending(Operator::Delete),
            ],
            forall|m: Mode, sneak: bool|
                is_asked_mode(m) ==> #[trigger] call_requires(pending, (key, m, sneak)),
            forall|j: int, sneak: bool|
                0 <= j < i ==> #[trigger] call_ensures(pending, (key, modes@[j], sneak), false),
        decreases 3 - i,
    {
        let m: Mode = modes[i];
        assert(is_asked_mode(m));
        if pending(key, m, false) {
            return true;
        }
        if pending(key, m, true) {
            return true;
        }
        i = i + 1;
    }
    proof {
        assert forall|m: Mode, sneak: bool| is_asked_mode(m) implies #[trigger] call_ensures(
            pending,
            (key, m, sneak),
            false,
        ) by {
            if m == Mode::Normal {
                assert(call_ensures(pending, (key, modes@[0], sneak), false));
            } else if m == Mode::Visual(VisualType::Char) {
                assert(call_ensures(pending, (key, modes@[1], sneak), false));
            } else {
                assert(call_ensures(pending, (key, modes@[2], sneak), false));
            }
        }
    }
    false
}

} // verus!
