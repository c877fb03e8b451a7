//! Keys, modifiers and key events.
//!
//! A key event is a key, the modifiers held with it and, for a key on a
//! non-Latin layout, the Latin key at the same place.

use vstd::prelude::*;
use compact_str::CompactString;
use crate::text;
use crate::text::as_text;

verus! {

/// One key, without its modifiers.
#[derive(Debug, Clone, Copy, PartialEq, Eq, Structural)]
pub enum Key {
    /// A printable character.
    Char(char),
    Enter,
    Escape,
    Tab,
    Backspace,
    Delete,
    Insert,
    Home,
    End,
    PageUp,
    PageDown,
    Up,
    Down,
    Left,
    Right,
    /// A function key, by number.
    Function(u8),
    /// Any other named key, by the number the editor engine gives it.
    Other(u32),
    /// An opaque number in the shape of a key: never typed, only stored.
    Action(u32),
}

/// The modifiers held with a key.
#[derive(Debug, Clone, Copy, PartialEq, Eq, Structural)]
pub struct Modifiers {
    pub shift: bool,
    pub ctrl: bool,
    pub alt: bool,
    pub meta: bool,
}

impl Modifiers {
    /// No modifier.
    pub fn none() -> (r: Modifiers)
        ensures
            r == no_modifiers(),
    {
        Modifiers { shift: false, ctrl: false, alt: false, meta: false }
    }

    /// Shift alone.
    pub fn shift() -> (r: Modifiers)
        ensures
            r == (Modifiers { shift: true, ..no_modifiers() }),
    {
        Modifiers { shift: true, ctrl: false, alt: false, meta: false }
    }

    /// Ctrl alone.
    pub fn ctrl() -> (r: Modifiers)
        ensures
            r == (Modifiers { ctrl: true, ..no_modifiers() }),
    {
        Modifiers { shift: false, ctrl: true, alt: false, meta: false }
    }

    /// Alt alone.
    pub fn alt() -> (r: Modifiers)
        ensures
            r == (Modifiers { alt: true, ..no_modifiers() }),
    {
        Modifiers { shift: false, ctrl: false, alt: true, meta: false }
    }

    /// Meta alone.
    pub fn meta() -> (r: Modifiers)
        ensures
            r == (Modifiers { meta: true, ..no_modifiers() }),
    {
        Modifiers { shift: false, ctrl: false, alt: false, meta: true }
    }

    /// Every modifier that is in either set.
    pub fn union(self, other: Modifiers) -> (r: Modifiers)
        ensures
            r.shift == (self.shift || other.shift),
            r.ctrl == (self.ctrl || other.ctrl),
            r.alt == (self.alt || other.alt),
            r.meta == (self.meta || other.meta),
    {
        Modifiers {
            shift: self.shift || other.shift,
            ctrl: self.ctrl || other.ctrl,
            alt: self.alt || other.alt,
            meta: self.meta || other.meta,
        }
    }

    /// Whether the modifiers make a command chord: Ctrl, Alt or Meta is held.
    ///
    /// Shift is not one of them: it is folded into the character.
    pub open spec fn spec_command(self) -> bool {
        self.ctrl || self.alt || self.meta
    }

    /// Whether Ctrl, Alt or Meta is held.
    pub fn is_command(self) -> (r: bool)
        ensures
            r == self.spec_command(),
    {
        self.ctrl || self.alt || self.meta
    }

    /// The same modifiers with Shift released.
    pub open spec fn spec_unshifted(self) -> Modifiers {
        Modifiers { shift: false, ..self }
    }

    /// The same modifiers with Shift released.
    pub fn unshifted(self) -> (r: Modifiers)
        ensures
            r == self.spec_unshifted(),
    {
        Modifiers { shift: false, ctrl: self.ctrl, alt: self.alt, meta: self.meta }
    }
}

/// No modifier.
pub open spec fn no_modifiers() -> Modifiers {
    Modifiers { shift: false, ctrl: false, alt: false, meta: false }
}

/// One keystroke.
#[derive(Debug, Clone, Copy, PartialEq, Eq, Structural)]
pub struct KeyEvent {
    pub key: Key,
    pub modifiers: Modifiers,
    /// The Latin key at the place of a non-Latin one.
    pub latin: Option<Key>,
}

impl KeyEvent {
    /// A key event without a Latin override.
    pub open spec fn spec_new(key: Key, modifiers: Modifiers) -> KeyEvent {
        KeyEvent { key, modifiers, latin: None }
    }

    /// A key event without a Latin override.
    pub fn new(key: Key, modifiers: Modifiers) -> (r: KeyEvent)
        ensures
            r == KeyEvent::spec_new(key, modifiers),
    {
        KeyEvent { key, modifiers, latin: None }
    }

    /// The same event with a Latin override.
    pub fn with_latin(self, latin: Key) -> (r: KeyEvent)
        ensures
            r == (KeyEvent { latin: Some(latin), ..self }),
    {
        KeyEvent { key: self.key, modifiers: self.modifiers, latin: Some(latin) }
    }

    /// A stored number in the shape of a key event.
    pub open spec fn spec_action(id: u32) -> KeyEvent {
        KeyEvent::spec_new(Key::Action(id), no_modifiers())
    }

    /// A stored number in the shape of a key event.
    pub fn action(id: u32) -> (r: KeyEvent)
        ensures
            r == KeyEvent::spec_action(id),
    {
        KeyEvent::new(Key::Action(id), Modifiers::none())
    }

    /// The key.
    pub fn key(&self) -> (r: Key)
        ensures
            r == self.key,
    {
        self.key
    }

    /// The modifiers held with it.
    pub fn modifiers(&self) -> (r: Modifiers)
        ensures
            r == self.modifiers,
    {
        self.modifiers
    }

    /// The Latin override.
    pub fn latin_key(&self) -> (r: Option<Key>)
        ensures
            r == self.latin,
    {
        self.latin
    }
}

/// Whether a key sequence equals another, key by key.
pub fn keys_eq(a: &[KeyEvent], b: &[KeyEvent]) -> (r: bool)
    ensures
        r == (a@ == b@),
{
    if a.len() != b.len() {
        return false;
    }
    let mut i: usize = 0;
    while i < a.len()
        invariant
            a@.len() == b@.len(),
            i <= a@.len(),
            forall|j: int| 0 <= j < i ==> a@[j] == b@[j],
        decreases a@.len() - i,
    {
        if a[i] != b[i] {
            return false;
        }
        i = i + 1;
    }
    assert(a@ =~= b@);
    true
}

/// A copy of a key sequence.
pub fn copy_keys(keys: &[KeyEvent]) -> (r: Vec<KeyEvent>)
    ensures
        r@ == keys@,
{
    let mut out: Vec<KeyEvent> = Vec::new();
    let mut i: usize = 0;
    while i < keys.len()
        invariant
            i <= keys@.len(),
            out@ == keys@.take(i as int),
        decreases keys@.len() - i,
    {
        out.push(keys[i]);
        i = i + 1;
        assert(out@ =~= keys@.take(i as int));
    }
    assert(keys@.take(i as int) =~= keys@);
    out
}

/// Whether `key` occurs in `keys`.
pub fn keys_contain(keys: &[KeyEvent], key: KeyEvent) -> (r: bool)
    ensures
        r == keys@.contains(key),
{
    let mut i: usize = 0;
    while i < keys.len()
        invariant
            i <= keys@.len(),
            forall|j: int| 0 <= j < i ==> keys@[j] != key,
        decreases keys@.len() - i,
    {
        if keys[i] == key {
            return true;
        }
        i = i + 1;
    }
    false
}

/// How the editor engine writes each key down.
///
/// The notation is the engine's own. Whoever prints a report fills in the keys
/// that occur in it; a key that is not listed prints as nothing.
#[derive(Debug)]
pub struct KeyNames {
    pub entries: Vec<(KeyEvent, CompactString)>,
}

/// What [`KeyNames::text`] answers over a list of entries.
pub open spec fn key_text(entries: Seq<(KeyEvent, CompactString)>, key: KeyEvent) -> Seq<char>
    decreases entries.len(),
{
    if entries.len() == 0 {
        Seq::empty()
    } else if entries[0].0 == key {
        text::compact_text(entries[0].1)
    } else {
        key_text(entries.skip(1), key)
    }
}

impl KeyNames {
    /// The written form of a key: the first entry for it.
    pub open spec fn spec_text(&self, key: KeyEvent) -> Seq<char> {
        key_text(self.entries@, key)
    }

    /// The written form of a key: the first entry for it, or nothing.
    pub fn text(&self, key: KeyEvent) -> (r: &str)
        ensures
            r@ == self.spec_text(key),
    {
        let mut i: usize = 0;
        proof {
            assert(self.entries@.skip(0) =~= self.entries@);
        }
        while i < self.entries.len()
            invariant
                i <= self.entries@.len(),
                self.spec_text(key) == key_text(self.entries@.skip(i as int), key),
            decreases self.entries@.len() - i,
        {
            proof {
                assert(self.entries@.skip(i as int).skip(1) =~= self.entries@.skip(i + 1));
            }
            if self.entries[i].0 == key {
                return as_text(&self.entries[i].1);
            }
            i = i + 1;
        }
        proof {
            reveal_strlit("");
            assert(""@ =~= Seq::<char>::empty());
        }
        ""
    }
}

/// A selection's extent in a visual mode.
#[derive(Debug, Clone, Copy, PartialEq, Eq, Structural)]
pub enum VisualType {
    Char,
    Line,
    Block,
}

/// An operator that waits for a motion.
#[derive(Debug, Clone, Copy, PartialEq, Eq, Structural)]
pub enum Operator {
    Delete,
    Change,
    Yank,
    /// Any other operator, by the number the editor engine gives it.
    Other(u32),
}

/// The mode the attached editor is in.
#[derive(Debug, Clone, Copy, PartialEq, Eq, Structural)]
pub enum Mode {
    Normal,
    Insert,
    Replace,
    VirtualReplace,
    CommandLine,
    Visual(VisualType),
    Select(VisualType),
    OperatorPending(Operator),
    /// Any other mode, by the number the editor engine gives it.
    Other(u32),
}

} // verus!
