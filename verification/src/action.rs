//! Named actions: identity, parameters, what a verb can reach while it runs,
//! and the registry of verbs.

use vstd::prelude::*;
use vstd::string::*;
use compact_str::CompactString;
use crate::caps::Caps;
use crate::key::KeyEvent;
use crate::outcome::Outcome;
use crate::ports::{ActionCtx, CompletionOps, PanelOps, Step};
use crate::specs;
use crate::specs::Verb;
use crate::text;
use crate::text::{as_text, compact_from, str_eq};

verus! {

/// A registered action, identified by its interned id.
#[derive(Debug, Clone, Copy, PartialEq, Eq, Hash, PartialOrd, Ord, Structural)]
pub struct ActionId(pub u32);

impl ActionId {
    /// The pseudo-key carrying this id.
    pub fn as_key(self) -> (r: KeyEvent)
        ensures
            r == KeyEvent::spec_action(self.0),
    {
        KeyEvent::action(self.0)
    }
}

/// Upper bound on any repeat count.
pub const MAX_ACTION_COUNT: i64 = 100;

// ── Parameters ────────────────────────────────────────────────────────

/// Integer arguments attached to a binding, in the order they were first set.
#[derive(Debug, Clone, PartialEq, Eq)]
pub struct Params {
    entries: Vec<(CompactString, i64)>,
}

/// The entries of a parameter list.
pub open spec fn entry_views(entries: Seq<(CompactString, i64)>) -> Seq<(Seq<char>, i64)> {
    entries.map_values(|e: (CompactString, i64)| (text::compact_text(e.0), e.1))
}

impl View for Params {
    type V = Seq<(Seq<char>, i64)>;

    closed spec fn view(&self) -> Seq<(Seq<char>, i64)> {
        entry_views(self.entries@)
    }
}

/// Place of the first entry for a key.
pub open spec fn param_place(params: Seq<(Seq<char>, i64)>, key: Seq<char>) -> Option<int>
    decreases params.len(),
{
    if params.len() == 0 {
        None
    } else {
        match param_place(params.drop_last(), key) {
            Some(i) => Some(i),
            None => if params.last().0 == key {
                Some(params.len() - 1)
            } else {
                None
            },
        }
    }
}

/// The first entry for a key has the place that is answered for it.
pub proof fn param_place_is_first(params: Seq<(Seq<char>, i64)>, key: Seq<char>, n: int)
    requires
        0 <= n <= params.len(),
        forall|j: int| 0 <= j < n ==> (#[trigger] params[j]).0 != key,
        n < params.len() ==> params[n].0 == key,
    ensures
        param_place(params, key) == (if n < params.len() {
            Some(n)
        } else {
            None
        }),
    decreases params.len(),
{
    if params.len() > 0 {
        let init = params.drop_last();
        assert forall|j: int| 0 <= j < n && j < init.len() implies (#[trigger] init[j]).0 != key by {
            assert(init[j] == params[j]);
        }
        if n < params.len() - 1 {
            assert(init[n] == params[n]);
            param_place_is_first(init, key, n);
        } else {
            param_place_is_first(init, key, init.len() as int);
            if n == params.len() {
                assert(params[params.len() - 1].0 != key);
            }
        }
    }
}

/// A place that is answered is within the list and has the key.
proof fn param_place_is_within(params: Seq<(Seq<char>, i64)>, key: Seq<char>)
    ensures
        match param_place(params, key) {
            Some(i) => 0 <= i < params.len() && params[i].0 == key,
            None => forall|j: int| 0 <= j < params.len() ==> (#[trigger] params[j]).0 != key,
        },
    decreases params.len(),
{
    if params.len() > 0 {
        let init = params.drop_last();
        param_place_is_within(init, key);
        if param_place(init, key) is None {
            assert forall|j: int| 0 <= j < init.len() implies (#[trigger] params[j]).0 != key by {
                assert(init[j] == params[j]);
            }
        }
    }
}

/// The value of a parameter, or a default where it is absent.
pub open spec fn param_or(params: Seq<(Seq<char>, i64)>, key: Seq<char>, default: i64) -> i64 {
    match param_place(params, key) {
        Some(i) => params[i].1,
        None => default,
    }
}

/// A parameter list with one value set: in its place, or at the end.
pub open spec fn with_param(params: Seq<(Seq<char>, i64)>, key: Seq<char>, value: i64) -> Seq<
    (Seq<char>, i64),
> {
    match param_place(params, key) {
        Some(i) => params.update(i, (key, value)),
        None => params.push((key, value)),
    }
}

/// Whether no key occurs twice.
pub open spec fn keys_once(params: Seq<(Seq<char>, i64)>) -> bool {
    forall|i: int, j: int|
        0 <= i < j < params.len() ==> (#[trigger] params[i]).0 != (#[trigger] params[j]).0
}

/// A repeat count within the range that cannot freeze the editor.
pub open spec fn clamped_count(n: i64) -> i64 {
    if n < 1 {
        1
    } else if n > MAX_ACTION_COUNT {
        MAX_ACTION_COUNT
    } else {
        n
    }
}

/// The repeat count of a parameter list.
pub open spec fn count_of(params: Seq<(Seq<char>, i64)>) -> i64 {
    clamped_count(param_or(params, "count"@, 1))
}

impl Default for Params {
    /// No parameter.
    fn default() -> (r: Params)
        ensures
            r@.len() == 0,
    {
        Params { entries: Vec::new() }
    }
}

impl Params {
    /// No parameter.
    pub fn new() -> (r: Params)
        ensures
            r@.len() == 0,
    {
        Params::default()
    }

    /// Place of the first entry for a key.
    fn position(&self, key: &str) -> (r: Option<usize>)
        ensures
            match (r, param_place(self@, key@)) {
                (Some(i), Some(at)) => i == at && i < self.entries@.len(),
                (None, None) => true,
                _ => false,
            },
    {
        let mut i: usize = 0;
        while i < self.entries.len()
            invariant
                i <= self.entries@.len(),
                forall|j: int| 0 <= j < i ==> (#[trigger] self@[j]).0 != key@,
            decreases self.entries@.len() - i,
        {
            if str_eq(as_text(&self.entries[i].0), key) {
                proof {
                    param_place_is_first(self@, key@, i as int);
                }
                return Some(i);
            }
            i = i + 1;
        }
        proof {
            param_place_is_first(self@, key@, i as int);
        }
        None
    }

    /// Read a parameter, or `default` if absent.
    pub fn get_int(&self, key: &str, default: i64) -> (r: i64)
        ensures
            r == param_or(self@, key@, default),
    {
        match self.position(key) {
            Some(i) => self.entries[i].1,
            None => default,
        }
    }

    /// Set a parameter, replacing any existing value for `key`.
    pub fn set_int(&mut self, key: &str, value: i64)
        ensures
            final(self)@ == with_param(old(self)@, key@, value),
    {
        let ghost before = self@;
        match self.position(key) {
            Some(i) => {
                let name = self.entries[i].0.clone();
                proof {
                    param_place_is_within(before, key@);
                }
                self.entries.set(i, (name, value));
            },
            None => {
                self.entries.push((compact_from(key), value));
            },
        }
        assert(self@ =~= with_param(before, key@, value));
    }

    /// The repeat count, at least one and at most [`MAX_ACTION_COUNT`].
    pub fn count(&self) -> (r: u32)
        ensures
            r == count_of(self@),
            1 <= r <= MAX_ACTION_COUNT,
    {
        let n: i64 = self.get_int("count", 1);
        if n < 1 {
            1
        } else if n > MAX_ACTION_COUNT {
            MAX_ACTION_COUNT as u32
        } else {
            n as u32
        }
    }

    /// Whether no parameter is set.
    pub fn is_empty(&self) -> (r: bool)
        ensures
            r == (self@.len() == 0),
    {
        self.entries.len() == 0
    }

    /// Parameters in insertion order.
    pub fn iter(&self) -> (r: Vec<(&str, i64)>)
        ensures
            r@.map_values(|e: (&str, i64)| (e.0@, e.1)) == self@,
    {
        let mut out: Vec<(&str, i64)> = Vec::new();
        let mut i: usize = 0;
        while i < self.entries.len()
            invariant
                i <= self.entries@.len(),
                out@.len() == i,
                forall|j: int|
                    0 <= j < i ==> (#[trigger] out@[j]).0@ == self@[j].0 && out@[j].1 == self@[j].1,
            decreases self.entries@.len() - i,
        {
            out.push((as_text(&self.entries[i].0), self.entries[i].1));
            i = i + 1;
        }
        assert(out@.map_values(|e: (&str, i64)| (e.0@, e.1)) =~= self@);
        out
    }

    /// The same parameters in a list of their own.
    pub fn copy(&self) -> (r: Params)
        ensures
            r@ == self@,
    {
        let mut out: Vec<(CompactString, i64)> = Vec::new();
        let mut i: usize = 0;
        while i < self.entries.len()
            invariant
                i <= self.entries@.len(),
                out@.len() == i,
                forall|j: int| 0 <= j < i ==> (#[trigger] entry_views(out@)[j]) == self@[j],
            decreases self.entries@.len() - i,
        {
            let ghost before = out@;
            out.push((self.entries[i].0.clone(), self.entries[i].1));
            assert forall|j: int| 0 <= j < i + 1 implies (#[trigger] entry_views(out@)[j])
                == self@[j] by {
                if j < i {
                    assert(entry_views(out@)[j] == entry_views(before)[j]);
                }
            }
            i = i + 1;
        }
        assert(entry_views(out@) =~= self@);
        Params { entries: out }
    }
}

/// What was set is read back, whatever else was set keeps its value, and no
/// key is ever held twice: the last writer wins.
pub proof fn last_writer_wins(
    params: Seq<(Seq<char>, i64)>,
    key: Seq<char>,
    value: i64,
    other: Seq<char>,
    default: i64,
)
    requires
        keys_once(params),
    ensures
        keys_once(with_param(params, key, value)),
        param_or(with_param(params, key, value), key, default) == value,
        other != key ==> param_or(with_param(params, key, value), other, default) == param_or(
            params,
            other,
            default,
        ),
{
    let after = with_param(params, key, value);
    param_place_is_within(params, key);
    param_place_is_within(params, other);
    let at = match param_place(params, key) {
        Some(i) => i,
        None => params.len() as int,
    };
    assert(after[at].0 == key);
    assert forall|j: int| 0 <= j < after.len() && j != at implies (#[trigger] after[j]).0 != key by {
        assert(after[j] == params[j]);
        if at < params.len() {
            if j < at {
                assert(params[j].0 != params[at].0);
            } else {
                assert(params[at].0 != params[j].0);
            }
        }
    }
    param_place_is_first(after, key, at);
    assert forall|i: int, j: int| 0 <= i < j < after.len() implies (#[trigger] after[i]).0 != (
    #[trigger] after[j]).0 by {
        if i != at && j != at {
            assert(params[i].0 != params[j].0);
        }
    }
    if other != key {
        match param_place(params, other) {
            Some(i) => {
                assert(i != at);
                assert(after[i] == params[i]);
                assert forall|j: int| 0 <= j < i implies (#[trigger] after[j]).0 != other by {
                    assert(after[i].0 != after[j].0);
                }
                param_place_is_first(after, other, i);
            },
            None => {
                assert forall|j: int| 0 <= j < after.len() implies (#[trigger] after[j]).0
                    != other by {
                    if j != at {
                        assert(after[j] == params[j]);
                    }
                }
                param_place_is_first(after, other, after.len() as int);
            },
        }
    }
}

// ── Names ─────────────────────────────────────────────────────────────

/// A character that may stand in an action id.
pub open spec fn is_id_char(c: char) -> bool {
    'a' <= c <= 'z' || 'A' <= c <= 'Z' || '0' <= c <= '9' || c == '.' || c == '_'
}

/// Whether a name is a well-formed action id: letters, digits, dots and
/// underscores, with a dot among them.
pub open spec fn is_action_id(name: Seq<char>) -> bool {
    &&& name.contains('.')
    &&& forall|i: int| 0 <= i < name.len() ==> is_id_char(#[trigger] name[i])
}

/// Whether `name` is a well-formed action id.
///
/// The dot tells the namespace from that of the editor's own shortcut paths,
/// which are written with slashes.
pub fn is_valid_action_id(name: &str) -> (r: bool)
    ensures
        r == is_action_id(name@),
{
    let n: usize = name.unicode_len();
    let mut dotted = false;
    let mut i: usize = 0;
    while i < n
        invariant
            n == name@.len(),
            i <= n,
            dotted == exists|j: int| 0 <= j < i && (#[trigger] name@[j]) == '.',
            forall|j: int| 0 <= j < i ==> is_id_char(#[trigger] name@[j]),
        decreases n - i,
    {
        let c: char = name.get_char(i);
        if c == '.' {
            dotted = true;
        }
        let ok = ('a' <= c && c <= 'z') || ('A' <= c && c <= 'Z') || ('0' <= c && c <= '9') || c
            == '.' || c == '_';
        if !ok {
            return false;
        }
        i = i + 1;
    }
    dotted
}

/// No well-formed action id is also a shortcut path.
pub proof fn action_ids_hold_no_slash(name: Seq<char>)
    requires
        is_action_id(name),
    ensures
        !name.contains('/'),
        name.len() > 0,
{
}

/// A revealed literal that fits in 32 characters and has a dot in the place of
/// the namespace's is a well-formed id where each of its characters may stand
/// in one.
pub proof fn literal_id(name: &str)
    requires
        8 < name@.len() <= 32,
        name@[8] == '.',
        forall|i: int| #![trigger is_id_char(name@[i])] 0 <= i < 32 ==> i < name@.len() ==> is_id_char(name@[i]),
    ensures
        is_action_id(name@),
{
    assert(name@.contains('.'));
}

/// Place of a name among the interned names.
pub open spec fn name_place(names: Seq<Seq<char>>, name: Seq<char>) -> Option<int> {
    if names.contains(name) {
        Some(names.index_of(name))
    } else {
        None
    }
}

/// Interner of action names: append-only, so an id stays what it was.
#[derive(Debug)]
pub struct ActionNames {
    names: Vec<String>,
}

impl View for ActionNames {
    type V = Seq<Seq<char>>;

    closed spec fn view(&self) -> Seq<Seq<char>> {
        self.names@.map_values(|s: String| s@)
    }
}

impl Default for ActionNames {
    /// An interner that knows no name.
    fn default() -> (r: ActionNames)
        ensures
            r.wf(),
            r@.len() == 0,
    {
        ActionNames { names: Vec::new() }
    }
}

impl ActionNames {
    /// No name is held twice, and every place is an id.
    pub open spec fn wf(&self) -> bool {
        self@.no_duplicates() && self@.len() <= u32::MAX
    }

    /// An interner that knows no name.
    pub fn new() -> (r: ActionNames)
        ensures
            r.wf(),
            r@.len() == 0,
    {
        ActionNames::default()
    }

    /// Intern `name`, returning its stable id.
    pub fn intern(&mut self, name: &str) -> (r: ActionId)
        requires
            old(self).wf(),
            is_action_id(name@),
            old(self)@.len() < u32::MAX,
        ensures
            final(self).wf(),
            match name_place(old(self)@, name@) {
                Some(i) => r.0 == i && final(self)@ == old(self)@,
                None => r.0 == old(self)@.len() && final(self)@ == old(self)@.push(name@),
            },
    {
        let ghost before = self@;
        match self.id_of(name) {
            Some(id) => id,
            None => {
                let id: u32 = self.names.len() as u32;
                self.names.push(name.to_owned());
                assert(self@ =~= before.push(name@));
                ActionId(id)
            },
        }
    }

    /// The name behind an id.
    pub fn name_of(&self, id: ActionId) -> (r: Option<&str>)
        ensures
            match r {
                Some(name) => id.0 < self@.len() && name@ == self@[id.0 as int],
                None => id.0 >= self@.len(),
            },
    {
        let i: usize = id.0 as usize;
        if i < self.names.len() {
            Some(self.names[i].as_str())
        } else {
            None
        }
    }

    /// The id of a name.
    pub fn id_of(&self, name: &str) -> (r: Option<ActionId>)
        requires
            self.wf(),
        ensures
            match (r, name_place(self@, name@)) {
                (Some(id), Some(i)) => id.0 == i,
                (None, None) => true,
                _ => false,
            },
    {
        let mut i: usize = 0;
        while i < self.names.len()
            invariant
                self.wf(),
                i <= self.names@.len(),
                self@.len() == self.names@.len(),
                forall|j: int| 0 <= j < i ==> self@[j] != name@,
            decreases self.names@.len() - i,
        {
            if str_eq(self.names[i].as_str(), name) {
                assert(self@[i as int] == name@);
                return Some(ActionId(i as u32));
            }
            i = i + 1;
        }
        None
    }
}

/// Interning is idempotent and stable: a name keeps its id whatever is
/// interned later, and two names never share one.
pub proof fn interning_is_stable(names: Seq<Seq<char>>, name: Seq<char>, later: Seq<char>)
    requires
        names.no_duplicates(),
        name_place(names, name) is Some,
        name_place(names, later) is None,
    ensures
        ({
            let after = names.push(later);
            &&& after.no_duplicates()
            &&& name_place(after, name) == name_place(names, name)
            &&& name_place(after, later) == Some(names.len() as int)
            &&& name_place(after, later) != name_place(after, name)
        }),
{
    let after = names.push(later);
    let i = names.index_of(name);
    assert(after[i] == name);
    assert(after[names.len() as int] == later);
    assert(after.contains(name));
    assert(after.contains(later));
    assert(after.no_duplicates());
}

// ── Targets ───────────────────────────────────────────────────────────

/// Where a binding sends a keystroke.
#[derive(Debug, Clone, PartialEq, Eq)]
pub enum RuleTarget {
    /// Run one of the plugin's own registered actions.
    Action(ActionId),
    /// Hand the key back to the editor untouched.
    Native,
    /// Delegate to one of the editor's own registered shortcuts.
    Shortcut(CompactString),
}

/// What a [`RuleTarget`] says.
pub enum TargetView {
    Action(ActionId),
    Native,
    Shortcut(Seq<char>),
}

impl View for RuleTarget {
    type V = TargetView;

    open spec fn view(&self) -> TargetView {
        match *self {
            RuleTarget::Action(id) => TargetView::Action(id),
            RuleTarget::Native => TargetView::Native,
            RuleTarget::Shortcut(path) => TargetView::Shortcut(text::compact_text(path)),
        }
    }
}

/// A named verb: what it is called, what it needs, and what it does.
#[derive(Debug, Clone, Copy, PartialEq, Eq)]
pub struct ActionSpec {
    pub id: &'static str,
    pub desc: &'static str,
    /// Consulted where the resolver ranks candidates for a keystroke, never
    /// where the verb is invoked by name.
    pub requires: Caps,
    /// Whether the verb finds its own target when invoked by name.
    pub host_invocable: bool,
    pub run: Verb,
}

// ── The registry ──────────────────────────────────────────────────────

/// Place of the verb with a name.
pub open spec fn spec_place(specs: Seq<ActionSpec>, name: Seq<char>) -> Option<int> {
    name_place(spec_names(specs), name)
}

/// The names of some verbs.
pub open spec fn spec_names(specs: Seq<ActionSpec>) -> Seq<Seq<char>> {
    specs.map_values(|s: ActionSpec| s.id@)
}

/// Some verbs with one more, where its name is new.
pub open spec fn with_spec(specs: Seq<ActionSpec>, spec: ActionSpec) -> Seq<ActionSpec> {
    match spec_place(specs, spec.id@) {
        Some(_) => specs,
        None => specs.push(spec),
    }
}

/// Every action the shell knows about, by id.
#[derive(Debug)]
pub struct ActionRegistry {
    names: ActionNames,
    specs: Vec<ActionSpec>,
}

impl View for ActionRegistry {
    type V = Seq<ActionSpec>;

    closed spec fn view(&self) -> Seq<ActionSpec> {
        self.specs@
    }
}

impl Default for ActionRegistry {
    /// A registry without verbs.
    fn default() -> (r: ActionRegistry)
        ensures
            r.wf(),
            r@.len() == 0,
    {
        let r = ActionRegistry { names: ActionNames::new(), specs: Vec::new() };
        assert(spec_names(r@) =~= r.names@);
        r
    }
}

impl ActionRegistry {
    /// The interned names are those of the verbs, in the same order.
    pub closed spec fn wf(&self) -> bool {
        &&& self.names.wf()
        &&& self.names@ == spec_names(self.specs@)
    }

    /// What a registry guarantees: no two verbs share a name.
    pub proof fn names_are_distinct(&self)
        requires
            self.wf(),
        ensures
            spec_names(self@).no_duplicates(),
            self@.len() <= u32::MAX,
    {
        assert(self.names@.len() == self.specs@.len());
    }

    /// A registry without verbs.
    pub fn new() -> (r: ActionRegistry)
        ensures
            r.wf(),
            r@.len() == 0,
    {
        ActionRegistry::default()
    }

    /// Register a verb, returning its id. Idempotent by name.
    pub fn register(&mut self, spec: ActionSpec) -> (r: ActionId)
        requires
            old(self).wf(),
            is_action_id(spec.id@),
            old(self)@.len() < u32::MAX,
        ensures
            final(self).wf(),
            final(self)@ == with_spec(old(self)@, spec),
            r.0 == (match spec_place(old(self)@, spec.id@) {
                Some(i) => i,
                None => old(self)@.len() as int,
            }),
    {
        let ghost before = self.specs@;
        assert(self.names@.len() == before.len());
        let id = self.names.intern(spec.id);
        if id.0 as usize == self.specs.len() {
            self.specs.push(spec);
            assert(spec_names(self.specs@) =~= spec_names(before).push(spec.id@));
        }
        id
    }

    /// The verb behind an id.
    pub open spec fn spec_get(self, id: ActionId) -> Option<ActionSpec> {
        if id.0 < self@.len() {
            Some(self@[id.0 as int])
        } else {
            None
        }
    }

    /// The verb behind an id.
    pub fn get(&self, id: ActionId) -> (r: Option<&ActionSpec>)
        ensures
            match (r, self.spec_get(id)) {
                (Some(spec), Some(want)) => *spec == want,
                (None, None) => true,
                _ => false,
            },
    {
        let i: usize = id.0 as usize;
        if i < self.specs.len() {
            Some(&self.specs[i])
        } else {
            None
        }
    }

    /// The id of a verb's name.
    pub fn id_of(&self, name: &str) -> (r: Option<ActionId>)
        requires
            self.wf(),
        ensures
            match (r, spec_place(self@, name@)) {
                (Some(id), Some(i)) => id.0 == i && i < self@.len(),
                (None, None) => true,
                _ => false,
            },
    {
        self.names.id_of(name)
    }

    /// The name of the verb behind an id.
    pub fn name_of(&self, id: ActionId) -> (r: Option<&str>)
        requires
            self.wf(),
        ensures
            match (r, self.spec_get(id)) {
                (Some(name), Some(spec)) => name@ == spec.id@,
                (None, None) => true,
                _ => false,
            },
    {
        assert(self.names@.len() == self.specs@.len());
        self.names.name_of(id)
    }

    /// How many verbs there are.
    pub fn len(&self) -> (r: usize)
        ensures
            r == self@.len(),
    {
        self.specs.len()
    }

    /// Every registered verb with its id, in registration order.
    pub fn iter(&self) -> (r: Vec<(ActionId, ActionSpec)>)
        requires
            self.wf(),
        ensures
            r@.len() == self@.len(),
            forall|i: int|
                0 <= i < r@.len() ==> (#[trigger] r@[i]).0.0 == i && r@[i].1 == self@[i],
    {
        proof {
            self.names_are_distinct();
        }
        let mut out: Vec<(ActionId, ActionSpec)> = Vec::new();
        let mut i: usize = 0;
        while i < self.specs.len()
            invariant
                i <= self.specs@.len() <= u32::MAX,
                out@.len() == i,
                forall|j: int|
                    0 <= j < i ==> (#[trigger] out@[j]).0.0 == j && out@[j].1 == self@[j],
            decreases self.specs@.len() - i,
        {
            out.push((ActionId(i as u32), self.specs[i]));
            i = i + 1;
        }
        out
    }

    /// Whether capabilities satisfy what a verb requires; never for an id that
    /// no verb has.
    pub open spec fn allows(self, id: ActionId, caps: Caps) -> bool {
        self.spec_get(id) matches Some(spec) && caps.covers(spec.requires)
    }

    /// Run a verb by id; an id that no verb has declines.
    ///
    /// What the verb requires is not asked about: that gates bindings, never
    /// invocation.
    pub fn run<P: PanelOps, C: CompletionOps>(
        &self,
        id: ActionId,
        cx: &mut ActionCtx<P, C>,
    ) -> (r: Step)
        ensures
            match self.spec_get(id) {
                Some(spec) => specs::ran(spec.run, *old(cx), *final(cx), r),
                None => r == Step::Done(Outcome::Declined) && *final(cx) == *old(cx),
            },
    {
        match self.get(id) {
            Some(spec) => spec.run.run(cx),
            None => Step::Done(Outcome::Declined),
        }
    }

    /// Whether `caps` satisfies what `id` requires: what guards the binding
    /// plane.
    pub fn caps_allow(&self, id: ActionId, caps: Caps) -> (r: bool)
        ensures
            r == self.allows(id, caps),
    {
        match self.get(id) {
            Some(spec) => caps.satisfies(spec.requires),
            None => false,
        }
    }
}

} // verus!
