//! Pending prefixes: multi-key sequences outside the editor.
//!
//! A consumed key cannot be put back, so nothing is consumed on speculation: a
//! key opens a buffer only where a sequence that starts with it is bound, on
//! that surface. Once a buffer is open it owns the keys that follow: a key
//! that continues no sequence is consumed with it.

use vstd::prelude::*;
use crate::action::{ActionRegistry, ActionSpec};
use crate::bind;
use crate::bind::{BindingIndex, IndexView, RuleView};
use crate::bind_laws;
use crate::caps::Caps;
use crate::key::{copy_keys, keys_eq, KeyEvent};
use crate::keys::{ProbeList, Probes, MAX_KEY_SEQUENCE_LEN};
use crate::resolve;
use crate::resolve::{hit_from, walk_scope, Candidate, CandidateView, Hit, HitView, ResolveInput};
use crate::surface;
use crate::surface::{Seal, SurfaceId, SurfacePath};
use crate::text;
use crate::text::str_eq;
use crate::trie::{LookupView, TrieLookup};

verus! {

/// What the sequence layer decided about one keystroke. Everything but a
/// passthrough consumes it.
#[derive(Debug, Clone, PartialEq)]
pub enum SeqStep {
    /// Not a sequence: nothing was buffered and nothing was consumed.
    Passthrough,
    /// A repeat of a held key while a buffer was open: consumed and discarded.
    Echo,
    /// The buffer opened or grew and could still continue.
    Buffered,
    /// The buffer completed. Run these.
    Run(Vec<Candidate>, KeyEvent),
    /// The buffer has no continuation, or one with nothing to run.
    DeadPrefix(SurfaceId),
}

/// What a [`SeqStep`] says.
pub enum StepView {
    Passthrough,
    Echo,
    Buffered,
    Run(CandidateView, KeyEvent),
    DeadPrefix(SurfaceId),
}

/// Whether a step says what it should.
pub open spec fn says(step: SeqStep, want: StepView) -> bool {
    match (step, want) {
        (SeqStep::Passthrough, StepView::Passthrough) => true,
        (SeqStep::Echo, StepView::Echo) => true,
        (SeqStep::Buffered, StepView::Buffered) => true,
        (SeqStep::Run(candidates, key), StepView::Run(c, at)) => resolve::candidate_views(
            candidates@,
        ) == seq![c] && key == at,
        (SeqStep::DeadPrefix(s), StepView::DeadPrefix(t)) => s == t,
        _ => false,
    }
}

/// The pending prefix buffer.
#[derive(Debug)]
pub struct Pending {
    keys: Vec<KeyEvent>,
    /// The surface whose table owns the buffered sequence, if one is open.
    surface: Option<SurfaceId>,
    /// The capabilities of the path the sequence started on.
    caps: Caps,
}

/// What a [`Pending`] holds.
#[verifier::ext_equal]
pub struct PendingView {
    pub keys: Seq<KeyEvent>,
    pub surface: Option<SurfaceId>,
    pub caps: Caps,
}

impl View for Pending {
    type V = PendingView;

    closed spec fn view(&self) -> PendingView {
        PendingView { keys: self.keys@, surface: self.surface, caps: self.caps }
    }
}

impl PendingView {
    /// No buffer is open.
    pub open spec fn idle() -> PendingView {
        PendingView { keys: Seq::empty(), surface: None, caps: Caps::spec_empty() }
    }

    /// A buffer that is open holds a key and no more than the longest sequence
    /// has; otherwise it is empty.
    pub open spec fn wf(self) -> bool {
        match self.surface {
            Some(_) => 0 < self.keys.len() <= MAX_KEY_SEQUENCE_LEN,
            None => self == PendingView::idle(),
        }
    }
}

// ── Opening ───────────────────────────────────────────────────────────

/// Whether a key opens a buffer on a surface: it is reserved there, and the
/// table would wait on it.
pub open spec fn opens(v: IndexView, surface: SurfaceId, key: KeyEvent) -> bool {
    v.reserves(surface@, key) && v.lookup(surface@, seq![key]) is Prefix
}

/// Whether a positional guess may open a buffer on a surface: a sequence that
/// starts with it asks for the guess.
pub open spec fn guess_opens(v: IndexView, surface: SurfaceId, key: KeyEvent) -> bool {
    &&& v.physical_on(surface@)
    &&& exists|i: int|
        0 <= i < sequences(v, surface, key).len() && (#[trigger] sequences(
            v,
            surface,
            key,
        )[i]).physical
    &&& opens(v, surface, key)
}

/// The live sequences on a surface that start with a key.
pub open spec fn sequences(v: IndexView, surface: SurfaceId, key: KeyEvent) -> Seq<RuleView> {
    v.rules_on(surface@).filter(|r: RuleView| bind::is_sequence_from(r.lhs, key))
}

/// The first of some surfaces that a key opens a buffer on.
pub open spec fn first_open(
    v: IndexView,
    scope: Seq<SurfaceId>,
    key: KeyEvent,
    guess: bool,
) -> Option<SurfaceId>
    decreases scope.len(),
{
    if scope.len() == 0 {
        None
    } else if if guess {
        guess_opens(v, scope[0], key)
    } else {
        opens(v, scope[0], key)
    } {
        Some(scope[0])
    } else {
        first_open(v, scope.skip(1), key, guess)
    }
}

/// The first of some typed keys that opens a buffer anywhere, and where: the
/// priority of a probe outranks depth.
pub open spec fn first_typed(
    v: IndexView,
    scope: Seq<SurfaceId>,
    typed: Seq<KeyEvent>,
) -> Option<(SurfaceId, KeyEvent)>
    decreases typed.len(),
{
    if typed.len() == 0 {
        None
    } else {
        match first_open(v, scope, typed[0], false) {
            Some(surface) => Some((surface, typed[0])),
            None => first_typed(v, scope, typed.skip(1)),
        }
    }
}

/// Where a keystroke opens a buffer, and with which of its spellings: what was
/// typed before what is guessed.
pub open spec fn opening(
    v: IndexView,
    path: SurfacePath,
    probes: ProbeList,
) -> Option<(SurfaceId, KeyEvent)> {
    let scope = path.ids@.take(resolve::reach(path, probes));
    match first_typed(v, scope, probes.scoped(false)) {
        Some(found) => Some(found),
        None => match resolve::guess_of(probes) {
            Some(key) => if path.anchor_refuses_positional {
                None
            } else {
                match first_open(v, scope, key, true) {
                    Some(surface) => Some((surface, key)),
                    None => None,
                }
            },
            None => None,
        },
    }
}

// ── Extending ─────────────────────────────────────────────────────────

/// What one spelling of a keystroke makes of an open buffer, if it continues
/// the sequence.
pub open spec fn continued(
    p: PendingView,
    v: IndexView,
    registry: Seq<ActionSpec>,
    key: KeyEvent,
) -> Option<(PendingView, StepView)> {
    let surface = p.surface->0;
    let keys = p.keys.push(key);
    match v.lookup(surface@, keys) {
        LookupView::ExactOnly(entry) => Some(
            (
                PendingView::idle(),
                match resolve::hit_of(v, registry, p.caps, surface, entry) {
                    HitView::Run(c) => StepView::Run(c, key),
                    // The prefix is used up: there is nothing to hand back.
                    _ => StepView::DeadPrefix(surface),
                },
            ),
        ),
        LookupView::Prefix { .. } => Some((PendingView { keys, ..p }, StepView::Buffered)),
        LookupView::NoMatch => None,
    }
}

/// What the first of some spellings that continues a buffer makes of it.
pub open spec fn first_continued(
    p: PendingView,
    v: IndexView,
    registry: Seq<ActionSpec>,
    keys: Seq<KeyEvent>,
) -> Option<(PendingView, StepView)>
    decreases keys.len(),
{
    if keys.len() == 0 {
        None
    } else {
        match continued(p, v, registry, keys[0]) {
            Some(found) => Some(found),
            None => first_continued(p, v, registry, keys.skip(1)),
        }
    }
}

/// Whether a rule asks for the positional guess and starts with some keys.
pub open spec fn asks_for(rule: RuleView, keys: Seq<KeyEvent>) -> bool {
    rule.physical && keys.len() <= rule.lhs.len() && rule.lhs.take(keys.len() as int) == keys
}

/// Whether a positional guess may continue a buffer: a rule that it leads to
/// asks for it.
pub open spec fn guess_continues(p: PendingView, v: IndexView, key: KeyEvent) -> bool {
    let id = p.surface->0@;
    v.physical_on(id) && exists|i: int|
        0 <= i < v.rules_on(id).len() && asks_for(#[trigger] v.rules_on(id)[i], p.keys.push(key))
}

/// What a keystroke makes of an open buffer.
pub open spec fn extended(
    p: PendingView,
    v: IndexView,
    registry: Seq<ActionSpec>,
    path: SurfacePath,
    probes: ProbeList,
) -> (PendingView, StepView) {
    let dead = (PendingView::idle(), StepView::DeadPrefix(p.surface->0));
    if p.keys.len() >= MAX_KEY_SEQUENCE_LEN {
        dead
    } else {
        match first_continued(p, v, registry, probes.scoped(false)) {
            Some(found) => found,
            None => match resolve::guess_of(probes) {
                Some(key) => if !path.anchor_refuses_positional && guess_continues(p, v, key) {
                    match continued(p, v, registry, key) {
                        Some(found) => found,
                        None => dead,
                    }
                } else {
                    dead
                },
                None => dead,
            },
        }
    }
}

/// The buffer, dropped where its surface is no longer on the path.
pub open spec fn kept(p: PendingView, path: SurfacePath) -> PendingView {
    match p.surface {
        Some(surface) => if surface::on_path(path.ids@, surface@) {
            p
        } else {
            PendingView::idle()
        },
        None => p,
    }
}

/// What one keystroke makes of the buffer.
pub open spec fn stepped(
    p: PendingView,
    v: IndexView,
    registry: Seq<ActionSpec>,
    path: SurfacePath,
    probes: ProbeList,
    is_echo: bool,
) -> (PendingView, StepView) {
    let q = kept(p, path);
    if q.surface is Some {
        if is_echo {
            (q, StepView::Echo)
        } else {
            extended(q, v, registry, path, probes)
        }
    } else if is_echo {
        (q, StepView::Passthrough)
    } else {
        match opening(v, path, probes) {
            Some((surface, key)) => (
                PendingView { keys: seq![key], surface: Some(surface), caps: path.caps },
                StepView::Buffered,
            ),
            None => (q, StepView::Passthrough),
        }
    }
}

/// What the buffer comes to when its time is up: the rule at exactly what is
/// buffered, if there is one that may run.
pub open spec fn at_timeout(p: PendingView, v: IndexView, registry: Seq<ActionSpec>) -> Option<
    (CandidateView, KeyEvent),
> {
    match p.surface {
        None => None,
        Some(surface) => {
            let entry = match v.lookup(surface@, p.keys) {
                LookupView::Prefix { exact } => exact,
                LookupView::ExactOnly(entry) => Some(entry),
                LookupView::NoMatch => None,
            };
            match entry {
                Some(entry) => if p.keys.len() == 0 {
                    None
                } else {
                    match resolve::hit_of(v, registry, p.caps, surface, entry) {
                        HitView::Run(c) => Some((c, p.keys.last())),
                        _ => None,
                    }
                },
                None => None,
            }
        },
    }
}

// ── The buffer ────────────────────────────────────────────────────────

impl Default for Pending {
    /// No buffer is open.
    fn default() -> (r: Pending)
        ensures
            r@ == PendingView::idle(),
    {
        let r = Pending { keys: Vec::new(), surface: None, caps: Caps::empty() };
        assert(r@ =~= PendingView::idle());
        r
    }
}

impl Pending {
    /// Whether a sequence is in flight.
    pub fn is_active(&self) -> (r: bool)
        ensures
            r == (self@.surface is Some),
    {
        self.surface.is_some()
    }

    /// The keys buffered so far.
    pub fn keys(&self) -> (r: &[KeyEvent])
        ensures
            r@ == self@.keys,
    {
        self.keys.as_slice()
    }

    /// The surface the buffer is anchored to, if one is open.
    pub fn surface(&self) -> (r: Option<SurfaceId>)
        ensures
            r == self@.surface,
    {
        self.surface
    }

    /// Drop the buffer.
    pub fn clear(&mut self)
        ensures
            final(self)@ == PendingView::idle(),
    {
        self.keys.clear();
        self.surface = None;
        self.caps = Caps::empty();
        assert(self@ =~= PendingView::idle());
    }

    /// Feed one keystroke through the sequence layer.
    ///
    /// The repeat of a held key neither opens a buffer nor extends one.
    pub fn step<F: Fn(KeyEvent) -> bool>(
        &mut self,
        input: &ResolveInput<'_, F>,
        is_echo: bool,
    ) -> (r: SeqStep)
        requires
            old(self)@.wf(),
            input.wf(),
        ensures
            ({
                let want = stepped(
                    old(self)@,
                    input.index@,
                    input.registry@,
                    *input.path,
                    input.probes@,
                    is_echo,
                );
                final(self)@ == want.0 && says(r, want.1)
            }),
            final(self)@.wf(),
    {
        if let Some(surface) = self.surface {
            // The focus owner moved without the transport noticing.
            if !contains_id(&input.path.ids, surface) {
                self.clear();
            }
        }
        if self.is_active() {
            if is_echo {
                return SeqStep::Echo;
            }
            return self.extend(input);
        }
        if is_echo {
            // Otherwise a key that is held down would open a buffer anew
            // whenever the timer closed it.
            return SeqStep::Passthrough;
        }
        self.open(input)
    }

    /// Open a buffer where the key is reserved on the path.
    fn open<F: Fn(KeyEvent) -> bool>(&mut self, input: &ResolveInput<'_, F>) -> (r: SeqStep)
        requires
            old(self)@ == PendingView::idle(),
            input.wf(),
        ensures
            match opening(input.index@, *input.path, input.probes@) {
                Some((surface, key)) => {
                    &&& final(self)@ == (PendingView {
                        keys: seq![key],
                        surface: Some(surface),
                        caps: input.path.caps,
                    })
                    &&& r is Buffered
                },
                None => final(self)@ == old(self)@ && r is Passthrough,
            },
    {
        let n: usize = walk_scope(input);
        let ghost scope = input.path.ids@.take(n as int);
        // What was typed, before any guess.
        let typed = input.probes.iter_typed();
        let ghost all = typed@;
        let mut i: usize = 0;
        assert(all.skip(0) =~= all);
        while i < typed.len()
            invariant
                i <= typed@.len(),
                all == typed@,
                all == input.probes@.scoped(false),
                self@ == PendingView::idle(),
                self@ == old(self)@,
                input.wf(),
                n == resolve::reach(*input.path, input.probes@),
                n <= input.path.ids@.len(),
                scope == input.path.ids@.take(n as int),
                first_typed(input.index@, scope, all) == first_typed(
                    input.index@,
                    scope,
                    all.skip(i as int),
                ),
            decreases typed@.len() - i,
        {
            assert(all.skip(i as int).skip(1) =~= all.skip(i + 1));
            let key: KeyEvent = typed[i];
            if let Some(surface) = first_reserving(input, n, key, false) {
                self.start(surface, key, input.path.caps);
                return SeqStep::Buffered;
            }
            i = i + 1;
        }
        if input.path.anchor_refuses_positional {
            return SeqStep::Passthrough;
        }
        if let Some(key) = input.probes.positional() {
            if let Some(surface) = first_reserving(input, n, key, true) {
                self.start(surface, key, input.path.caps);
                return SeqStep::Buffered;
            }
        }
        SeqStep::Passthrough
    }

    /// Open the buffer with one key.
    fn start(&mut self, surface: SurfaceId, key: KeyEvent, caps: Caps)
        requires
            old(self)@ == PendingView::idle(),
        ensures
            final(self)@ == (PendingView { keys: seq![key], surface: Some(surface), caps }),
    {
        self.keys.push(key);
        self.surface = Some(surface);
        self.caps = caps;
        assert(self@.keys =~= seq![key]);
    }

    /// Extend an open buffer.
    fn extend<F: Fn(KeyEvent) -> bool>(&mut self, input: &ResolveInput<'_, F>) -> (r: SeqStep)
        requires
            old(self)@.wf(),
            old(self)@.surface is Some,
            input.wf(),
        ensures
            ({
                let want = extended(
                    old(self)@,
                    input.index@,
                    input.registry@,
                    *input.path,
                    input.probes@,
                );
                final(self)@ == want.0 && says(r, want.1)
            }),
            final(self)@.wf(),
    {
        let ghost p = self@;
        let surface: SurfaceId = match self.surface {
            Some(surface) => surface,
            None => {
                return SeqStep::Passthrough;
            },
        };
        if self.keys.len() >= MAX_KEY_SEQUENCE_LEN {
            self.clear();
            return SeqStep::DeadPrefix(surface);
        }
        let typed = input.probes.iter_typed();
        let ghost all = typed@;
        let mut i: usize = 0;
        assert(all.skip(0) =~= all);
        while i < typed.len()
            invariant
                i <= typed@.len(),
                all == typed@,
                all == input.probes@.scoped(false),
                self@ == p,
                p == old(self)@,
                p.wf(),
                p.surface == Some(surface),
                p.keys.len() < MAX_KEY_SEQUENCE_LEN,
                input.wf(),
                first_continued(p, input.index@, input.registry@, all) == first_continued(
                    p,
                    input.index@,
                    input.registry@,
                    all.skip(i as int),
                ),
            decreases typed@.len() - i,
        {
            assert(all.skip(i as int).skip(1) =~= all.skip(i + 1));
            if let Some(step) = self.try_continue(input, surface, typed[i]) {
                return step;
            }
            i = i + 1;
        }
        if !input.path.anchor_refuses_positional {
            if let Some(key) = input.probes.positional() {
                if self.guess_is_asked_for(input.index, surface, key) {
                    if let Some(step) = self.try_continue(input, surface, key) {
                        return step;
                    }
                }
            }
        }
        self.clear();
        SeqStep::DeadPrefix(surface)
    }

    /// Whether the rule that a positional guess would lead to asks for it.
    fn guess_is_asked_for(&self, index: &BindingIndex, surface: SurfaceId, key: KeyEvent) -> (r:
        bool)
        requires
            index.wf(),
            self@.surface == Some(surface),
        ensures
            r == guess_continues(self@, index@, key),
    {
        if !index.has_physical_rule(surface) {
            return false;
        }
        let mut next = copy_keys(self.keys.as_slice());
        next.push(key);
        let ghost keys = self@.keys.push(key);
        assert(next@ =~= keys);
        let rules = index.rules_on(surface);
        let ghost views = index@.rules_on(surface@);
        let mut i: usize = 0;
        while i < rules.len()
            invariant
                i <= rules@.len(),
                views == bind::rule_views(rules@),
                views == index@.rules_on(surface@),
                next@ == keys,
                keys == self@.keys.push(key),
                self@.surface == Some(surface),
                index@.physical_on(surface@),
                forall|j: int| 0 <= j < i ==> !asks_for(#[trigger] views[j], keys),
            decreases rules@.len() - i,
        {
            assert(views[i as int] == rules@[i as int]@);
            if rules[i].physical && starts_with(rules[i].lhs.as_slice(), next.as_slice()) {
                proof {
                    let id = self@.surface->0@;
                    assert(index@.physical_on(id));
                    assert(asks_for(index@.rules_on(id)[i as int], self@.keys.push(key)));
                }
                return true;
            }
            i = i + 1;
        }
        false
    }

    /// Push a key onto the buffer and read the table's answer, taking it back
    /// where the sequence does not continue that way.
    fn try_continue<F: Fn(KeyEvent) -> bool>(
        &mut self,
        input: &ResolveInput<'_, F>,
        surface: SurfaceId,
        key: KeyEvent,
    ) -> (r: Option<SeqStep>)
        requires
            old(self)@.wf(),
            old(self)@.surface == Some(surface),
            old(self)@.keys.len() < MAX_KEY_SEQUENCE_LEN,
            input.wf(),
        ensures
            match (r, continued(old(self)@, input.index@, input.registry@, key)) {
                (Some(step), Some((after, want))) => final(self)@ == after && says(step, want),
                (None, None) => final(self)@ == old(self)@,
                _ => false,
            },
            final(self)@.wf(),
    {
        let ghost p = self@;
        self.keys.push(key);
        match input.index.lookup(surface, self.keys.as_slice()) {
            TrieLookup::ExactOnly(entry) => {
                let hit = hit_from(input.index, input.registry, self.caps, surface, entry);
                self.clear();
                match hit {
                    Hit::Run(candidate) => {
                        let mut candidates: Vec<Candidate> = Vec::new();
                        candidates.push(candidate);
                        assert(resolve::candidate_views(candidates@) =~= seq![candidate@]);
                        Some(SeqStep::Run(candidates, key))
                    },
                    _ => Some(SeqStep::DeadPrefix(surface)),
                }
            },
            TrieLookup::Prefix { .. } => Some(SeqStep::Buffered),
            TrieLookup::NoMatch => {
                let _ = self.keys.pop();
                assert(self@.keys =~= p.keys);
                None
            },
        }
    }

    /// The timer fired: resolve whatever is buffered, then clear.
    ///
    /// What does not resolve is dropped: a consumed key cannot be put back.
    pub fn on_timeout(&mut self, index: &BindingIndex, registry: &ActionRegistry) -> (r: Option<
        (Vec<Candidate>, KeyEvent),
    >)
        requires
            index.wf(),
        ensures
            final(self)@ == PendingView::idle(),
            match (r, at_timeout(old(self)@, index@, registry@)) {
                (Some((candidates, key)), Some((c, at))) => resolve::candidate_views(candidates@)
                    == seq![c] && key == at,
                (None, None) => true,
                _ => false,
            },
    {
        let resolved = self.resolve_at_timeout(index, registry);
        self.clear();
        resolved
    }

    fn resolve_at_timeout(&self, index: &BindingIndex, registry: &ActionRegistry) -> (r: Option<
        (Vec<Candidate>, KeyEvent),
    >)
        requires
            index.wf(),
        ensures
            match (r, at_timeout(self@, index@, registry@)) {
                (Some((candidates, key)), Some((c, at))) => resolve::candidate_views(candidates@)
                    == seq![c] && key == at,
                (None, None) => true,
                _ => false,
            },
    {
        let surface: SurfaceId = match self.surface {
            Some(surface) => surface,
            None => {
                return None;
            },
        };
        if self.keys.len() == 0 {
            return None;
        }
        let last: KeyEvent = self.keys[self.keys.len() - 1];
        let entry = match index.lookup(surface, self.keys.as_slice()) {
            TrieLookup::Prefix { exact: Some(entry) } => entry,
            TrieLookup::ExactOnly(entry) => entry,
            _ => {
                return None;
            },
        };
        match hit_from(index, registry, self.caps, surface, entry) {
            Hit::Run(candidate) => {
                let mut candidates: Vec<Candidate> = Vec::new();
                candidates.push(candidate);
                assert(resolve::candidate_views(candidates@) =~= seq![candidate@]);
                Some((candidates, last))
            },
            _ => None,
        }
    }
}

/// Whether a path holds a surface.
fn contains_id(ids: &Vec<SurfaceId>, id: SurfaceId) -> (r: bool)
    ensures
        r == surface::on_path(ids@, id@),
{
    let mut i: usize = 0;
    while i < ids.len()
        invariant
            i <= ids@.len(),
            forall|j: int| 0 <= j < i ==> (#[trigger] ids@[j])@ != id@,
        decreases ids@.len() - i,
    {
        if str_eq(ids[i], id) {
            return true;
        }
        i = i + 1;
    }
    false
}

/// The first surface within reach that a key opens a buffer on.
fn first_reserving<F: Fn(KeyEvent) -> bool>(
    input: &ResolveInput<'_, F>,
    n: usize,
    key: KeyEvent,
    guess: bool,
) -> (r: Option<SurfaceId>)
    requires
        input.wf(),
        n <= input.path.ids@.len(),
    ensures
        r == first_open(input.index@, input.path.ids@.take(n as int), key, guess),
{
    let ghost scope = input.path.ids@.take(n as int);
    let mut i: usize = 0;
    assert(scope.skip(0) =~= scope);
    while i < n
        invariant
            i <= n <= input.path.ids@.len(),
            input.wf(),
            scope == input.path.ids@.take(n as int),
            first_open(input.index@, scope, key, guess) == first_open(
                input.index@,
                scope.skip(i as int),
                key,
                guess,
            ),
        decreases n - i,
    {
        assert(scope.skip(i as int).skip(1) =~= scope.skip(i + 1));
        let surface: SurfaceId = input.path.ids[i];
        assert(scope[i as int] == surface);
        let allowed = !guess || guess_is_allowed(input.index, surface, key);
        if allowed && try_reserve(input.index, surface, key) {
            return Some(surface);
        }
        i = i + 1;
    }
    None
}

/// Whether a sequence that starts with a guessed key asks for the guess.
fn guess_is_allowed(index: &BindingIndex, surface: SurfaceId, key: KeyEvent) -> (r: bool)
    requires
        index.wf(),
    ensures
        r == (index@.physical_on(surface@) && exists|i: int|
            0 <= i < sequences(index@, surface, key).len() && (#[trigger] sequences(
                index@,
                surface,
                key,
            )[i]).physical),
{
    if !index.has_physical_rule(surface) {
        return false;
    }
    let rules = index.sequences_from(surface, key);
    let ghost views = sequences(index@, surface, key);
    let mut i: usize = 0;
    while i < rules.len()
        invariant
            i <= rules@.len(),
            views == bind::rule_views(rules@),
            views == sequences(index@, surface, key),
            index@.physical_on(surface@),
            forall|j: int| 0 <= j < i ==> !(#[trigger] views[j]).physical,
        decreases rules@.len() - i,
    {
        assert(views[i as int] == rules@[i as int]@);
        if rules[i].physical {
            return true;
        }
        i = i + 1;
    }
    false
}

/// Whether a key is a live reservation on a surface.
///
/// Both facts are asked: the reservation is the one that is printed, and an
/// entry that does not wait makes the shorter sequence run at once.
fn try_reserve(index: &BindingIndex, surface: SurfaceId, key: KeyEvent) -> (r: bool)
    requires
        index.wf(),
    ensures
        r == opens(index@, surface, key),
{
    if !index.is_reserved(surface, key) {
        return false;
    }
    let one: [KeyEvent; 1] = [key];
    assert(one@ =~= seq![key]);
    matches!(index.lookup(surface, &one), TrieLookup::Prefix { .. })
}

/// Whether `keys` starts with `prefix`.
fn starts_with(keys: &[KeyEvent], prefix: &[KeyEvent]) -> (r: bool)
    ensures
        r == (prefix@.len() <= keys@.len() && keys@.take(prefix@.len() as int) == prefix@),
{
    if keys.len() < prefix.len() {
        return false;
    }
    let mut i: usize = 0;
    while i < prefix.len()
        invariant
            i <= prefix@.len() <= keys@.len(),
            forall|j: int| 0 <= j < i ==> keys@[j] == prefix@[j],
        decreases prefix@.len() - i,
    {
        if keys[i] != prefix[i] {
            assert(keys@.take(prefix@.len() as int)[i as int] != prefix@[i as int]);
            return false;
        }
        i = i + 1;
    }
    assert(keys@.take(prefix@.len() as int) =~= prefix@);
    true
}

/// The deepest surface on `path` that reserves any bare key, if there is one.
///
/// Only a control on such a path has its own type-to-search turned off.
pub fn path_reserves(index: &BindingIndex, path: &SurfacePath) -> (r: Option<SurfaceId>)
    ensures
        match r {
            Some(surface) => exists|i: int|
                {
                    &&& 0 <= i < path.ids@.len()
                    &&& (#[trigger] path.ids@[i]) == surface
                    &&& index@.reserves_any(surface@)
                    &&& forall|j: int|
                        0 <= j < i ==> !index@.reserves_any((#[trigger] path.ids@[j])@)
                },
            None => forall|j: int|
                0 <= j < path.ids@.len() ==> !index@.reserves_any((#[trigger] path.ids@[j])@),
        },
{
    let mut i: usize = 0;
    while i < path.ids.len()
        invariant
            i <= path.ids@.len(),
            forall|j: int| 0 <= j < i ==> !index@.reserves_any((#[trigger] path.ids@[j])@),
        decreases path.ids@.len() - i,
    {
        let surface: SurfaceId = path.ids[i];
        if index.reserves_any(surface) {
            assert(path.ids@[i as int] == surface);
            return Some(surface);
        }
        i = i + 1;
    }
    None
}

/// The range of the waiting time, and what it is where nothing says.
#[derive(Debug, Clone, Copy, PartialEq, Eq, Structural)]
pub struct TimeoutRange {
    pub default: i64,
    pub min: i64,
    pub max: i64,
}

/// The waiting time: the engine's, or the user's setting, or the default, and
/// within the range in any case.
pub open spec fn waiting_time(
    from_engine: Option<u32>,
    from_settings: Option<i64>,
    range: TimeoutRange,
) -> i64 {
    let wanted = match (from_engine, from_settings) {
        (Some(ms), _) => ms as i64,
        (None, Some(ms)) => ms,
        (None, None) => range.default,
    };
    if wanted < range.min {
        range.min
    } else if wanted > range.max {
        range.max
    } else {
        wanted
    }
}

/// The waiting time: the engine's, or the user's setting, or the default, and
/// within the range in any case.
pub fn timeoutlen_ms(
    from_engine: Option<u32>,
    from_settings: Option<i64>,
    range: TimeoutRange,
) -> (r: i64)
    requires
        range.min <= range.max,
    ensures
        r == waiting_time(from_engine, from_settings, range),
        range.min <= r <= range.max,
        ({
            let wanted = match (from_engine, from_settings) {
                (Some(ms), _) => ms as i64,
                (None, Some(ms)) => ms,
                (None, None) => range.default,
            };
            r == (if wanted < range.min {
                range.min
            } else if wanted > range.max {
                range.max
            } else {
                wanted
            })
        }),
{
    let wanted: i64 = match from_engine {
        Some(ms) => ms as i64,
        None => match from_settings {
            Some(ms) => ms,
            None => range.default,
        },
    };
    if wanted < range.min {
        range.min
    } else if wanted > range.max {
        range.max
    } else {
        wanted
    }
}

// ── Laws ──────────────────────────────────────────────────────────────

/// The repeat of a held key never opens a buffer, never extends one, and never
/// runs anything.
pub proof fn echoes_change_nothing(
    p: PendingView,
    v: IndexView,
    registry: Seq<ActionSpec>,
    path: SurfacePath,
    probes: ProbeList,
)
    ensures
        ({
            let (after, step) = stepped(p, v, registry, path, probes, true);
            &&& after == kept(p, path)
            &&& step is Echo || step is Passthrough
            &&& (step is Echo) == (after.surface is Some)
        }),
{
}

/// A keystroke that passes through leaves no buffer open, nor does one that
/// runs something or finds no continuation: a buffer is open after a step
/// exactly where the key was an echo or was buffered, and an echo leaves the
/// buffer as it was.
pub proof fn passing_through_leaves_no_state(
    p: PendingView,
    v: IndexView,
    registry: Seq<ActionSpec>,
    path: SurfacePath,
    probes: ProbeList,
    is_echo: bool,
)
    requires
        p.wf(),
    ensures
        ({
            let (after, step) = stepped(p, v, registry, path, probes, is_echo);
            &&& step is Passthrough ==> after == PendingView::idle()
            &&& step is Run || step is DeadPrefix ==> after == PendingView::idle()
            &&& after.surface is Some <==> step is Echo || step is Buffered
            &&& step is Echo ==> after == p && is_echo
        }),
{
    let q = kept(p, path);
    if q.surface is Some && !is_echo {
        extending_buffers_or_clears(q, v, registry, probes.scoped(false));
    }
}

proof fn extending_buffers_or_clears(
    p: PendingView,
    v: IndexView,
    registry: Seq<ActionSpec>,
    keys: Seq<KeyEvent>,
)
    requires
        p.surface is Some,
    ensures
        first_continued(p, v, registry, keys) matches Some((after, step)) ==> {
            &&& !(step is Passthrough) && !(step is Echo)
            &&& step is Buffered ==> after.surface == p.surface
            &&& !(step is Buffered) ==> after == PendingView::idle()
        },
    decreases keys.len(),
{
    if keys.len() > 0 {
        extending_buffers_or_clears(p, v, registry, keys.skip(1));
    }
}

/// Nothing is consumed on speculation: a buffer opens only on a surface of the
/// path that reserves the key, where a live sequence starts with it.
pub proof fn buffers_open_only_on_reservations(
    v: IndexView,
    path: SurfacePath,
    probes: ProbeList,
)
    requires
        probes.valid(),
    ensures
        opening(v, path, probes) matches Some((surface, key)) ==> {
            &&& path.ids@.contains(surface)
            &&& probes.keys.contains(key)
            &&& v.reserves(surface@, key)
            &&& v.lookup(surface@, seq![key]) is Prefix
            &&& path.anchor_refuses_positional ==> probes.scoped(false).contains(key)
        },
{
    let scope = path.ids@.take(resolve::reach(path, probes));
    let typed = probes.scoped(false);
    typed_openings(v, scope, typed);
    if let Some((surface, key)) = first_typed(v, scope, typed) {
        let j = choose|j: int| 0 <= j < typed.len() && typed[j] == key;
        assert(probes.keys[j] == key);
        let i = choose|i: int| 0 <= i < scope.len() && scope[i] == surface;
        assert(path.ids@[i] == surface);
    } else if let Some(key) = resolve::guess_of(probes) {
        assert(probes.keys.contains(key));
        surface_openings(v, scope, key, true);
        if let Some(surface) = first_open(v, scope, key, true) {
            let i = choose|i: int| 0 <= i < scope.len() && scope[i] == surface;
            assert(path.ids@[i] == surface);
        }
    }
}

proof fn surface_openings(v: IndexView, scope: Seq<SurfaceId>, key: KeyEvent, guess: bool)
    ensures
        first_open(v, scope, key, guess) matches Some(surface) ==> scope.contains(surface)
            && opens(v, surface, key),
    decreases scope.len(),
{
    if scope.len() > 0 {
        let rest = scope.skip(1);
        surface_openings(v, rest, key, guess);
        assert(scope.contains(scope[0]));
        if let Some(surface) = first_open(v, rest, key, guess) {
            let i = choose|i: int| 0 <= i < rest.len() && rest[i] == surface;
            assert(scope[i + 1] == surface);
        }
    }
}

proof fn typed_openings(v: IndexView, scope: Seq<SurfaceId>, typed: Seq<KeyEvent>)
    ensures
        first_typed(v, scope, typed) matches Some((surface, key)) ==> scope.contains(surface)
            && typed.contains(key) && opens(v, surface, key),
    decreases typed.len(),
{
    if typed.len() > 0 {
        let rest = typed.skip(1);
        typed_openings(v, scope, rest);
        surface_openings(v, scope, typed[0], false);
        assert(typed.contains(typed[0]));
        if let Some((surface, key)) = first_typed(v, scope, rest) {
            let i = choose|i: int| 0 <= i < rest.len() && rest[i] == key;
            assert(typed[i + 1] == key);
        }
    }
}

/// Where nothing on the path reserves any spelling of a keystroke, it creates
/// no state and passes through.
pub proof fn unreserved_keys_pass_through(
    v: IndexView,
    registry: Seq<ActionSpec>,
    path: SurfacePath,
    probes: ProbeList,
)
    requires
        probes.valid(),
        forall|surface: SurfaceId, key: KeyEvent|
            path.ids@.contains(surface) && probes.keys.contains(key) ==> !#[trigger] v.reserves(
                surface@,
                key,
            ),
    ensures
        stepped(PendingView::idle(), v, registry, path, probes, false) == (
            PendingView::idle(),
            StepView::Passthrough,
        ),
{
    buffers_open_only_on_reservations(v, path, probes);
}

/// No buffer ever opens while the script editor has the focus: every rule
/// that configuration can install there has a single key.
pub proof fn no_buffer_opens_in_the_editor(
    v: IndexView,
    path: SurfacePath,
    probes: ProbeList,
    editor: int,
)
    requires
        bind_laws::index_wf(v),
        bind_laws::all_sound(v),
        probes.valid(),
        0 <= editor < v.forest.len(),
        text::begins_with(v.forest[editor].id@, "editor."@),
        path.ids@ == surface::path_of(v.forest, v.forest[editor].id),
    ensures
        opening(v, path, probes) is None,
{
    buffers_open_only_on_reservations(v, path, probes);
    if let Some((surface, key)) = opening(v, path, probes) {
        let i = choose|i: int| 0 <= i < path.ids@.len() && path.ids@[i] == surface;
        assert(path.ids@[i]@ == surface@);
        bind_laws::surfaces_of_the_editor_reserve_nothing(v, surface@, key);
    }
}

} // verus!
