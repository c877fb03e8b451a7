//! The resolver: from one keystroke and one surface path to what runs.
//!
//! The spellings of a keystroke are tried in priority order, each on every
//! surface within reach, from the deepest to the root: what was typed first,
//! and the positional guess last, where only a rule that asks for the guess
//! answers it. The first exact hit that survives the capability gate wins. A
//! hit that the control cannot host is skipped as if nothing were bound; a
//! native target ends the walk; and what becomes of the keystroke is decided
//! from the winning rule's policy, never by the verb.

use vstd::prelude::*;
use compact_str::CompactString;
use crate::action::{ActionId, ActionRegistry, ActionSpec, Params, RuleTarget, TargetView};
use crate::bind::{BindingIndex, Consumption, IndexView, Repeat};
use crate::caps::Caps;
use crate::key::KeyEvent;
use crate::keys::{ProbeList, Probes};
use crate::outcome::Outcome;
use crate::surface::{Seal, SurfaceId, SurfacePath};
use crate::text;
use crate::text::{as_text, str_eq};
use crate::trie::{EntryView, LookupView, MappingEntry, TrieLookup};

verus! {

/// What the transport does with the keystroke.
#[derive(Debug, Clone, Copy, PartialEq, Eq, Structural)]
pub enum Disposition {
    /// The keystroke is used up.
    Consume,
    /// The editor's own handling proceeds.
    Ignore,
}

/// Where a matched rule sends the keystroke.
#[derive(Debug, Clone)]
pub enum CandidateTarget {
    /// One of the plugin's own registered verbs.
    Action(ActionId, ActionSpec),
    /// One of the editor's own registered shortcuts, by path.
    Shortcut(CompactString),
}

/// What a [`CandidateTarget`] says.
pub enum CandidateTargetView {
    Action(ActionId, ActionSpec),
    Shortcut(Seq<char>),
}

impl PartialEq for CandidateTarget {
    /// A verb is the same verb by its id and its name, a shortcut by its path.
    fn eq(&self, other: &CandidateTarget) -> (r: bool) {
        match (self, other) {
            (CandidateTarget::Action(a, x), CandidateTarget::Action(b, y)) => a.0 == b.0 && str_eq(
                x.id,
                y.id,
            ),
            (CandidateTarget::Shortcut(a), CandidateTarget::Shortcut(b)) => str_eq(
                as_text(a),
                as_text(b),
            ),
            _ => false,
        }
    }
}

impl vstd::std_specs::cmp::PartialEqSpecImpl for CandidateTarget {
    open spec fn obeys_eq_spec() -> bool {
        true
    }

    open spec fn eq_spec(&self, other: &CandidateTarget) -> bool {
        match (*self, *other) {
            (CandidateTarget::Action(a, x), CandidateTarget::Action(b, y)) => a == b && x.id@
                == y.id@,
            (CandidateTarget::Shortcut(a), CandidateTarget::Shortcut(b)) => text::compact_text(a)
                == text::compact_text(b),
            _ => false,
        }
    }
}

/// One thing the resolver decided could run, with the policy that governs it.
#[derive(Debug, Clone, PartialEq)]
pub struct Candidate {
    /// The surface that held the rule.
    pub surface: SurfaceId,
    pub target: CandidateTarget,
    pub params: Params,
    pub consume: Consumption,
    pub repeat: Repeat,
}

/// What a [`Candidate`] says.
#[verifier::ext_equal]
pub struct CandidateView {
    pub surface: SurfaceId,
    pub target: CandidateTargetView,
    pub params: Seq<(Seq<char>, i64)>,
    pub consume: Consumption,
    pub repeat: Repeat,
}

impl View for Candidate {
    type V = CandidateView;

    open spec fn view(&self) -> CandidateView {
        CandidateView {
            surface: self.surface,
            target: match self.target {
                CandidateTarget::Action(id, spec) => CandidateTargetView::Action(id, spec),
                CandidateTarget::Shortcut(path) => CandidateTargetView::Shortcut(
                    text::compact_text(path),
                ),
            },
            params: self.params@,
            consume: self.consume,
            repeat: self.repeat,
        }
    }
}

impl Candidate {
    /// The same candidate.
    pub fn copy(&self) -> (r: Candidate)
        ensures
            r@ == self@,
    {
        let target = match &self.target {
            CandidateTarget::Action(id, spec) => CandidateTarget::Action(*id, *spec),
            CandidateTarget::Shortcut(path) => CandidateTarget::Shortcut(path.clone()),
        };
        Candidate {
            surface: self.surface,
            target,
            params: self.params.copy(),
            consume: self.consume,
            repeat: self.repeat,
        }
    }
}

/// Why the walk produced nothing.
#[derive(Debug, Clone, Copy, PartialEq, Eq)]
pub enum Stop {
    /// The anchor surface is a barrier.
    Barrier,
    /// A sealed anchor kept a bare key.
    Sealed(SurfaceId),
    /// A rule on this surface hands the key back to the editor.
    Native(SurfaceId),
    /// The anchor yields to the engine, and the engine claims the key.
    Yielded(KeyEvent),
    /// The whole path was walked and nothing matched.
    Exhausted,
}

/// The resolver's verdict.
#[derive(Debug, Clone, PartialEq)]
pub enum Resolution {
    /// Nothing to run, and why.
    Nothing(Stop),
    /// Run these, deepest surface first, until one does not decline.
    Run {
        /// The probe that produced the match.
        matched: KeyEvent,
        candidates: Vec<Candidate>,
    },
}

/// What several candidates say.
pub open spec fn candidate_views(candidates: Seq<Candidate>) -> Seq<CandidateView> {
    candidates.map_values(|c: Candidate| c@)
}

/// Everything the resolver reads.
pub struct ResolveInput<'a, F: Fn(KeyEvent) -> bool> {
    pub probes: &'a Probes,
    pub path: &'a SurfacePath,
    pub index: &'a BindingIndex,
    pub registry: &'a ActionRegistry,
    /// Whether the engine claims a key.
    pub vim_claims: F,
}

impl<'a, F: Fn(KeyEvent) -> bool> ResolveInput<'a, F> {
    /// Everything that is read is sound.
    pub open spec fn wf(&self) -> bool {
        &&& self.probes.wf()
        &&& self.index.wf()
        &&& self.registry.wf()
    }

    /// The engine can be asked about the key that it is asked about.
    pub open spec fn can_ask(&self) -> bool {
        forall|key: KeyEvent| #[trigger]
            is_asked(self.index@, self.registry@, *self.path, self.probes@, key) ==> call_requires(
                self.vim_claims,
                (key,),
            )
    }
}

/// Whether the engine claims `key`: only a controller that is there can, and
/// it is asked.
pub fn engine_claims<C, F: Fn(&C, KeyEvent) -> bool>(
    controller: Option<&C>,
    key: KeyEvent,
    could_start_mapping: F,
) -> (r: bool)
    requires
        controller matches Some(c) ==> call_requires(could_start_mapping, (c, key)),
    ensures
        match controller {
            Some(c) => call_ensures(could_start_mapping, (c, key), r),
            None => !r,
        },
{
    match controller {
        Some(c) => could_start_mapping(c, key),
        None => false,
    }
}

// ── Hits ──────────────────────────────────────────────────────────────

/// What one exact hit on one surface yields.
#[derive(Debug, Clone, PartialEq)]
pub enum Hit {
    /// Run this.
    Run(Candidate),
    /// Hand the key back to the editor, and end the walk.
    Native,
    /// Gated out, or naming nothing live: as if nothing were bound.
    Miss,
}

/// What a [`Hit`] says.
pub enum HitView {
    Run(CandidateView),
    Native,
    Miss,
}

impl View for Hit {
    type V = HitView;

    open spec fn view(&self) -> HitView {
        match *self {
            Hit::Run(c) => HitView::Run(c@),
            Hit::Native => HitView::Native,
            Hit::Miss => HitView::Miss,
        }
    }
}

/// What an entry of a surface's table yields where the path offers `caps`.
pub open spec fn hit_of(
    v: IndexView,
    registry: Seq<ActionSpec>,
    caps: Caps,
    surface: SurfaceId,
    entry: EntryView,
) -> HitView {
    match v.rule_of(entry) {
        None => HitView::Miss,
        Some(rule) => match rule.target {
            TargetView::Native => HitView::Native,
            TargetView::Action(id) => if id.0 < registry.len() && caps.covers(
                registry[id.0 as int].requires,
            ) {
                HitView::Run(
                    CandidateView {
                        surface,
                        target: CandidateTargetView::Action(id, registry[id.0 as int]),
                        params: rule.params,
                        consume: rule.consume,
                        repeat: rule.repeat,
                    },
                )
            } else {
                HitView::Miss
            },
            TargetView::Shortcut(path) => HitView::Run(
                CandidateView {
                    surface,
                    target: CandidateTargetView::Shortcut(path),
                    params: rule.params,
                    consume: rule.consume,
                    repeat: rule.repeat,
                },
            ),
        },
    }
}

/// Turn one entry into a [`Hit`], applying the capability gate.
///
/// A shortcut has no declared requirement, therefore no gate.
pub fn hit_from(
    index: &BindingIndex,
    registry: &ActionRegistry,
    caps: Caps,
    surface: SurfaceId,
    entry: &MappingEntry,
) -> (r: Hit)
    ensures
        r@ == hit_of(index@, registry@, caps, surface, entry@),
{
    let rule = match index.rule_in(entry) {
        Some(rule) => rule,
        None => {
            return Hit::Miss;
        },
    };
    match &rule.target {
        RuleTarget::Native => Hit::Native,
        RuleTarget::Action(id) => match registry.get(*id) {
            Some(spec) => if caps.satisfies(spec.requires) {
                Hit::Run(
                    Candidate {
                        surface,
                        target: CandidateTarget::Action(*id, *spec),
                        params: rule.params.copy(),
                        consume: rule.consume,
                        repeat: rule.repeat,
                    },
                )
            } else {
                Hit::Miss
            },
            None => Hit::Miss,
        },
        RuleTarget::Shortcut(path) => Hit::Run(
            Candidate {
                surface,
                target: CandidateTarget::Shortcut(path.clone()),
                params: rule.params.copy(),
                consume: rule.consume,
                repeat: rule.repeat,
            },
        ),
    }
}

// ── The walk ──────────────────────────────────────────────────────────

/// How many surfaces of a path a keystroke can reach: only the anchor where it
/// is sealed and the key is bare.
pub open spec fn reach(path: SurfacePath, probes: ProbeList) -> int {
    if is_kept(path, probes) {
        1
    } else {
        path.ids@.len() as int
    }
}

/// Whether a sealed anchor keeps a keystroke to itself.
pub open spec fn is_kept(path: SurfacePath, probes: ProbeList) -> bool {
    path.seal == Seal::Sealed && !probes.commands() && path.ids@.len() > 0
}

/// The positional guess of a keystroke.
pub open spec fn guess_of(probes: ProbeList) -> Option<KeyEvent> {
    match probes.positional {
        Some(at) => Some(probes.keys[at as int]),
        None => None,
    }
}

/// Whether the rule that an entry names asks for the positional guess.
pub open spec fn asks_for_guess(v: IndexView, entry: EntryView) -> bool {
    v.rule_of(entry) matches Some(rule) && rule.physical
}

/// What one spelling yields on a surface. A guess hits only a rule that asks
/// for it.
pub open spec fn hit_at(
    v: IndexView,
    registry: Seq<ActionSpec>,
    caps: Caps,
    surface: SurfaceId,
    key: KeyEvent,
    guess: bool,
) -> HitView {
    match v.lookup(surface@, seq![key]) {
        LookupView::ExactOnly(entry) => if guess && !asks_for_guess(v, entry) {
            HitView::Miss
        } else {
            hit_of(v, registry, caps, surface, entry)
        },
        // A prefix that was not reserved is simply unbound at this length.
        _ => HitView::Miss,
    }
}

/// The first of some surfaces that a spelling hits on, with what it yields.
pub open spec fn first_hit(
    v: IndexView,
    registry: Seq<ActionSpec>,
    caps: Caps,
    scope: Seq<SurfaceId>,
    key: KeyEvent,
    guess: bool,
) -> Option<(HitView, SurfaceId)>
    decreases scope.len(),
{
    if scope.len() == 0 {
        None
    } else {
        let hit = hit_at(v, registry, caps, scope[0], key, guess);
        if hit is Miss {
            first_hit(v, registry, caps, scope.skip(1), key, guess)
        } else {
            Some((hit, scope[0]))
        }
    }
}

/// The first of some typed spellings that hits on any of some surfaces, with
/// where it does and what it yields: the priority of a spelling outranks depth.
pub open spec fn first_typed_hit(
    v: IndexView,
    registry: Seq<ActionSpec>,
    caps: Caps,
    scope: Seq<SurfaceId>,
    typed: Seq<KeyEvent>,
) -> Option<(HitView, SurfaceId, KeyEvent)>
    decreases typed.len(),
{
    if typed.len() == 0 {
        None
    } else {
        match first_hit(v, registry, caps, scope, typed[0], false) {
            Some((hit, surface)) => Some((hit, surface, typed[0])),
            None => first_typed_hit(v, registry, caps, scope, typed.skip(1)),
        }
    }
}

/// What decides a keystroke, where, and by which spelling: what was typed
/// before what is guessed.
pub open spec fn deciding(
    v: IndexView,
    registry: Seq<ActionSpec>,
    path: SurfacePath,
    probes: ProbeList,
) -> Option<(HitView, SurfaceId, KeyEvent)> {
    let scope = path.ids@.take(reach(path, probes));
    match first_typed_hit(v, registry, path.caps, scope, probes.scoped(false)) {
        Some(found) => Some(found),
        None => match guess_of(probes) {
            Some(key) => if path.anchor_refuses_positional {
                None
            } else {
                match first_hit(v, registry, path.caps, scope, key, true) {
                    Some((hit, surface)) => Some((hit, surface, key)),
                    None => None,
                }
            },
            None => None,
        },
    }
}

/// What a walk finds: a candidate with the spelling that matched, or why there
/// is none.
pub enum Walked {
    Found(CandidateView, KeyEvent),
    Stopped(Stop),
}

/// What the walk of a path finds for a keystroke.
pub open spec fn walk_of(
    v: IndexView,
    registry: Seq<ActionSpec>,
    path: SurfacePath,
    probes: ProbeList,
) -> Walked {
    match deciding(v, registry, path, probes) {
        Some((HitView::Run(c), _, key)) => Walked::Found(c, key),
        Some((_, surface, _)) => Walked::Stopped(Stop::Native(surface)),
        None => if is_kept(path, probes) {
            Walked::Stopped(Stop::Sealed(path.ids@[0]))
        } else {
            Walked::Stopped(Stop::Exhausted)
        },
    }
}

/// How many surfaces of the path a keystroke can reach.
pub fn walk_scope<F: Fn(KeyEvent) -> bool>(input: &ResolveInput<'_, F>) -> (r: usize)
    requires
        input.wf(),
    ensures
        r == reach(*input.path, input.probes@),
        r <= input.path.ids@.len(),
{
    let n: usize = input.path.ids.len();
    if n > 0 && input.path.seal == Seal::Sealed && !input.probes.has_command_modifier() {
        1
    } else {
        n
    }
}

/// Try one spelling on one surface.
fn hit_on<F: Fn(KeyEvent) -> bool>(
    input: &ResolveInput<'_, F>,
    surface: SurfaceId,
    key: KeyEvent,
    guess: bool,
) -> (r: Hit)
    requires
        input.wf(),
    ensures
        r@ == hit_at(input.index@, input.registry@, input.path.caps, surface, key, guess),
{
    let one: [KeyEvent; 1] = [key];
    assert(one@ =~= seq![key]);
    match input.index.lookup(surface, &one) {
        TrieLookup::ExactOnly(entry) => {
            if guess {
                let asked = match input.index.rule_in(entry) {
                    Some(rule) => rule.physical,
                    None => false,
                };
                if !asked {
                    return Hit::Miss;
                }
            }
            hit_from(input.index, input.registry, input.path.caps, surface, entry)
        },
        _ => Hit::Miss,
    }
}

/// Try one spelling on the first `n` surfaces of the path.
fn first_on<F: Fn(KeyEvent) -> bool>(
    input: &ResolveInput<'_, F>,
    n: usize,
    key: KeyEvent,
    guess: bool,
) -> (r: Option<(Hit, SurfaceId)>)
    requires
        input.wf(),
        n <= input.path.ids@.len(),
    ensures
        match (
            r,
            first_hit(
                input.index@,
                input.registry@,
                input.path.caps,
                input.path.ids@.take(n as int),
                key,
                guess,
            ),
        ) {
            (Some((hit, surface)), Some((want, at))) => hit@ == want && surface == at && !(
            hit is Miss),
            (None, None) => true,
            _ => false,
        },
{
    let ghost scope = input.path.ids@.take(n as int);
    let ghost want = first_hit(
        input.index@,
        input.registry@,
        input.path.caps,
        scope,
        key,
        guess,
    );
    let mut i: usize = 0;
    assert(scope.skip(0) =~= scope);
    while i < n
        invariant
            i <= n <= input.path.ids@.len(),
            input.wf(),
            scope == input.path.ids@.take(n as int),
            want == first_hit(
                input.index@,
                input.registry@,
                input.path.caps,
                scope,
                key,
                guess,
            ),
            want == first_hit(
                input.index@,
                input.registry@,
                input.path.caps,
                scope.skip(i as int),
                key,
                guess,
            ),
        decreases n - i,
    {
        assert(scope.skip(i as int).skip(1) =~= scope.skip(i + 1));
        let surface: SurfaceId = input.path.ids[i];
        assert(scope.skip(i as int)[0] == surface);
        let hit = hit_on(input, surface, key, guess);
        match hit {
            Hit::Miss => {},
            _ => {
                return Some((hit, surface));
            },
        }
        i = i + 1;
    }
    None
}

/// What decides the keystroke: each typed spelling over all the surfaces within
/// reach, then the guess.
fn decide<F: Fn(KeyEvent) -> bool>(input: &ResolveInput<'_, F>) -> (r: Option<
    (Hit, SurfaceId, KeyEvent),
>)
    requires
        input.wf(),
    ensures
        match (r, deciding(input.index@, input.registry@, *input.path, input.probes@)) {
            (Some((hit, surface, key)), Some((want, at, by))) => {
                &&& hit@ == want
                &&& surface == at
                &&& key == by
                &&& !(hit is Miss)
            },
            (None, None) => true,
            _ => false,
        },
{
    let n: usize = walk_scope(input);
    let ghost scope = input.path.ids@.take(n as int);
    let typed = input.probes.iter_typed();
    let ghost all = typed@;
    let mut i: usize = 0;
    assert(all.skip(0) =~= all);
    while i < typed.len()
        invariant
            i <= typed@.len(),
            all == typed@,
            all == input.probes@.scoped(false),
            input.wf(),
            n == reach(*input.path, input.probes@),
            n <= input.path.ids@.len(),
            scope == input.path.ids@.take(n as int),
            first_typed_hit(input.index@, input.registry@, input.path.caps, scope, all)
                == first_typed_hit(
                input.index@,
                input.registry@,
                input.path.caps,
                scope,
                all.skip(i as int),
            ),
        decreases typed@.len() - i,
    {
        assert(all.skip(i as int).skip(1) =~= all.skip(i + 1));
        let key: KeyEvent = typed[i];
        if let Some((hit, surface)) = first_on(input, n, key, false) {
            return Some((hit, surface, key));
        }
        i = i + 1;
    }
    if input.path.anchor_refuses_positional {
        return None;
    }
    match input.probes.positional() {
        Some(key) => match first_on(input, n, key, true) {
            Some((hit, surface)) => Some((hit, surface, key)),
            None => None,
        },
        None => None,
    }
}

/// The candidate walk.
fn walk_path<F: Fn(KeyEvent) -> bool>(input: &ResolveInput<'_, F>) -> (r: Result<
    (Candidate, KeyEvent),
    Stop,
>)
    requires
        input.wf(),
    ensures
        match (r, walk_of(input.index@, input.registry@, *input.path, input.probes@)) {
            (Ok((c, key)), Walked::Found(want, at)) => c@ == want && key == at,
            (Err(stop), Walked::Stopped(want)) => stop == want,
            _ => false,
        },
{
    match decide(input) {
        Some((Hit::Run(candidate), _, key)) => Ok((candidate, key)),
        Some((_, surface, _)) => Err(Stop::Native(surface)),
        None => if input.path.ids.len() > 0 && input.path.seal == Seal::Sealed
            && !input.probes.has_command_modifier() {
            Err(Stop::Sealed(input.path.ids[0]))
        } else {
            Err(Stop::Exhausted)
        },
    }
}

/// Whether the engine is asked about a key: there is no barrier, the walk found
/// a candidate by that key, and the anchor yields.
pub open spec fn is_asked(
    v: IndexView,
    registry: Seq<ActionSpec>,
    path: SurfacePath,
    probes: ProbeList,
    key: KeyEvent,
) -> bool {
    &&& path.seal != Seal::Barrier
    &&& path.anchor_yields_to_engine
    &&& walk_of(v, registry, path, probes) matches Walked::Found(_, matched) && matched == key
}

/// Whether a verdict says that one candidate runs.
pub open spec fn runs(r: Resolution, c: CandidateView, key: KeyEvent) -> bool {
    r matches Resolution::Run { matched, candidates } && matched == key && candidate_views(
        candidates@,
    ) == seq![c]
}

/// Whether a verdict is what a keystroke resolves to, where `claims` is how
/// the engine answers.
pub open spec fn is_verdict<F: Fn(KeyEvent) -> bool>(
    v: IndexView,
    registry: Seq<ActionSpec>,
    path: SurfacePath,
    probes: ProbeList,
    claims: F,
    r: Resolution,
) -> bool {
    if path.seal == Seal::Barrier {
        r == Resolution::Nothing(Stop::Barrier)
    } else {
        match walk_of(v, registry, path, probes) {
            Walked::Stopped(stop) => r == Resolution::Nothing(stop),
            Walked::Found(c, key) => if path.anchor_yields_to_engine {
                ||| call_ensures(claims, (key,), true) && r == Resolution::Nothing(
                    Stop::Yielded(key),
                )
                ||| call_ensures(claims, (key,), false) && runs(r, c, key)
            } else {
                runs(r, c, key)
            },
        }
    }
}

/// Resolve one keystroke against one surface path.
///
/// A barrier is a total stop. The engine is asked about the key that matched
/// and about no other, and only where the anchor yields to it.
pub fn resolve<F: Fn(KeyEvent) -> bool>(input: &ResolveInput<'_, F>) -> (r: Resolution)
    requires
        input.wf(),
        input.can_ask(),
    ensures
        is_verdict(
            input.index@,
            input.registry@,
            *input.path,
            input.probes@,
            input.vim_claims,
            r,
        ),
{
    if input.path.seal == Seal::Barrier {
        return Resolution::Nothing(Stop::Barrier);
    }
    let (candidate, matched): (Candidate, KeyEvent) = match walk_path(input) {
        Ok(hit) => hit,
        Err(stop) => {
            return Resolution::Nothing(stop);
        },
    };
    if input.path.anchor_yields_to_engine {
        assert(is_asked(input.index@, input.registry@, *input.path, input.probes@, matched));
        if (input.vim_claims)(matched) {
            return Resolution::Nothing(Stop::Yielded(matched));
        }
    }
    let mut candidates: Vec<Candidate> = Vec::new();
    candidates.push(candidate);
    assert(candidate_views(candidates@) =~= seq![candidate@]);
    Resolution::Run { matched, candidates }
}

// ── Disposal ──────────────────────────────────────────────────────────

/// What becomes of the keystroke, given what each candidate that runs answers.
///
/// `Some` once the answers given decide it. A suppressed repeat is consumed
/// without running; a void rule consumes whatever its verb answers; otherwise
/// the first candidate that does not decline consumes.
pub open spec fn disposed(
    candidates: Seq<Candidate>,
    is_echo: bool,
    answers: Seq<Outcome>,
    i: int,
) -> Option<Disposition>
    decreases candidates.len() - i,
{
    if i < 0 || i >= candidates.len() {
        Some(Disposition::Ignore)
    } else if is_echo && candidates[i].repeat == Repeat::Suppress {
        Some(Disposition::Consume)
    } else if i >= answers.len() {
        None
    } else if candidates[i].consume == Consumption::Void || answers[i].consumes() {
        Some(Disposition::Consume)
    } else {
        disposed(candidates, is_echo, answers, i + 1)
    }
}

/// Whether the candidates that answered are the ones that run: from the first
/// on, none of them a suppressed repeat, and none after the one that decides.
pub open spec fn all_asked(
    candidates: Seq<Candidate>,
    is_echo: bool,
    answers: Seq<Outcome>,
) -> bool {
    &&& answers.len() <= candidates.len()
    &&& forall|i: int|
        0 <= i < answers.len() ==> !(is_echo && (#[trigger] candidates[i]).repeat
            == Repeat::Suppress)
    &&& forall|i: int|
        0 <= i < answers.len() - 1 ==> (#[trigger] candidates[i]).consume != Consumption::Void
            && !answers[i].consumes()
}

/// The runs, with their answers.
pub type RunLog = Seq<(CandidateView, Outcome)>;

/// The first candidates, with what each of them answered.
pub open spec fn ran_on(candidates: Seq<Candidate>, answers: Seq<Outcome>) -> RunLog {
    Seq::new(answers.len(), |i: int| (candidates[i]@, answers[i]))
}

/// What runs a candidate.
pub trait Runner: Sized {
    /// The candidates that ran, in order, with their answers.
    spec fn ran(&self) -> RunLog;

    /// Run a candidate.
    fn run(&mut self, candidate: &Candidate) -> (r: Outcome)
        ensures
            final(self).ran() == old(self).ran().push((candidate@, r)),
    ;
}

/// Run the plan and compute consumption from it.
///
/// The candidates run in order, once each, up to the one that decides. A
/// suppressed repeat decides without running.
pub fn dispose<R: Runner>(candidates: &[Candidate], is_echo: bool, run: &mut R) -> (r: Disposition)
    ensures
        exists|answers: Seq<Outcome>|
            {
                &&& #[trigger] disposed(candidates@, is_echo, answers, 0) == Some(r)
                &&& all_asked(candidates@, is_echo, answers)
                &&& final(run).ran() == old(run).ran() + ran_on(candidates@, answers)
            },
{
    let ghost mut answers: Seq<Outcome> = Seq::empty();
    let mut i: usize = 0;
    assert(run.ran() =~= old(run).ran() + ran_on(candidates@, answers));
    while i < candidates.len()
        invariant
            i <= candidates@.len(),
            answers.len() == i,
            run.ran() == old(run).ran() + ran_on(candidates@, answers),
            forall|j: int|
                0 <= j < i ==> {
                    &&& !(is_echo && (#[trigger] candidates@[j]).repeat == Repeat::Suppress)
                    &&& candidates@[j].consume != Consumption::Void
                    &&& !answers[j].consumes()
                },
        decreases candidates@.len() - i,
    {
        let candidate = &candidates[i];
        if is_echo && candidate.repeat == Repeat::Suppress {
            proof {
                disposed_passes(candidates@, is_echo, answers, i as int);
            }
            return Disposition::Consume;
        }
        let ghost before = answers;
        let outcome = run.run(candidate);
        proof {
            answers = answers.push(outcome);
            assert(ran_on(candidates@, answers) =~= ran_on(candidates@, before).push(
                (candidate@, outcome),
            ));
            assert(run.ran() =~= old(run).ran() + ran_on(candidates@, answers));
        }
        if candidate.consume == Consumption::Void || outcome.is_consumed() {
            proof {
                disposed_passes(candidates@, is_echo, answers, i as int);
            }
            return Disposition::Consume;
        }
        i = i + 1;
    }
    proof {
        disposed_passes(candidates@, is_echo, answers, i as int);
    }
    Disposition::Ignore
}

/// Candidates that ran, declined and let go are passed over.
proof fn disposed_passes(
    candidates: Seq<Candidate>,
    is_echo: bool,
    answers: Seq<Outcome>,
    i: int,
)
    requires
        0 <= i <= candidates.len(),
        i <= answers.len(),
        forall|j: int|
            0 <= j < i ==> {
                &&& !(is_echo && (#[trigger] candidates[j]).repeat == Repeat::Suppress)
                &&& candidates[j].consume != Consumption::Void
                &&& !answers[j].consumes()
            },
    ensures
        disposed(candidates, is_echo, answers, 0) == disposed(candidates, is_echo, answers, i),
    decreases i,
{
    if i > 0 {
        disposed_passes(candidates, is_echo, answers, i - 1);
        assert(candidates[i - 1].consume != Consumption::Void);
    }
}

// ── Laws ──────────────────────────────────────────────────────────────

/// A void rule consumes whatever its verb answers, and a suppressed repeat is
/// consumed before anything runs.
pub proof fn void_and_suppressed_always_consume(
    candidates: Seq<Candidate>,
    is_echo: bool,
    answer: Outcome,
)
    requires
        candidates.len() > 0,
    ensures
        candidates[0].consume == Consumption::Void ==> disposed(
            candidates,
            is_echo,
            seq![answer],
            0,
        ) == Some(Disposition::Consume),
        is_echo && candidates[0].repeat == Repeat::Suppress ==> disposed(
            candidates,
            is_echo,
            Seq::empty(),
            0,
        ) == Some(Disposition::Consume),
{
}

/// A keystroke that every elastic candidate declines is not consumed.
pub proof fn declining_lets_the_key_through(
    candidates: Seq<Candidate>,
    is_echo: bool,
    answers: Seq<Outcome>,
)
    requires
        answers.len() == candidates.len(),
        forall|i: int|
            0 <= i < candidates.len() ==> (#[trigger] candidates[i]).consume
                == Consumption::Elastic && !(is_echo && candidates[i].repeat == Repeat::Suppress),
        forall|i: int| 0 <= i < answers.len() ==> (#[trigger] answers[i]) == Outcome::Declined,
    ensures
        disposed(candidates, is_echo, answers, 0) == Some(Disposition::Ignore),
{
    assert forall|j: int| 0 <= j < candidates.len() implies {
        &&& !(is_echo && (#[trigger] candidates[j]).repeat == Repeat::Suppress)
        &&& candidates[j].consume != Consumption::Void
        &&& !answers[j].consumes()
    } by {
        assert(answers[j] == Outcome::Declined);
    }
    disposed_passes(candidates, is_echo, answers, candidates.len() as int);
}

/// The first candidate that does more than decline uses the keystroke up: a
/// repeat that its rule suppresses, without an answer; a void one, whatever it
/// answers; any other by not declining. Where there is none, the keystroke goes
/// through.
pub proof fn the_first_that_does_not_decline_consumes(
    candidates: Seq<Candidate>,
    is_echo: bool,
    answers: Seq<Outcome>,
    i: int,
)
    requires
        0 <= i <= candidates.len(),
        i <= answers.len(),
        forall|j: int|
            0 <= j < i ==> {
                &&& !(is_echo && (#[trigger] candidates[j]).repeat == Repeat::Suppress)
                &&& candidates[j].consume == Consumption::Elastic
                &&& answers[j] == Outcome::Declined
            },
    ensures
        ({
            let r = disposed(candidates, is_echo, answers, 0);
            if i == candidates.len() {
                r == Some(Disposition::Ignore)
            } else if is_echo && candidates[i].repeat == Repeat::Suppress {
                r == Some(Disposition::Consume)
            } else if i == answers.len() {
                r is None
            } else {
                candidates[i].consume == Consumption::Void || answers[i] != Outcome::Declined
                    ==> r == Some(Disposition::Consume)
            }
        }),
{
    disposed_passes(candidates, is_echo, answers, i);
}

/// Whether a candidate's verb is registered and the capabilities satisfy it.
pub open spec fn is_allowed(c: CandidateView, registry: Seq<ActionSpec>, caps: Caps) -> bool {
    c.target matches CandidateTargetView::Action(id, spec) ==> id.0 < registry.len() && spec
        == registry[id.0 as int] && caps.covers(spec.requires)
}

/// Whether a candidate is held by a surface and its verb, where it is one, is
/// allowed.
pub open spec fn is_hosted(
    hit: HitView,
    surface: SurfaceId,
    registry: Seq<ActionSpec>,
    caps: Caps,
) -> bool {
    hit matches HitView::Run(c) ==> c.surface == surface && is_allowed(c, registry, caps)
}

/// What a spelling hits first is on one of the surfaces, and no surface before
/// that one answers it.
proof fn first_hit_is_first(
    v: IndexView,
    registry: Seq<ActionSpec>,
    caps: Caps,
    scope: Seq<SurfaceId>,
    key: KeyEvent,
    guess: bool,
)
    ensures
        match first_hit(v, registry, caps, scope, key, guess) {
            Some((hit, surface)) => exists|i: int|
                {
                    &&& 0 <= i < scope.len()
                    &&& (#[trigger] scope[i]) == surface
                    &&& hit == hit_at(v, registry, caps, surface, key, guess)
                    &&& !(hit is Miss)
                    &&& is_hosted(hit, surface, registry, caps)
                    &&& forall|j: int|
                        0 <= j < i ==> hit_at(
                            v,
                            registry,
                            caps,
                            #[trigger] scope[j],
                            key,
                            guess,
                        ) is Miss
                },
            None => forall|j: int|
                0 <= j < scope.len() ==> hit_at(
                    v,
                    registry,
                    caps,
                    #[trigger] scope[j],
                    key,
                    guess,
                ) is Miss,
        },
    decreases scope.len(),
{
    if scope.len() > 0 {
        let rest = scope.skip(1);
        first_hit_is_first(v, registry, caps, rest, key, guess);
        if hit_at(v, registry, caps, scope[0], key, guess) is Miss {
            assert forall|j: int| 0 < j < scope.len() implies scope[j] == rest[j - 1] by {}
            match first_hit(v, registry, caps, scope, key, guess) {
                Some((hit, surface)) => {
                    let i = choose|i: int|
                        {
                            &&& 0 <= i < rest.len()
                            &&& (#[trigger] rest[i]) == surface
                            &&& forall|j: int|
                                0 <= j < i ==> hit_at(
                                    v,
                                    registry,
                                    caps,
                                    #[trigger] rest[j],
                                    key,
                                    guess,
                                ) is Miss
                        };
                    assert(scope[i + 1] == surface);
                    assert forall|j: int| 0 <= j < i + 1 implies hit_at(
                        v,
                        registry,
                        caps,
                        #[trigger] scope[j],
                        key,
                        guess,
                    ) is Miss by {
                        if j > 0 {
                            assert(scope[j] == rest[j - 1]);
                        }
                    }
                },
                None => {
                    assert forall|j: int| 0 <= j < scope.len() implies hit_at(
                        v,
                        registry,
                        caps,
                        #[trigger] scope[j],
                        key,
                        guess,
                    ) is Miss by {
                        if j > 0 {
                            assert(scope[j] == rest[j - 1]);
                        }
                    }
                },
            }
        } else {
            let (_, surface) = first_hit(v, registry, caps, scope, key, guess)->0;
            assert(scope[0] == surface);
        }
    }
}

/// What the typed spellings hit first is hit by one of them, and there is
/// something where any of them hits anywhere.
proof fn typed_hits(
    v: IndexView,
    registry: Seq<ActionSpec>,
    caps: Caps,
    scope: Seq<SurfaceId>,
    typed: Seq<KeyEvent>,
)
    ensures
        match first_typed_hit(v, registry, caps, scope, typed) {
            Some((hit, surface, key)) => {
                &&& typed.contains(key)
                &&& scope.contains(surface)
                &&& !(hit is Miss)
                &&& hit == hit_at(v, registry, caps, surface, key, false)
                &&& is_hosted(hit, surface, registry, caps)
            },
            None => forall|i: int, j: int|
                0 <= i < typed.len() && 0 <= j < scope.len() ==> hit_at(
                    v,
                    registry,
                    caps,
                    #[trigger] scope[j],
                    #[trigger] typed[i],
                    false,
                ) is Miss,
        },
    decreases typed.len(),
{
    if typed.len() > 0 {
        let rest = typed.skip(1);
        typed_hits(v, registry, caps, scope, rest);
        first_hit_is_first(v, registry, caps, scope, typed[0], false);
        assert(typed.contains(typed[0]));
        match first_typed_hit(v, registry, caps, scope, typed) {
            Some((hit, surface, key)) => {
                if first_hit(v, registry, caps, scope, typed[0], false) is None {
                    let i = choose|i: int| 0 <= i < rest.len() && rest[i] == key;
                    assert(typed[i + 1] == key);
                }
            },
            None => {
                assert forall|i: int, j: int|
                    0 <= i < typed.len() && 0 <= j < scope.len() implies hit_at(
                    v,
                    registry,
                    caps,
                    #[trigger] scope[j],
                    #[trigger] typed[i],
                    false,
                ) is Miss by {
                    if i > 0 {
                        assert(typed[i] == rest[i - 1]);
                    }
                }
            },
        }
    }
}

/// What decides a keystroke is a hit of a key that was offered, on a surface of
/// the path.
pub proof fn what_decides_is_a_hit(
    v: IndexView,
    registry: Seq<ActionSpec>,
    path: SurfacePath,
    probes: ProbeList,
)
    requires
        probes.valid(),
    ensures
        deciding(v, registry, path, probes) matches Some((hit, surface, key)) ==> {
            &&& path.ids@.contains(surface)
            &&& probes.keys.contains(key)
            &&& !(hit is Miss)
            &&& is_hosted(hit, surface, registry, path.caps)
            &&& ({
                ||| hit == hit_at(v, registry, path.caps, surface, key, false)
                    && probes.scoped(false).contains(key)
                ||| hit == hit_at(v, registry, path.caps, surface, key, true)
                    && !path.anchor_refuses_positional
            })
        },
{
    let scope = path.ids@.take(reach(path, probes));
    let typed = probes.scoped(false);
    typed_hits(v, registry, path.caps, scope, typed);
    if let Some(key) = guess_of(probes) {
        first_hit_is_first(v, registry, path.caps, scope, key, true);
        assert(probes.keys.contains(key));
    }
    if let Some((hit, surface, key)) = deciding(v, registry, path, probes) {
        assert(scope.contains(surface));
        let i = choose|i: int| 0 <= i < scope.len() && scope[i] == surface;
        assert(path.ids@[i] == surface);
        if typed.contains(key) {
            let j = choose|j: int| 0 <= j < typed.len() && typed[j] == key;
            assert(probes.keys[j] == key);
        }
    }
}

/// Whatever runs stands on the path, was reached by a key that was offered,
/// and is a verb that the path's capabilities satisfy; where the anchor refuses
/// the positional guess, it was reached by a key that was typed.
pub proof fn what_runs_is_allowed(
    v: IndexView,
    registry: Seq<ActionSpec>,
    path: SurfacePath,
    probes: ProbeList,
)
    requires
        probes.valid(),
    ensures
        walk_of(v, registry, path, probes) matches Walked::Found(c, key) ==> {
            &&& path.ids@.contains(c.surface)
            &&& probes.keys.contains(key)
            &&& is_allowed(c, registry, path.caps)
            &&& path.anchor_refuses_positional ==> probes.scoped(false).contains(key)
        },
{
    what_decides_is_a_hit(v, registry, path, probes);
    let scope = path.ids@.take(reach(path, probes));
    typed_hits(v, registry, path.caps, scope, probes.scoped(false));
}

/// What was typed outranks what is guessed: where a typed spelling is bound
/// anywhere within reach, the guess decides nothing, however deep the surface
/// that binds it.
pub proof fn a_guess_never_outranks_what_was_typed(
    v: IndexView,
    registry: Seq<ActionSpec>,
    path: SurfacePath,
    probes: ProbeList,
    i: int,
    j: int,
)
    requires
        probes.valid(),
        0 <= i < probes.scoped(false).len(),
        0 <= j < reach(path, probes),
        !(hit_at(v, registry, path.caps, path.ids@[j], probes.scoped(false)[i], false) is Miss),
    ensures
        deciding(v, registry, path, probes) matches Some((_, _, key)) && probes.scoped(
            false,
        ).contains(key) && guess_of(probes) != Some(key),
        walk_of(v, registry, path, probes) matches Walked::Found(_, key) ==> probes.scoped(
            false,
        ).contains(key) && guess_of(probes) != Some(key),
{
    let scope = path.ids@.take(reach(path, probes));
    let typed = probes.scoped(false);
    typed_hits(v, registry, path.caps, scope, typed);
    assert(scope[j] == path.ids@[j]);
    assert(!(hit_at(v, registry, path.caps, scope[j], typed[i], false) is Miss));
    if let Some((_, _, key)) = deciding(v, registry, path, probes) {
        let x = choose|x: int| 0 <= x < typed.len() && typed[x] == key;
        assert(probes.keys[x] == key);
        if let Some(at) = probes.positional {
            assert(x < at);
            assert(probes.keys[x] != probes.keys[at as int]);
        }
    }
}

/// A rule that does not ask for the positional guess is never reached by it:
/// what the guess decides, a rule decides that asks for it.
pub proof fn only_a_rule_that_asks_answers_the_guess(
    v: IndexView,
    registry: Seq<ActionSpec>,
    path: SurfacePath,
    probes: ProbeList,
)
    requires
        probes.valid(),
    ensures
        deciding(v, registry, path, probes) matches Some((_, surface, key)) ==> {
            ||| probes.scoped(false).contains(key)
            ||| {
                &&& guess_of(probes) == Some(key)
                &&& !path.anchor_refuses_positional
                &&& v.lookup(surface@, seq![key]) matches LookupView::ExactOnly(entry)
                    && asks_for_guess(v, entry)
            }
        },
{
    let scope = path.ids@.take(reach(path, probes));
    typed_hits(v, registry, path.caps, scope, probes.scoped(false));
    if let Some(key) = guess_of(probes) {
        first_hit_is_first(v, registry, path.caps, scope, key, true);
    }
}

/// A bare key at a sealed anchor never reaches another surface: it runs what
/// the anchor binds, or stops there.
pub proof fn bare_keys_stop_at_a_seal(
    v: IndexView,
    registry: Seq<ActionSpec>,
    path: SurfacePath,
    probes: ProbeList,
)
    requires
        path.seal == Seal::Sealed,
        !probes.commands(),
        path.ids@.len() > 0,
    ensures
        match walk_of(v, registry, path, probes) {
            Walked::Found(c, _) => c.surface == path.ids@[0],
            Walked::Stopped(stop) => stop == Stop::Native(path.ids@[0]) || stop == Stop::Sealed(
                path.ids@[0],
            ),
        },
{
    let scope = path.ids@.take(1);
    typed_hits(v, registry, path.caps, scope, probes.scoped(false));
    if let Some(key) = guess_of(probes) {
        first_hit_is_first(v, registry, path.caps, scope, key, true);
    }
    if let Some((_, surface, _)) = deciding(v, registry, path, probes) {
        assert(scope.contains(surface));
    }
}

/// Depth is specificity: of the surfaces that bind one spelling, the deepest
/// decides, whatever its ancestors bind. For the spelling that leads, it
/// decides the walk.
pub proof fn the_deepest_surface_wins(
    v: IndexView,
    registry: Seq<ActionSpec>,
    path: SurfacePath,
    probes: ProbeList,
    i: int,
)
    requires
        probes.scoped(false).len() > 0,
        0 <= i < reach(path, probes),
        !(hit_at(v, registry, path.caps, path.ids@[i], probes.scoped(false)[0], false) is Miss),
        forall|j: int|
            0 <= j < i ==> hit_at(
                v,
                registry,
                path.caps,
                #[trigger] path.ids@[j],
                probes.scoped(false)[0],
                false,
            ) is Miss,
    ensures
        ({
            let key = probes.scoped(false)[0];
            let hit = hit_at(v, registry, path.caps, path.ids@[i], key, false);
            deciding(v, registry, path, probes) == Some((hit, path.ids@[i], key))
        }),
{
    let scope = path.ids@.take(reach(path, probes));
    let key = probes.scoped(false)[0];
    first_hit_is_first(v, registry, path.caps, scope, key, false);
    assert forall|j: int| 0 <= j < scope.len() implies scope[j] == path.ids@[j] by {}
    assert(scope[i] == path.ids@[i]);
    let (hit, surface) = first_hit(v, registry, path.caps, scope, key, false)->0;
    let x = choose|x: int|
        {
            &&& 0 <= x < scope.len()
            &&& (#[trigger] scope[x]) == surface
            &&& forall|j: int|
                0 <= j < x ==> hit_at(
                    v,
                    registry,
                    path.caps,
                    #[trigger] scope[j],
                    key,
                    false,
                ) is Miss
        };
    if x < i {
        assert(hit_at(v, registry, path.caps, path.ids@[x], key, false) is Miss);
    }
    if i < x {
        assert(hit_at(v, registry, path.caps, scope[i], key, false) is Miss);
    }
}

/// A guess that a rule within reach asks for is not lost: something decides
/// the keystroke.
pub proof fn a_guess_within_reach_is_not_lost(
    v: IndexView,
    registry: Seq<ActionSpec>,
    path: SurfacePath,
    probes: ProbeList,
    j: int,
)
    requires
        guess_of(probes) is Some,
        !path.anchor_refuses_positional,
        0 <= j < reach(path, probes),
        !(hit_at(v, registry, path.caps, path.ids@[j], guess_of(probes)->0, true) is Miss),
    ensures
        deciding(v, registry, path, probes) is Some,
{
    let scope = path.ids@.take(reach(path, probes));
    first_hit_is_first(v, registry, path.caps, scope, guess_of(probes)->0, true);
    assert(scope[j] == path.ids@[j]);
}

} // verus!
