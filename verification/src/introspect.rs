//! The introspector: what is bound, and why a key does what it does.
//!
//! Both reports are text over the plane's own data. The listing prints every
//! rule in the syntax a user would type; the explanation resolves one key and
//! names what decided.

use vstd::prelude::*;
use vstd::string::*;
use crate::action::{ActionRegistry, ActionSpec, Params, RuleTarget, TargetView};
use crate::bind;
use crate::bind::{
    BindingIndex, Consumption, IndexView, MappingOwner, OwnerView, PanelDiagnostic, Repeat, Rule,
    RuleView,
};
use crate::caps;
use crate::caps::Caps;
use crate::key::{Key, KeyEvent, KeyNames};
use crate::keys;
use crate::keys::{parse_lhs, ProbeList, Probes};
use crate::resolve;
use crate::resolve::{
    Candidate, CandidateTarget, CandidateTargetView, CandidateView, ResolveInput, Resolution, Stop,
};
use crate::surface;
use crate::surface::{Anchor, ChainNode, FocusChain, Forest, Seal, SurfaceId, SurfacePath, SurfaceSpec};
use crate::text;
use crate::text::{as_text, push_decimal, push_joined, push_signed};
use crate::trie::EntryView;

verus! {

// ── One rule ──────────────────────────────────────────────────────────

/// How a key sequence is written.
pub open spec fn keys_text(names: KeyNames, keys: Seq<KeyEvent>) -> Seq<char>
    decreases keys.len(),
{
    if keys.len() == 0 {
        Seq::empty()
    } else {
        keys_text(names, keys.drop_last()) + names.spec_text(keys.last())
    }
}

/// Append how a key sequence is written.
fn push_keys(out: &mut String, names: &KeyNames, keys: &[KeyEvent])
    ensures
        final(out)@ == old(out)@ + keys_text(*names, keys@),
{
    let ghost start = out@;
    let mut i: usize = 0;
    proof {
        assert(keys@.take(0) =~= Seq::empty());
        assert(start + Seq::<char>::empty() =~= start);
    }
    while i < keys.len()
        invariant
            i <= keys@.len(),
            out@ == start + keys_text(*names, keys@.take(i as int)),
        decreases keys@.len() - i,
    {
        out.append(names.text(keys[i]));
        proof {
            assert(keys@.take(i + 1).drop_last() =~= keys@.take(i as int));
            assert(keys@.take(i + 1).last() == keys@[i as int]);
            assert(out@ =~= start + keys_text(*names, keys@.take(i + 1)));
        }
        i = i + 1;
    }
    assert(keys@.take(i as int) =~= keys@);
}

/// How a target is written.
pub open spec fn target_text(target: TargetView, registry: Seq<ActionSpec>) -> Seq<char> {
    match target {
        TargetView::Action(id) => bind::verb_name(registry, id),
        TargetView::Native => "native"@,
        TargetView::Shortcut(path) => "<Shortcut>("@ + path + ")"@,
    }
}

/// Append how a target is written.
fn push_target(out: &mut String, target: &RuleTarget, registry: &ActionRegistry)
    requires
        registry.wf(),
    ensures
        final(out)@ == old(out)@ + target_text(target@, registry@),
{
    match target {
        RuleTarget::Action(id) => match registry.name_of(*id) {
            Some(name) => {
                out.append(name);
            },
            None => {
                out.append("<unregistered>");
            },
        },
        RuleTarget::Native => {
            out.append("native");
        },
        RuleTarget::Shortcut(path) => {
            out.append("<Shortcut>(");
            out.append(as_text(path));
            out.append(")");
        },
    }
    assert(out@ =~= old(out)@ + target_text(target@, registry@));
}

/// How parameters are written, each after a space.
pub open spec fn params_text(params: Seq<(Seq<char>, i64)>) -> Seq<char>
    decreases params.len(),
{
    if params.len() == 0 {
        Seq::empty()
    } else {
        params_text(params.drop_last()) + " "@ + params.last().0 + "="@ + text::signed_decimal(
            params.last().1 as int,
        )
    }
}

/// Append how parameters are written.
fn push_params(out: &mut String, params: &Params)
    ensures
        final(out)@ == old(out)@ + params_text(params@),
{
    let ghost start = out@;
    let ghost all = params@;
    let entries = params.iter();
    let mut i: usize = 0;
    proof {
        assert(all.take(0) =~= Seq::empty());
        assert(start + Seq::<char>::empty() =~= start);
        assert(entries@.map_values(|e: (&str, i64)| (e.0@, e.1)).len() == entries@.len());
    }
    while i < entries.len()
        invariant
            i <= entries@.len(),
            entries@.len() == all.len(),
            entries@.map_values(|e: (&str, i64)| (e.0@, e.1)) == all,
            out@ == start + params_text(all.take(i as int)),
        decreases entries@.len() - i,
    {
        let (key, value): (&str, i64) = entries[i];
        out.append(" ");
        out.append(key);
        out.append("=");
        push_signed(out, value);
        proof {
            let head = all.take(i + 1);
            assert(head.drop_last() =~= all.take(i as int));
            assert(all[i as int] == entries@.map_values(|e: (&str, i64)| (e.0@, e.1))[i as int]);
            assert(head.last() == (key@, value));
            assert(out@ =~= start + params_text(head));
        }
        i = i + 1;
    }
    assert(all.take(i as int) =~= all);
}

/// A piece of text where a condition holds.
pub open spec fn when(condition: bool, words: Seq<char>) -> Seq<char> {
    if condition {
        words
    } else {
        Seq::empty()
    }
}

/// The flags of a rule, each after a space.
pub open spec fn flags_text(rule: RuleView) -> Seq<char> {
    when(rule.physical, " <physical>"@) + when(rule.consume == Consumption::Void, " <void>"@)
        + when(rule.repeat == Repeat::Suppress, " <norepeat>"@) + when(
        rule.shift_tolerant,
        " <shift>"@,
    ) + when(rule.nowait, " <nowait>"@)
}

/// A rule the way a user would write it.
pub open spec fn rule_text(rule: RuleView, registry: Seq<ActionSpec>, names: KeyNames) -> Seq<
    char,
> {
    "panelmap"@ + flags_text(rule) + " "@ + rule.surface + " "@ + keys_text(names, rule.lhs) + " "@
        + target_text(rule.target, registry) + params_text(rule.params)
}

/// Append a piece of text where a condition holds.
fn push_when(out: &mut String, condition: bool, words: &str)
    ensures
        final(out)@ == old(out)@ + when(condition, words@),
{
    if condition {
        out.append(words);
    } else {
        assert(out@ + Seq::<char>::empty() =~= out@);
    }
}

/// Append the flags of a rule.
#[verifier::spinoff_prover]
fn push_flags(out: &mut String, rule: &Rule)
    ensures
        final(out)@ == old(out)@ + flags_text(rule@),
{
    push_when(out, rule.physical, " <physical>");
    push_when(out, rule.consume == Consumption::Void, " <void>");
    push_when(out, rule.repeat == Repeat::Suppress, " <norepeat>");
    push_when(out, rule.shift_tolerant, " <shift>");
    push_when(out, rule.nowait, " <nowait>");
    assert(out@ =~= old(out)@ + flags_text(rule@));
}

/// Append a rule the way a user would write it.
#[verifier::spinoff_prover]
fn push_rule(out: &mut String, rule: &Rule, registry: &ActionRegistry, names: &KeyNames)
    requires
        registry.wf(),
    ensures
        final(out)@ == old(out)@ + rule_text(rule@, registry@, *names),
{
    let ghost start = out@;
    out.append("panelmap");
    push_flags(out, rule);
    out.append(" ");
    out.append(rule.surface);
    out.append(" ");
    push_keys(out, names, rule.lhs.as_slice());
    out.append(" ");
    push_target(out, &rule.target, registry);
    push_params(out, &rule.params);
    assert(out@ =~= start + rule_text(rule@, registry@, *names));
}

/// Render one rule the way a user would write it.
///
/// The listing is not a pretty-printer: it is the text that reproduces the
/// rule.
pub fn render_rule(rule: &Rule, registry: &ActionRegistry, names: &KeyNames) -> (r: String)
    requires
        registry.wf(),
    ensures
        r@ == rule_text(rule@, registry@, *names),
{
    let mut out = String::new();
    push_rule(&mut out, rule, registry, names);
    assert(Seq::<char>::empty() + rule_text(rule@, registry@, *names) =~= rule_text(
        rule@,
        registry@,
        *names,
    ));
    out
}

/// Who installed a rule, in words.
pub open spec fn owner_text(owner: OwnerView) -> Seq<char> {
    match owner {
        OwnerView::Host(tag) => tag,
        OwnerView::User => "user"@,
    }
}

/// Who installed a rule, in words.
pub fn owner_label(owner: &MappingOwner) -> (r: &str)
    ensures
        r@ == owner_text(owner@),
{
    match owner {
        MappingOwner::Host(tag) => as_text(tag),
        MappingOwner::User => "user",
    }
}

/// The name of a seal.
pub open spec fn seal_text(seal: Seal) -> Seq<char> {
    match seal {
        Seal::Open => "Open"@,
        Seal::Sealed => "Sealed"@,
        Seal::Barrier => "Barrier"@,
    }
}

fn seal_label(seal: Seal) -> (r: &'static str)
    ensures
        r@ == seal_text(seal),
{
    match seal {
        Seal::Open => "Open",
        Seal::Sealed => "Sealed",
        Seal::Barrier => "Barrier",
    }
}

// ── The listing ───────────────────────────────────────────────────────

/// How the left-hand sides of some rules are written.
pub open spec fn lhs_texts(names: KeyNames, rules: Seq<RuleView>) -> Seq<Seq<char>> {
    rules.map_values(|r: RuleView| keys_text(names, r.lhs))
}

/// Append the left-hand sides of some rules with commas between them.
fn push_sequences(out: &mut String, names: &KeyNames, rules: &Vec<&Rule>)
    ensures
        final(out)@ == old(out)@ + text::joined(
            lhs_texts(*names, bind::rule_views(rules@)),
            ", "@,
        ),
{
    let ghost start = out@;
    let ghost all = lhs_texts(*names, bind::rule_views(rules@));
    let mut i: usize = 0;
    proof {
        assert(all.take(0) =~= Seq::empty());
        assert(start + Seq::<char>::empty() =~= start);
    }
    while i < rules.len()
        invariant
            i <= rules@.len(),
            all == lhs_texts(*names, bind::rule_views(rules@)),
            out@ == start + text::joined(all.take(i as int), ", "@),
        decreases rules@.len() - i,
    {
        if i > 0 {
            out.append(", ");
        }
        push_keys(out, names, rules[i].lhs.as_slice());
        proof {
            let head = all.take(i + 1);
            assert(head.drop_last() =~= all.take(i as int));
            assert(head.last() == all[i as int]);
            assert(bind::rule_views(rules@)[i as int] == rules@[i as int]@);
            assert(out@ =~= start + text::joined(head, ", "@));
        }
        i = i + 1;
    }
    assert(all.take(i as int) =~= all);
}

/// The line of one listed rule.
pub open spec fn listed_text(rule: RuleView, registry: Seq<ActionSpec>, names: KeyNames) -> Seq<
    char,
> {
    "  "@ + rule_text(rule, registry, names) + "    ["@ + owner_text(rule.owner) + "]\n"@
}

/// The lines of several listed rules.
pub open spec fn rules_text(
    rules: Seq<RuleView>,
    registry: Seq<ActionSpec>,
    names: KeyNames,
) -> Seq<char>
    decreases rules.len(),
{
    if rules.len() == 0 {
        Seq::empty()
    } else {
        rules_text(rules.drop_last(), registry, names) + listed_text(rules.last(), registry, names)
    }
}

/// The line of one reservation.
pub open spec fn reservation_text(
    v: IndexView,
    surface: Seq<char>,
    names: KeyNames,
    key: KeyEvent,
) -> Seq<char> {
    "  reserves "@ + names.spec_text(key) + "    (consumed bare on "@ + surface
        + ", then waits timeoutlen for: "@ + sequences_text(v, surface, names, key) + ")\n"@
}

/// The sequences on a surface that start with a key, with commas between them.
pub open spec fn sequences_text(
    v: IndexView,
    surface: Seq<char>,
    names: KeyNames,
    key: KeyEvent,
) -> Seq<char> {
    text::joined(
        lhs_texts(
            names,
            v.rules_on(surface).filter(|r: RuleView| bind::is_sequence_from(r.lhs, key)),
        ),
        ", "@,
    )
}

/// The lines of several reservations.
pub open spec fn reservations_text(
    v: IndexView,
    surface: Seq<char>,
    names: KeyNames,
    keys: Seq<KeyEvent>,
) -> Seq<char>
    decreases keys.len(),
{
    if keys.len() == 0 {
        Seq::empty()
    } else {
        reservations_text(v, surface, names, keys.drop_last()) + reservation_text(
            v,
            surface,
            names,
            keys.last(),
        )
    }
}

/// The declared surface of a name, where it is declared.
pub open spec fn declared(forest: Seq<SurfaceSpec>, id: Seq<char>) -> Option<SurfaceSpec> {
    match surface::place_of(forest, id) {
        Some(i) => Some(forest[i]),
        None => None,
    }
}

/// The first line of a surface that binds something.
pub open spec fn heading_text(id: Seq<char>, parent: Seq<char>, seal: Seal) -> Seq<char> {
    id + "  (parent: "@ + parent + ", seal: "@ + seal_text(seal) + ")\n"@
}

/// The line of a surface that binds nothing.
pub open spec fn bare_text(id: Seq<char>, seal: Seal) -> Seq<char> {
    id + (if seal == Seal::Barrier {
        "  (barrier — takes no bindings)"@
    } else {
        "  (no bindings)"@
    }) + "\n"@
}

/// The listing of one surface.
pub open spec fn surface_text(
    v: IndexView,
    registry: Seq<ActionSpec>,
    names: KeyNames,
    id: Seq<char>,
) -> Seq<char> {
    let rules = v.rules_on(id);
    let seal = match declared(v.forest, id) {
        Some(spec) => spec.seal,
        None => Seal::Open,
    };
    let parent = match declared(v.forest, id) {
        Some(spec) => match spec.parent {
            Some(parent) => parent@,
            None => "-"@,
        },
        None => "-"@,
    };
    if rules.len() == 0 {
        bare_text(id, seal)
    } else {
        heading_text(id, parent, seal) + rules_text(rules, registry, names) + reservations_text(
            v,
            id,
            names,
            v.reservations(id),
        )
    }
}

/// The listing of the first `n` surfaces, in probe order.
pub open spec fn surfaces_text(
    v: IndexView,
    registry: Seq<ActionSpec>,
    names: KeyNames,
    n: int,
) -> Seq<char>
    decreases n,
{
    if n <= 0 {
        Seq::empty()
    } else {
        surfaces_text(v, registry, names, n - 1) + surface_text(
            v,
            registry,
            names,
            v.forest[n - 1].id@,
        )
    }
}

/// How many rules the listing of the first `n` surfaces has.
pub open spec fn total_listed(v: IndexView, n: int) -> nat
    decreases n,
{
    if n <= 0 {
        0
    } else {
        total_listed(v, n - 1) + v.rules_on(v.forest[n - 1].id@).len()
    }
}

/// The lines of several diagnostics.
pub open spec fn diagnostics_text(ds: Seq<PanelDiagnostic>, names: KeyNames) -> Seq<char>
    decreases ds.len(),
{
    if ds.len() == 0 {
        Seq::empty()
    } else {
        diagnostics_text(ds.drop_last(), names) + "  "@ + ds.last()@.message(names) + "\n"@
    }
}

/// The whole listing.
pub open spec fn listing(
    v: IndexView,
    registry: Seq<ActionSpec>,
    ds: Seq<PanelDiagnostic>,
    names: KeyNames,
) -> Seq<char> {
    let n = v.forest.len() as int;
    "--- panel bindings ---\n"@ + surfaces_text(v, registry, names, n) + "--- "@ + text::decimal(
        total_listed(v, n),
    ) + " binding(s) ---\n"@ + (if ds.len() == 0 {
        Seq::empty()
    } else {
        "--- "@ + text::decimal(ds.len()) + " rejected line(s) — these bound NOTHING ---\n"@
            + diagnostics_text(ds, names)
    })
}

/// Append the lines of several rules.
#[verifier::spinoff_prover]
fn push_rules(out: &mut String, rules: &Vec<&Rule>, registry: &ActionRegistry, names: &KeyNames)
    requires
        registry.wf(),
    ensures
        final(out)@ == old(out)@ + rules_text(bind::rule_views(rules@), registry@, *names),
{
    let ghost start = out@;
    let ghost all = bind::rule_views(rules@);
    let mut i: usize = 0;
    proof {
        assert(all.take(0) =~= Seq::empty());
        assert(start + Seq::<char>::empty() =~= start);
    }
    while i < rules.len()
        invariant
            i <= rules@.len(),
            registry.wf(),
            all == bind::rule_views(rules@),
            out@ == start + rules_text(all.take(i as int), registry@, *names),
        decreases rules@.len() - i,
    {
        out.append("  ");
        push_rule(out, rules[i], registry, names);
        out.append("    [");
        out.append(owner_label(&rules[i].owner));
        out.append("]\n");
        proof {
            let head = all.take(i + 1);
            assert(head.drop_last() =~= all.take(i as int));
            assert(head.last() == all[i as int]);
            assert(all[i as int] == rules@[i as int]@);
            assert(out@ =~= start + rules_text(head, registry@, *names));
        }
        i = i + 1;
    }
    assert(all.take(i as int) =~= all);
}

/// Append the lines of a surface's reservations.
#[verifier::spinoff_prover]
fn push_reservations(out: &mut String, index: &BindingIndex, surface: SurfaceId, names: &KeyNames)
    requires
        index.wf(),
    ensures
        final(out)@ == old(out)@ + reservations_text(
            index@,
            surface@,
            *names,
            index@.reservations(surface@),
        ),
{
    let ghost start = out@;
    let reserved = index.reservations(surface);
    let ghost all = reserved@;
    let mut i: usize = 0;
    proof {
        assert(all.take(0) =~= Seq::empty());
        assert(start + Seq::<char>::empty() =~= start);
    }
    while i < reserved.len()
        invariant
            i <= reserved@.len(),
            all == reserved@,
            index.wf(),
            out@ == start + reservations_text(index@, surface@, *names, all.take(i as int)),
        decreases reserved@.len() - i,
    {
        let key: KeyEvent = reserved[i];
        out.append("  reserves ");
        out.append(names.text(key));
        out.append("    (consumed bare on ");
        out.append(surface);
        out.append(", then waits timeoutlen for: ");
        let rules = index.sequences_from(surface, key);
        push_sequences(out, names, &rules);
        out.append(")\n");
        proof {
            let head = all.take(i + 1);
            assert(head.drop_last() =~= all.take(i as int));
            assert(head.last() == key);
            assert(out@ =~= start + reservations_text(index@, surface@, *names, head));
        }
        i = i + 1;
    }
    assert(all.take(i as int) =~= all);
}

/// Append the first line of a surface that binds something.
#[verifier::spinoff_prover]
fn push_heading(out: &mut String, id: SurfaceId, parent: &str, seal: Seal)
    ensures
        final(out)@ == old(out)@ + heading_text(id@, parent@, seal),
{
    out.append(id);
    out.append("  (parent: ");
    out.append(parent);
    out.append(", seal: ");
    out.append(seal_label(seal));
    out.append(")\n");
    assert(out@ =~= old(out)@ + heading_text(id@, parent@, seal));
}

/// Append the line of a surface that binds nothing.
///
/// Such a surface is the answer to half the questions the listing is asked.
fn push_bare(out: &mut String, id: SurfaceId, seal: Seal)
    ensures
        final(out)@ == old(out)@ + bare_text(id@, seal),
{
    out.append(id);
    if seal == Seal::Barrier {
        out.append("  (barrier — takes no bindings)");
    } else {
        out.append("  (no bindings)");
    }
    out.append("\n");
    assert(out@ =~= old(out)@ + bare_text(id@, seal));
}

/// Append the listing of one surface.
#[verifier::spinoff_prover]
fn push_surface(
    out: &mut String,
    index: &BindingIndex,
    registry: &ActionRegistry,
    names: &KeyNames,
    surface: SurfaceId,
) -> (r: u64)
    requires
        index.wf(),
        registry.wf(),
        index@.rules_on(surface@).len() <= u64::MAX,
    ensures
        final(out)@ == old(out)@ + surface_text(index@, registry@, *names, surface@),
        r == index@.rules_on(surface@).len(),
{
    let rules = index.rules_on(surface);
    assert(bind::rule_views(rules@).len() == rules@.len());
    let mut seal = Seal::Open;
    let mut parent: &str = "-";
    if let Some(spec) = index.forest().get(surface) {
        seal = spec.seal;
        if let Some(id) = spec.parent {
            parent = id;
        }
    }
    let ghost start = out@;
    if rules.len() == 0 {
        push_bare(out, surface, seal);
        return 0;
    }
    push_heading(out, surface, parent, seal);
    push_rules(out, &rules, registry, names);
    // A reservation that nobody can see would be a silent dead key.
    push_reservations(out, index, surface, names);
    proof {
        let heading = heading_text(surface@, parent@, seal);
        let lines = rules_text(index@.rules_on(surface@), registry@, *names);
        let waits = reservations_text(
            index@,
            surface@,
            *names,
            index@.reservations(surface@),
        );
        assert(start + heading + lines + waits =~= start + (heading + lines + waits));
    }
    rules.len() as u64
}

/// Every live binding, by surface, and every line that did not become one.
///
/// Surfaces come in probe order and rules in slot order, so that two listings
/// of one index are the same text.
#[verifier::spinoff_prover]
pub fn list_report(
    index: &BindingIndex,
    registry: &ActionRegistry,
    diagnostics: &[PanelDiagnostic],
    names: &KeyNames,
) -> (r: String)
    requires
        index.wf(),
        registry.wf(),
        total_listed(index@, index@.forest.len() as int) <= u64::MAX,
    ensures
        r@ == listing(index@, registry@, diagnostics@, *names),
{
    let mut out = String::new();
    out.append("--- panel bindings ---\n");
    let ghost head = out@;
    let ids = index.forest().ids();
    let ghost n = index@.forest.len() as int;
    let mut total: u64 = 0;
    let mut i: usize = 0;
    assert(head + Seq::<char>::empty() =~= head);
    while i < ids.len()
        invariant
            i <= ids@.len(),
            index.wf(),
            registry.wf(),
            n == index@.forest.len(),
            n == ids@.len(),
            ids@ == index@.forest.map_values(|s: SurfaceSpec| s.id),
            total_listed(index@, n) <= u64::MAX,
            total == total_listed(index@, i as int),
            out@ == head + surfaces_text(index@, registry@, *names, i as int),
        decreases ids@.len() - i,
    {
        proof {
            total_listed_grows(index@, i + 1, n);
            assert(ids@[i as int] == index@.forest[i as int].id);
        }
        let listed: u64 = push_surface(&mut out, index, registry, names, ids[i]);
        total = total + listed;
        proof {
            assert(out@ =~= head + surfaces_text(index@, registry@, *names, i + 1));
        }
        i = i + 1;
    }
    out.append("--- ");
    push_decimal(&mut out, total);
    out.append(" binding(s) ---\n");
    if diagnostics.len() > 0 {
        out.append("--- ");
        push_decimal(&mut out, diagnostics.len() as u64);
        out.append(" rejected line(s) — these bound NOTHING ---\n");
        push_diagnostics(&mut out, diagnostics, names);
    }
    assert(out@ =~= listing(index@, registry@, diagnostics@, *names));
    out
}

/// More surfaces list no fewer rules.
proof fn total_listed_grows(v: IndexView, n: int, m: int)
    requires
        n <= m,
    ensures
        total_listed(v, n) <= total_listed(v, m),
    decreases m - n,
{
    if n < m {
        total_listed_grows(v, n, m - 1);
    }
}

/// Append the lines of several diagnostics.
#[verifier::spinoff_prover]
fn push_diagnostics(out: &mut String, ds: &[PanelDiagnostic], names: &KeyNames)
    ensures
        final(out)@ == old(out)@ + diagnostics_text(ds@, *names),
{
    let ghost start = out@;
    let mut i: usize = 0;
    proof {
        assert(ds@.take(0) =~= Seq::empty());
        assert(start + Seq::<char>::empty() =~= start);
    }
    while i < ds.len()
        invariant
            i <= ds@.len(),
            out@ == start + diagnostics_text(ds@.take(i as int), *names),
        decreases ds@.len() - i,
    {
        out.append("  ");
        ds[i].write_to(names, out);
        out.append("\n");
        proof {
            let head = ds@.take(i + 1);
            assert(head.drop_last() =~= ds@.take(i as int));
            assert(head.last() == ds@[i as int]);
            assert(out@ =~= start + diagnostics_text(head, *names));
        }
        i = i + 1;
    }
    assert(ds@.take(i as int) =~= ds@);
}

// ── The explanation ───────────────────────────────────────────────────

/// Two facts of a chain in the words of those who own them: the identity of
/// the attached editor, and the engine's mode.
#[derive(Debug)]
pub struct ChainFacts {
    pub attached_editor: String,
    pub editor_mode: String,
}

/// A truth value in words.
pub open spec fn bool_text(b: bool) -> Seq<char> {
    if b {
        "true"@
    } else {
        "false"@
    }
}

fn bool_label(b: bool) -> (r: &'static str)
    ensures
        r@ == bool_text(b),
{
    if b {
        "true"
    } else {
        "false"
    }
}

/// The lines of the first `n` nodes of a chain.
pub open spec fn nodes_text(nodes: Seq<ChainNode>, n: int) -> Seq<char>
    decreases n,
{
    if n <= 0 {
        Seq::empty()
    } else {
        nodes_text(nodes, n - 1) + "  ["@ + text::decimal((n - 1) as nat) + "] "@
            + text::compact_text(nodes[n - 1].class) + " ("@ + text::compact_text(
            nodes[n - 1].name,
        ) + ")\n"@
    }
}

/// Where the focus is.
pub open spec fn chain_text(chain: FocusChain) -> Seq<char> {
    "focus chain (leaf first):\n"@ + (if chain.nodes@.len() == 0 {
        "  <no focus owner>\n"@
    } else {
        nodes_text(chain.nodes@, chain.nodes@.len() as int)
    })
}

/// What was sampled beside the chain.
pub open spec fn facts_text(chain: FocusChain, facts: ChainFacts) -> Seq<char> {
    "facts: attached_editor="@ + facts.attached_editor@ + " mode="@ + facts.editor_mode@
        + " in_filesystem_dock="@ + bool_text(chain.in_filesystem_dock) + " sibling_nav="@
        + bool_text(chain.sibling_nav_control is Some) + " prompt="@ + bool_text(
        chain.is_plugin_prompt,
    ) + "\n"@
}

/// Where a surface matched, in words.
pub open spec fn anchor_text(anchor: Anchor) -> Seq<char> {
    match anchor {
        Anchor::Node(i) => "chain["@ + text::decimal(i as nat) + "]"@,
        Anchor::Rootless => "rootless (no focus owner)"@,
    }
}

/// The surfaces above the focus.
pub open spec fn ids_text(path: SurfacePath) -> Seq<char> {
    "surface stack (deepest first): "@ + text::joined(text::views(path.ids@), " -> "@) + "\n"@
}

/// What the path offers and asks.
pub open spec fn offer_text(path: SurfacePath) -> Seq<char> {
    "anchor: "@ + anchor_text(path.anchor) + "  caps: "@ + caps::caps_text(path.caps)
        + "  seal: "@ + seal_text(path.seal) + "  yields_to_engine: "@ + bool_text(
        path.anchor_yields_to_engine,
    ) + "  refuses_positional: "@ + bool_text(path.anchor_refuses_positional) + "\n"@
}

/// What is above the focus.
pub open spec fn path_text(path: SurfacePath) -> Seq<char> {
    ids_text(path) + offer_text(path)
}

/// What the report cannot know.
pub open spec fn probes_text(names: KeyNames, key: KeyEvent) -> Seq<char> {
    "probes: "@ + names.spec_text(key)
        + " (as typed only — a real keystroke on a non-QWERTY layout also carries a Latin collapse and a US-QWERTY position, which a written LHS cannot derive)\n"@
}

/// What would become of a rule that a key leads to.
pub open spec fn verdict_text(rule: RuleView, registry: Seq<ActionSpec>, offered: Caps) -> Seq<
    char,
> {
    match rule.target {
        TargetView::Action(id) => if id.0 < registry.len() {
            let spec = registry[id.0 as int];
            if offered.covers(spec.requires) {
                "eligible ("@ + spec.id@ + ")"@
            } else {
                "SKIPPED — "@ + spec.id@ + " needs "@ + caps::caps_text(spec.requires)
                    + ", path offers "@ + caps::caps_text(offered)
            }
        } else {
            "SKIPPED (action not registered)"@
        },
        TargetView::Native => "native — hands the key back and stops the walk"@,
        TargetView::Shortcut(path) => "NOT DISPATCHED — editor shortcut "@ + path
            + " always declines"@,
    }
}

/// Whether a rule is reachable by position from another key on some layouts: a
/// single character whose rule asks for the guess.
pub open spec fn is_shadow(rule: RuleView) -> bool {
    rule.physical && rule.lhs.len() == 1 && rule.lhs[0].key is Char
}

/// A rule that is reachable by position, in words.
pub open spec fn shadow_text(rule: RuleView, registry: Seq<ActionSpec>, names: KeyNames) -> Seq<
    char,
> {
    names.spec_text(rule.lhs[0]) + " -> "@ + target_text(rule.target, registry)
}

/// The rules among some that are reachable by position, in words.
pub open spec fn shadow_texts(
    rules: Seq<RuleView>,
    registry: Seq<ActionSpec>,
    names: KeyNames,
) -> Seq<Seq<char>>
    decreases rules.len(),
{
    if rules.len() == 0 {
        Seq::empty()
    } else {
        let init = shadow_texts(rules.drop_last(), registry, names);
        if is_shadow(rules.last()) {
            init.push(shadow_text(rules.last(), registry, names))
        } else {
            init
        }
    }
}

/// The line of a surface that waits for more keys after this one.
pub open spec fn reserved_text(v: IndexView, names: KeyNames, id: SurfaceId, key: KeyEvent) -> Seq<
    char,
> {
    "  "@ + id@ + ": RESERVED — "@ + names.spec_text(key)
        + " is consumed bare here and the plugin waits timeoutlen for: "@ + sequences_text(
        v,
        id@,
        names,
        key,
    ) + "\n"@
}

/// The line of a rule that the key leads to.
pub open spec fn reached_text(
    rule: RuleView,
    registry: Seq<ActionSpec>,
    offered: Caps,
    names: KeyNames,
    id: SurfaceId,
    key: KeyEvent,
) -> Seq<char> {
    "  "@ + id@ + ": "@ + rule_text(rule, registry, names) + " via "@ + names.spec_text(key)
        + " -> "@ + verdict_text(rule, registry, offered) + "\n"@
}

/// The line of the rules that other keys reach by position.
pub open spec fn shadows_text(id: SurfaceId, shadows: Seq<Seq<char>>) -> Seq<char> {
    "  "@ + id@ + ": reachable positionally from another physical key on non-QWERTY layouts: "@
        + text::joined(shadows, ", "@) + "\n"@
}

/// Whether a surface of a path has a rule that the positional guess can reach:
/// a rule there asks for it, and the anchor does not refuse it.
pub open spec fn sees_guess(v: IndexView, path: SurfacePath, surface: SurfaceId) -> bool {
    !path.anchor_refuses_positional && v.physical_on(surface@)
}

/// What one surface of the path makes of a key.
pub open spec fn candidates_text(
    v: IndexView,
    registry: Seq<ActionSpec>,
    path: SurfacePath,
    names: KeyNames,
    id: SurfaceId,
    key: KeyEvent,
) -> Seq<char> {
    let reserved = v.reserves(id@, key);
    let shadows = shadow_texts(v.rules_on(id@), registry, names);
    when(reserved, reserved_text(v, names, id, key)) + (match v.rule_for(id@, seq![key]) {
        Some(rule) => reached_text(rule, registry, path.caps, names, id, key),
        None => when(!reserved, "  "@ + id@ + ": no rule for this key\n"@),
    }) + when(
        sees_guess(v, path, id) && shadows.len() > 0,
        shadows_text(id, shadows),
    )
}

/// What the first `n` surfaces of the path make of a key.
pub open spec fn stack_text(
    v: IndexView,
    registry: Seq<ActionSpec>,
    path: SurfacePath,
    names: KeyNames,
    key: KeyEvent,
    n: int,
) -> Seq<char>
    decreases n,
{
    if n <= 0 {
        Seq::empty()
    } else {
        stack_text(v, registry, path, names, key, n - 1) + candidates_text(
            v,
            registry,
            path,
            names,
            path.ids@[n - 1],
            key,
        )
    }
}

/// One candidate that runs, in words.
pub open spec fn running_text(c: CandidateView) -> Seq<char> {
    "runs: "@ + (match c.target {
        CandidateTargetView::Action(_, spec) => spec.id@,
        CandidateTargetView::Shortcut(path) => "<Shortcut>("@ + path
            + ") — NOT DISPATCHED, always declines"@,
    }) + " on '"@ + c.surface@ + "'\n"@ + "consumption: "@ + (match c.consume {
        Consumption::Void => "consumed ALWAYS (void) — even if the action declines, and the walk stops"@,
        Consumption::Elastic => "consumed only if the action accepts (elastic); otherwise Godot gets the key"@,
    }) + "\n"@ + when(
        c.repeat == Repeat::Suppress,
        "repeat: key-repeat echoes are consumed WITHOUT running the action\n"@,
    )
}

/// Several candidates that run, in words.
pub open spec fn all_running_text(candidates: Seq<CandidateView>) -> Seq<char>
    decreases candidates.len(),
{
    if candidates.len() == 0 {
        Seq::empty()
    } else {
        all_running_text(candidates.drop_last()) + running_text(candidates.last())
    }
}

/// One sentence per stop reason, each naming the fix.
pub open spec fn stop_text(stop: Stop, names: KeyNames) -> Seq<char> {
    match stop {
        Stop::Barrier => "the anchor surface is a barrier (a foreign text input, or the editor in an insert-like mode). Nothing is ever intercepted there."@,
        Stop::Sealed(surface) => "'"@ + surface@
            + "' is sealed and this key carries no Ctrl/Alt/Meta, so it stops at the anchor and reaches the control's own input handling. A modifier-bearing key would have continued to the forest root."@,
        Stop::Native(surface) => "'"@ + surface@
            + "' binds this key to `native`, which hands it back to Godot and terminates the walk. `panelunmap` is the other verb: it removes the rule and lets the walk continue to the parent surface."@,
        Stop::Yielded(key) => "the script editor has focus and the Vim engine claims "@
            + names.spec_text(key)
            + " — your own `:map` wins. Remove the mapping, or bind the panel action to a different chord."@,
        Stop::Exhausted => "no surface on the stack binds this key, or every candidate was gated out by a missing capability (see above)."@,
    }
}

/// What happens to the key in the end.
pub open spec fn resolution_text(r: Resolution, names: KeyNames) -> Seq<char> {
    match r {
        Resolution::Run { matched, candidates } => "matched: "@ + names.spec_text(matched) + "\n"@
            + all_running_text(resolve::candidate_views(candidates@)),
        Resolution::Nothing(stop) => "nothing runs, and the key is NOT consumed.\n"@ + "reason: "@
            + stop_text(stop, names) + "\n"@,
    }
}

/// The first line of an explanation.
pub open spec fn title_text(lhs: Seq<char>) -> Seq<char> {
    "--- panelmap "@ + lhs + " ---\n"@
}

/// What stands before the candidates.
pub open spec fn setting_text(
    lhs: Seq<char>,
    sequence: bool,
    chain: FocusChain,
    facts: ChainFacts,
    path: SurfacePath,
    names: KeyNames,
    key: KeyEvent,
) -> Seq<char> {
    title_text(lhs) + when(
        sequence,
        "a sequence resolves one keystroke at a time against the pending buffer; explaining the first key only\n"@,
    ) + chain_text(chain) + facts_text(chain, facts) + path_text(path) + probes_text(names, key)
        + "candidates:\n"@
}

/// The whole explanation of a key.
pub open spec fn explanation(
    lhs: Seq<char>,
    sequence: bool,
    chain: FocusChain,
    facts: ChainFacts,
    path: SurfacePath,
    v: IndexView,
    registry: Seq<ActionSpec>,
    names: KeyNames,
    key: KeyEvent,
    verdict: Resolution,
) -> Seq<char> {
    setting_text(lhs, sequence, chain, facts, path, names, key) + stack_text(
        v,
        registry,
        path,
        names,
        key,
        path.ids@.len() as int,
    ) + resolution_text(verdict, names)
}

/// The probe list of a written key: exactly as it is written.
pub open spec fn written(key: KeyEvent) -> ProbeList {
    ProbeList { keys: seq![keys::canonical(key)], positional: None }
}

/// Append where the focus is.
#[verifier::spinoff_prover]
fn push_chain(out: &mut String, chain: &FocusChain)
    ensures
        final(out)@ == old(out)@ + chain_text(*chain),
{
    out.append("focus chain (leaf first):\n");
    if chain.nodes.len() == 0 {
        out.append("  <no focus owner>\n");
        assert(out@ =~= old(out)@ + chain_text(*chain));
        return ;
    }
    let ghost head = out@;
    let mut i: usize = 0;
    assert(head + Seq::<char>::empty() =~= head);
    while i < chain.nodes.len()
        invariant
            i <= chain.nodes@.len(),
            out@ == head + nodes_text(chain.nodes@, i as int),
        decreases chain.nodes@.len() - i,
    {
        out.append("  [");
        push_decimal(out, i as u64);
        out.append("] ");
        out.append(as_text(&chain.nodes[i].class));
        out.append(" (");
        out.append(as_text(&chain.nodes[i].name));
        out.append(")\n");
        assert(out@ =~= head + nodes_text(chain.nodes@, i + 1));
        i = i + 1;
    }
    assert(out@ =~= old(out)@ + chain_text(*chain));
}

/// Append what was sampled beside the chain.
#[verifier::spinoff_prover]
fn push_facts(out: &mut String, chain: &FocusChain, facts: &ChainFacts)
    ensures
        final(out)@ == old(out)@ + facts_text(*chain, *facts),
{
    out.append("facts: attached_editor=");
    out.append(facts.attached_editor.as_str());
    out.append(" mode=");
    out.append(facts.editor_mode.as_str());
    out.append(" in_filesystem_dock=");
    out.append(bool_label(chain.in_filesystem_dock));
    out.append(" sibling_nav=");
    out.append(bool_label(chain.sibling_nav_control.is_some()));
    out.append(" prompt=");
    out.append(bool_label(chain.is_plugin_prompt));
    out.append("\n");
    assert(out@ =~= old(out)@ + facts_text(*chain, *facts));
}

/// Append where a surface matched.
fn push_anchor(out: &mut String, anchor: Anchor)
    ensures
        final(out)@ == old(out)@ + anchor_text(anchor),
{
    match anchor {
        Anchor::Node(i) => {
            out.append("chain[");
            push_decimal(out, i as u64);
            out.append("]");
        },
        Anchor::Rootless => {
            out.append("rootless (no focus owner)");
        },
    }
    assert(out@ =~= old(out)@ + anchor_text(anchor));
}

/// Append the surfaces above the focus.
fn push_ids(out: &mut String, path: &SurfacePath)
    ensures
        final(out)@ == old(out)@ + ids_text(*path),
{
    out.append("surface stack (deepest first): ");
    push_joined(out, &path.ids, " -> ");
    out.append("\n");
    assert(out@ =~= old(out)@ + ids_text(*path));
}

/// Append what the path offers and asks.
#[verifier::spinoff_prover]
fn push_offer(out: &mut String, path: &SurfacePath)
    ensures
        final(out)@ == old(out)@ + offer_text(*path),
{
    let ghost start = out@;
    let ghost first = "anchor: "@ + anchor_text(path.anchor) + "  caps: "@ + caps::caps_text(
        path.caps,
    );
    out.append("anchor: ");
    push_anchor(out, path.anchor);
    out.append("  caps: ");
    path.caps.write_to(out);
    assert(out@ =~= start + first);
    out.append("  seal: ");
    out.append(seal_label(path.seal));
    out.append("  yields_to_engine: ");
    out.append(bool_label(path.anchor_yields_to_engine));
    out.append("  refuses_positional: ");
    out.append(bool_label(path.anchor_refuses_positional));
    out.append("\n");
    assert(out@ =~= start + offer_text(*path));
}

/// Append what is above the focus.
fn push_path(out: &mut String, path: &SurfacePath)
    ensures
        final(out)@ == old(out)@ + path_text(*path),
{
    push_ids(out, path);
    push_offer(out, path);
    assert(out@ =~= old(out)@ + path_text(*path));
}

/// Append what would become of a rule.
#[verifier::spinoff_prover]
fn push_verdict(out: &mut String, rule: &Rule, registry: &ActionRegistry, offered: Caps)
    requires
        registry.wf(),
    ensures
        final(out)@ == old(out)@ + verdict_text(rule@, registry@, offered),
{
    match &rule.target {
        RuleTarget::Action(id) => match registry.get(*id) {
            Some(spec) => if offered.satisfies(spec.requires) {
                out.append("eligible (");
                out.append(spec.id);
                out.append(")");
            } else {
                out.append("SKIPPED — ");
                out.append(spec.id);
                out.append(" needs ");
                spec.requires.write_to(out);
                out.append(", path offers ");
                offered.write_to(out);
            },
            None => {
                out.append("SKIPPED (action not registered)");
            },
        },
        RuleTarget::Native => {
            out.append("native — hands the key back and stops the walk");
        },
        RuleTarget::Shortcut(path) => {
            out.append("NOT DISPATCHED — editor shortcut ");
            out.append(as_text(path));
            out.append(" always declines");
        },
    }
    assert(out@ =~= old(out)@ + verdict_text(rule@, registry@, offered));
}

/// The rules of a surface that are reachable by position, in words.
fn shadow_labels(index: &BindingIndex, registry: &ActionRegistry, names: &KeyNames, id: SurfaceId)
    -> (r: Vec<String>)
    requires
        index.wf(),
        registry.wf(),
    ensures
        text::contents(r@) == shadow_texts(index@.rules_on(id@), registry@, *names),
{
    let rules = index.rules_on(id);
    let ghost all = index@.rules_on(id@);
    let mut labels: Vec<String> = Vec::new();
    let mut i: usize = 0;
    proof {
        assert(all.take(0) =~= Seq::empty());
        assert(text::contents(labels@) =~= Seq::empty());
    }
    while i < rules.len()
        invariant
            i <= rules@.len(),
            registry.wf(),
            all == bind::rule_views(rules@),
            text::contents(labels@) == shadow_texts(all.take(i as int), registry@, *names),
        decreases rules@.len() - i,
    {
        let rule = rules[i];
        proof {
            let head = all.take(i + 1);
            assert(head.drop_last() =~= all.take(i as int));
            assert(head.last() == all[i as int]);
            assert(all[i as int] == rule@);
        }
        if rule.physical && rule.lhs.len() == 1 && matches!(rule.lhs[0].key, Key::Char(_)) {
            let mut label = String::new();
            label.append(names.text(rule.lhs[0]));
            label.append(" -> ");
            push_target(&mut label, &rule.target, registry);
            let ghost words = shadow_text(rule@, registry@, *names);
            assert(label@ =~= words);
            let ghost before = labels@;
            labels.push(label);
            assert(text::contents(labels@) =~= text::contents(before).push(words));
        }
        i = i + 1;
    }
    assert(all.take(i as int) =~= all);
    labels
}

/// Append pieces of text with commas between them.
fn push_labels(out: &mut String, labels: &Vec<String>)
    ensures
        final(out)@ == old(out)@ + text::joined(text::contents(labels@), ", "@),
{
    let mut parts: Vec<&str> = Vec::new();
    let mut i: usize = 0;
    while i < labels.len()
        invariant
            i <= labels@.len(),
            parts@.len() == i,
            forall|j: int| 0 <= j < i ==> (#[trigger] parts@[j])@ == labels@[j]@,
        decreases labels@.len() - i,
    {
        parts.push(labels[i].as_str());
        i = i + 1;
    }
    assert(text::views(parts@) =~= text::contents(labels@));
    push_joined(out, &parts, ", ");
}

/// Append the line of a surface that waits for more keys after this one.
#[verifier::spinoff_prover]
fn push_reserved(
    out: &mut String,
    index: &BindingIndex,
    names: &KeyNames,
    id: SurfaceId,
    key: KeyEvent,
)
    requires
        index.wf(),
    ensures
        final(out)@ == old(out)@ + reserved_text(index@, *names, id, key),
{
    out.append("  ");
    out.append(id);
    out.append(": RESERVED — ");
    out.append(names.text(key));
    out.append(" is consumed bare here and the plugin waits timeoutlen for: ");
    let rules = index.sequences_from(id, key);
    push_sequences(out, names, &rules);
    out.append("\n");
    assert(out@ =~= old(out)@ + reserved_text(index@, *names, id, key));
}

/// Append the line of a rule that the key leads to.
#[verifier::spinoff_prover]
fn push_reached(
    out: &mut String,
    rule: &Rule,
    registry: &ActionRegistry,
    offered: Caps,
    names: &KeyNames,
    id: SurfaceId,
    key: KeyEvent,
)
    requires
        registry.wf(),
    ensures
        final(out)@ == old(out)@ + reached_text(rule@, registry@, offered, *names, id, key),
{
    let ghost start = out@;
    out.append("  ");
    out.append(id);
    out.append(": ");
    push_rule(out, rule, registry, names);
    out.append(" via ");
    out.append(names.text(key));
    let ghost first = "  "@ + id@ + ": "@ + rule_text(rule@, registry@, *names) + " via "@
        + names.spec_text(key);
    assert(out@ =~= start + first);
    out.append(" -> ");
    push_verdict(out, rule, registry, offered);
    out.append("\n");
    assert(out@ =~= start + reached_text(rule@, registry@, offered, *names, id, key));
}

/// Append the line of the rules that other keys reach by position.
fn push_shadows(out: &mut String, id: SurfaceId, labels: &Vec<String>)
    ensures
        final(out)@ == old(out)@ + shadows_text(id, text::contents(labels@)),
{
    out.append("  ");
    out.append(id);
    out.append(": reachable positionally from another physical key on non-QWERTY layouts: ");
    push_labels(out, labels);
    out.append("\n");
    assert(out@ =~= old(out)@ + shadows_text(id, text::contents(labels@)));
}

/// Append what one surface of the path makes of a key.
#[verifier::spinoff_prover]
fn push_candidates(
    out: &mut String,
    index: &BindingIndex,
    registry: &ActionRegistry,
    path: &SurfacePath,
    names: &KeyNames,
    id: SurfaceId,
    key: KeyEvent,
)
    requires
        index.wf(),
        registry.wf(),
    ensures
        final(out)@ == old(out)@ + candidates_text(index@, registry@, *path, *names, id, key),
{
    let ghost start = out@;
    // The reservation first: a reserved key never reaches the rule below.
    let reserved = index.is_reserved(id, key);
    if reserved {
        push_reserved(out, index, names, id, key);
    }
    let ghost first = when(reserved, reserved_text(index@, *names, id, key));
    assert(out@ =~= start + first);
    let one: [KeyEvent; 1] = [key];
    assert(one@ =~= seq![key]);
    match index.rule_for(id, &one) {
        Some(rule) => {
            push_reached(out, rule, registry, path.caps, names, id, key);
        },
        None => {
            if !reserved {
                out.append("  ");
                out.append(id);
                out.append(": no rule for this key\n");
            }
        },
    }
    let ghost second = match index@.rule_for(id@, seq![key]) {
        Some(rule) => reached_text(rule, registry@, path.caps, *names, id, key),
        None => when(!reserved, "  "@ + id@ + ": no rule for this key\n"@),
    };
    assert(out@ =~= start + first + second);
    let ghost shadows = shadow_texts(index@.rules_on(id@), registry@, *names);
    let positional = !path.anchor_refuses_positional && index.has_physical_rule(id);
    if positional {
        let labels = shadow_labels(index, registry, names, id);
        assert(labels@.len() == text::contents(labels@).len());
        if labels.len() > 0 {
            push_shadows(out, id, &labels);
        }
    }
    let ghost third = when(
        sees_guess(index@, *path, id) && shadows.len() > 0,
        shadows_text(id, shadows),
    );
    assert(out@ =~= start + first + second + third);
    assert(start + first + second + third =~= start + (first + second + third));
}

/// Append one candidate that runs.
#[verifier::spinoff_prover]
fn push_running(out: &mut String, c: &Candidate)
    ensures
        final(out)@ == old(out)@ + running_text(c@),
{
    out.append("runs: ");
    match &c.target {
        CandidateTarget::Action(_, spec) => {
            out.append(spec.id);
        },
        CandidateTarget::Shortcut(path) => {
            out.append("<Shortcut>(");
            out.append(as_text(path));
            out.append(") — NOT DISPATCHED, always declines");
        },
    }
    out.append(" on '");
    out.append(c.surface);
    out.append("'\n");
    out.append("consumption: ");
    match c.consume {
        Consumption::Void => {
            out.append(
                "consumed ALWAYS (void) — even if the action declines, and the walk stops",
            );
        },
        Consumption::Elastic => {
            out.append(
                "consumed only if the action accepts (elastic); otherwise Godot gets the key",
            );
        },
    }
    out.append("\n");
    push_when(
        out,
        c.repeat == Repeat::Suppress,
        "repeat: key-repeat echoes are consumed WITHOUT running the action\n",
    );
    assert(out@ =~= old(out)@ + running_text(c@));
}

/// Append one sentence for a stop reason.
fn push_stop(out: &mut String, stop: Stop, names: &KeyNames)
    ensures
        final(out)@ == old(out)@ + stop_text(stop, *names),
{
    match stop {
        Stop::Barrier => {
            out.append(
                "the anchor surface is a barrier (a foreign text input, or the editor in an insert-like mode). Nothing is ever intercepted there.",
            );
        },
        Stop::Sealed(surface) => {
            out.append("'");
            out.append(surface);
            out.append(
                "' is sealed and this key carries no Ctrl/Alt/Meta, so it stops at the anchor and reaches the control's own input handling. A modifier-bearing key would have continued to the forest root.",
            );
        },
        Stop::Native(surface) => {
            out.append("'");
            out.append(surface);
            out.append(
                "' binds this key to `native`, which hands it back to Godot and terminates the walk. `panelunmap` is the other verb: it removes the rule and lets the walk continue to the parent surface.",
            );
        },
        Stop::Yielded(key) => {
            out.append("the script editor has focus and the Vim engine claims ");
            out.append(names.text(key));
            out.append(
                " — your own `:map` wins. Remove the mapping, or bind the panel action to a different chord.",
            );
        },
        Stop::Exhausted => {
            out.append(
                "no surface on the stack binds this key, or every candidate was gated out by a missing capability (see above).",
            );
        },
    }
    assert(out@ =~= old(out)@ + stop_text(stop, *names));
}

/// One sentence per stop reason, each naming the fix.
pub fn explain_stop(stop: Stop, names: &KeyNames) -> (r: String)
    ensures
        r@ == stop_text(stop, *names),
{
    let mut out = String::new();
    push_stop(&mut out, stop, names);
    assert(Seq::<char>::empty() + stop_text(stop, *names) =~= stop_text(stop, *names));
    out
}

/// Append what happens to the key in the end.
#[verifier::spinoff_prover]
fn push_resolution(out: &mut String, r: &Resolution, names: &KeyNames)
    ensures
        final(out)@ == old(out)@ + resolution_text(*r, *names),
{
    match r {
        Resolution::Run { matched, candidates } => {
            out.append("matched: ");
            out.append(names.text(*matched));
            out.append("\n");
            let ghost head = out@;
            let ghost all = resolve::candidate_views(candidates@);
            let mut i: usize = 0;
            proof {
                assert(all.take(0) =~= Seq::empty());
                assert(head + Seq::<char>::empty() =~= head);
            }
            while i < candidates.len()
                invariant
                    i <= candidates@.len(),
                    all == resolve::candidate_views(candidates@),
                    out@ == head + all_running_text(all.take(i as int)),
                decreases candidates@.len() - i,
            {
                push_running(out, &candidates[i]);
                proof {
                    let some = all.take(i + 1);
                    assert(some.drop_last() =~= all.take(i as int));
                    assert(some.last() == all[i as int]);
                    assert(all[i as int] == candidates@[i as int]@);
                    assert(out@ =~= head + all_running_text(some));
                }
                i = i + 1;
            }
            assert(all.take(i as int) =~= all);
        },
        Resolution::Nothing(stop) => {
            out.append("nothing runs, and the key is NOT consumed.\n");
            out.append("reason: ");
            push_stop(out, *stop, names);
            out.append("\n");
        },
    }
    assert(out@ =~= old(out)@ + resolution_text(*r, *names));
}

/// Resolve one key against a chain and explain what happens to it.
///
/// `parsed` is what the editor engine's own notation parser makes of `lhs`,
/// and `facts` gives two facts in their owners' words. The report answers in
/// the order the model asks: where the focus is, what is above it, which rule
/// claims the key, and what becomes of the event.
#[verifier::spinoff_prover]
pub fn explain_report<F: Fn(KeyEvent) -> bool>(
    lhs: &str,
    parsed: &[KeyEvent],
    chain: &FocusChain,
    facts: &ChainFacts,
    path: &SurfacePath,
    index: &BindingIndex,
    registry: &ActionRegistry,
    vim_claims: F,
    names: &KeyNames,
) -> (r: String)
    requires
        index.wf(),
        registry.wf(),
        keys::lhs_of(lhs@, parsed@) matches Ok(keys) ==> forall|key: KeyEvent| #[trigger]
            resolve::is_asked(index@, registry@, *path, written(keys[0]), key) ==> call_requires(
                vim_claims,
                (key,),
            ),
    ensures
        match keys::lhs_of(lhs@, parsed@) {
            Err(fault) => r@ == title_text(lhs@) + "cannot parse '"@ + lhs@ + "': "@
                + fault.message() + "\n"@,
            Ok(keys) => exists|verdict: Resolution|
                {
                    let key = keys::canonical(keys[0]);
                    &&& #[trigger] resolve::is_verdict(
                        index@,
                        registry@,
                        *path,
                        written(keys[0]),
                        vim_claims,
                        verdict,
                    )
                    &&& r@ == explanation(
                        lhs@,
                        keys.len() > 1,
                        *chain,
                        *facts,
                        *path,
                        index@,
                        registry@,
                        *names,
                        key,
                        verdict,
                    )
                },
        },
{
    let mut out = String::new();
    out.append("--- panelmap ");
    out.append(lhs);
    out.append(" ---\n");
    assert(out@ =~= title_text(lhs@));
    proof {
        keys::loaded_lhs_is_live(lhs@, parsed@);
    }
    let keys = match parse_lhs(lhs, parsed) {
        Ok(keys) => keys,
        Err(e) => {
            out.append("cannot parse '");
            out.append(lhs);
            out.append("': ");
            e.write_to(&mut out);
            out.append("\n");
            return out;
        },
    };
    push_when(
        &mut out,
        keys.len() > 1,
        "a sequence resolves one keystroke at a time against the pending buffer; explaining the first key only\n",
    );
    // A written key is exactly one probe: there is no layout to derive another
    // from.
    let probes = Probes::from_key(keys[0]);
    let key: KeyEvent = keys::canonicalize(keys[0]);
    push_chain(&mut out, chain);
    push_facts(&mut out, chain, facts);
    push_path(&mut out, path);
    out.append("probes: ");
    out.append(names.text(key));
    out.append(
        " (as typed only — a real keystroke on a non-QWERTY layout also carries a Latin collapse and a US-QWERTY position, which a written LHS cannot derive)\n",
    );
    out.append("candidates:\n");
    let ghost setting = setting_text(lhs@, keys@.len() > 1, *chain, *facts, *path, *names, key);
    assert(out@ =~= setting);
    let mut i: usize = 0;
    assert(setting + Seq::<char>::empty() =~= setting);
    while i < path.ids.len()
        invariant
            i <= path.ids@.len(),
            index.wf(),
            registry.wf(),
            out@ == setting + stack_text(index@, registry@, *path, *names, key, i as int),
        decreases path.ids@.len() - i,
    {
        push_candidates(&mut out, index, registry, path, names, path.ids[i], key);
        assert(out@ =~= setting + stack_text(index@, registry@, *path, *names, key, i + 1));
        i = i + 1;
    }
    assert(probes@ =~= written(keys@[0]));
    let input = ResolveInput { probes: &probes, path, index, registry, vim_claims };
    let verdict = resolve::resolve(&input);
    push_resolution(&mut out, &verdict, names);
    out
}

// ── Laws ──────────────────────────────────────────────────────────────

/// The report calls a rule eligible exactly where resolving its entry runs a
/// verb: it never confirms a dead key, and it never hides a live one.
pub proof fn eligible_rules_are_the_ones_that_run(
    v: IndexView,
    registry: Seq<ActionSpec>,
    offered: Caps,
    surface: SurfaceId,
    entry: EntryView,
)
    requires
        v.rule_of(entry) is Some,
    ensures
        ({
            let said = verdict_text(v.rule_of(entry)->0, registry, offered);
            let hit = resolve::hit_of(v, registry, offered, surface, entry);
            text::begins_with(said, "eligible ("@) <==> (hit matches resolve::HitView::Run(c)
                && c.target is Action)
        }),
{
    reveal_strlit("eligible (");
    reveal_strlit("SKIPPED — ");
    reveal_strlit("SKIPPED (action not registered)");
    reveal_strlit("native — hands the key back and stops the walk");
    reveal_strlit("NOT DISPATCHED — editor shortcut ");
    let said = verdict_text(v.rule_of(entry)->0, registry, offered);
    let start = "eligible ("@;
    assert(start[0] == 'e');
    if text::begins_with(said, start) {
        assert(said.take(start.len() as int)[0] == said[0]);
    } else if said.len() >= start.len() && said[0] == 'e' {
        assert(said.take(start.len() as int) =~= start);
    }
}

} // verus!
