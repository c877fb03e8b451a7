//! What the reports say, line by line.

use vstd::prelude::*;
use vstd::string::*;
use crate::action::{ActionSpec, TargetView};
use crate::bind;
use crate::bind::{Consumption, IndexView, PanelDiagnostic, Repeat, RuleView};
use crate::caps;
use crate::caps::Caps;
use crate::introspect;
use crate::introspect::ChainFacts;
use crate::key::{KeyEvent, KeyNames};
use crate::keys;
use crate::resolve;
use crate::resolve::{CandidateTargetView, CandidateView, Resolution, Stop};
use crate::surface::{Anchor, ChainNode, FocusChain, SurfaceId, SurfacePath};
use crate::text;

verus! {

// ── Lines ─────────────────────────────────────────────────────────────

/// Whether a text has no newline in it.
#[verifier::opaque]
pub open spec fn plain(t: Seq<char>) -> bool {
    forall|i: int| 0 <= i < t.len() ==> t[i] != '\n'
}

/// Whether a line starts at a place of a text.
pub open spec fn is_line_start(t: Seq<char>, i: int) -> bool {
    i == 0 || t[i - 1] == '\n'
}

/// Whether some line of a text begins with some words.
pub open spec fn line_begins(t: Seq<char>, words: Seq<char>) -> bool {
    exists|i: int|
        {
            &&& 0 <= i
            &&& i + words.len() <= t.len()
            &&& #[trigger] is_line_start(t, i)
            &&& t.subrange(i, i + words.len()) == words
        }
}

/// Whether a text has some words as a line, or as several.
pub open spec fn has_line(t: Seq<char>, words: Seq<char>) -> bool {
    exists|i: int|
        {
            &&& 0 <= i
            &&& i + words.len() < t.len()
            &&& #[trigger] is_line_start(t, i)
            &&& t.subrange(i, i + words.len()) == words
            &&& t[i + words.len()] == '\n'
        }
}

/// Whether a text is made of whole lines, none of which begins with some words.
#[verifier::opaque]
pub open spec fn quiet(t: Seq<char>, words: Seq<char>) -> bool {
    &&& t.len() > 0 ==> t.last() == '\n'
    &&& !line_begins(t, words)
}

/// A text put together from two without a newline has none.
broadcast proof fn plain_sum(a: Seq<char>, b: Seq<char>)
    requires
        plain(a),
        plain(b),
    ensures
        #[trigger] plain(a + b),
{
    reveal(plain);
}

/// Lines after lines begin as they do by themselves.
broadcast proof fn quiet_sum(a: Seq<char>, b: Seq<char>, words: Seq<char>)
    requires
        quiet(a, words),
        quiet(b, words),
        plain(words),
        words.len() > 0,
    ensures
        #[trigger] quiet(a + b, words),
{
    reveal(quiet);
    reveal(plain);
    let t = a + b;
    if line_begins(t, words) {
        let i = choose|i: int|
            {
                &&& 0 <= i
                &&& i + words.len() <= t.len()
                &&& #[trigger] is_line_start(t, i)
                &&& t.subrange(i, i + words.len()) == words
            };
        if i < a.len() {
            if i + words.len() >= a.len() {
                assert(t.subrange(i, i + words.len())[a.len() - 1 - i] == a.last());
            }
            assert(is_line_start(a, i));
            assert(a.subrange(i, i + words.len()) =~= words);
        } else {
            let j = i - a.len();
            assert(is_line_start(b, j));
            assert(b.subrange(j, j + words.len()) =~= words);
        }
    }
}

/// No line at all begins with anything.
proof fn nothing_is_quiet(words: Seq<char>)
    requires
        words.len() > 0,
    ensures
        quiet(Seq::empty(), words),
{
    reveal(quiet);
}

/// One line begins as it begins: with nothing that differs from it at some
/// place.
proof fn a_line_is_quiet(start: Seq<char>, end: Seq<char>, words: Seq<char>, at: int)
    requires
        plain(start),
        end.len() > 0,
        end.last() == '\n',
        plain(end.drop_last()),
        0 <= at < start.len(),
        at < words.len(),
        start[at] != words[at],
    ensures
        quiet(start + end, words),
{
    reveal(quiet);
    reveal(plain);
    let t = start + end;
    if line_begins(t, words) {
        let i = choose|i: int|
            {
                &&& 0 <= i
                &&& i + words.len() <= t.len()
                &&& #[trigger] is_line_start(t, i)
                &&& t.subrange(i, i + words.len()) == words
            };
        assert(t.subrange(i, i + words.len())[at] == t[i + at]);
        if 0 < i <= start.len() {
            assert(t[i - 1] == start[i - 1]);
        }
        if start.len() < i {
            assert(t[i - 1] == end.drop_last()[i - 1 - start.len()]);
        }
    }
}

/// One line begins with its first character.
proof fn one_line_is_quiet(start: Seq<char>, end: Seq<char>, words: Seq<char>)
    requires
        plain(start),
        start.len() > 0,
        end.len() > 0,
        end.last() == '\n',
        plain(end.drop_last()),
        words.len() > 0,
        start[0] != words[0],
    ensures
        quiet(start + end, words),
{
    a_line_is_quiet(start, end, words, 0);
}

/// Words that stand as a line after whole lines are a line of the text.
proof fn a_line_after_lines(before: Seq<char>, words: Seq<char>, after: Seq<char>)
    requires
        before.len() > 0 ==> before.last() == '\n',
        after.len() > 0,
        after[0] == '\n',
    ensures
        has_line(before + words + after, words),
{
    let t = before + words + after;
    let i = before.len() as int;
    assert(is_line_start(t, i));
    assert(t.subrange(i, i + words.len()) =~= words);
    assert(t[i + words.len()] == after[0]);
}

// ── Pieces ────────────────────────────────────────────────────────────

/// Whether the texts of a rule have no newline in them.
pub open spec fn rule_is_plain(rule: RuleView) -> bool {
    &&& plain(rule.surface)
    &&& rule.target matches TargetView::Shortcut(path) ==> plain(path)
    &&& forall|i: int| 0 <= i < rule.params.len() ==> plain((#[trigger] rule.params[i]).0)
}

/// Whether the texts of a node have no newline in them.
pub open spec fn node_is_plain(node: ChainNode) -> bool {
    plain(text::compact_text(node.class)) && plain(text::compact_text(node.name))
}

/// Whether the names that a report can print have no newline in them.
pub open spec fn names_are_plain(
    v: IndexView,
    registry: Seq<ActionSpec>,
    path: SurfacePath,
    names: KeyNames,
) -> bool {
    &&& forall|k: KeyEvent| plain(#[trigger] names.spec_text(k))
    &&& forall|i: int| 0 <= i < registry.len() ==> plain((#[trigger] registry[i]).id@)
    &&& forall|i: int| 0 <= i < path.ids@.len() ==> plain((#[trigger] path.ids@[i])@)
    &&& forall|i: int| 0 <= i < v.arena.len() ==> rule_is_plain(#[trigger] v.arena[i])
}

proof fn nothing_is_plain()
    ensures
        plain(Seq::empty()),
{
    reveal(plain);
}

proof fn decimals_are_plain(n: nat)
    ensures
        plain(text::decimal(n)),
        text::decimal(n).len() > 0,
    decreases n,
{
    reveal(plain);
    if n >= 10 {
        decimals_are_plain(n / 10);
    }
}

proof fn signed_decimals_are_plain(n: int)
    ensures
        plain(text::signed_decimal(n)),
{
    broadcast use plain_sum;

    if n < 0 {
        decimals_are_plain((-n) as nat);
        assert(plain(seq!['-'])) by {
            reveal(plain);
        }
    } else {
        decimals_are_plain(n as nat);
    }
}

proof fn joined_is_plain(parts: Seq<Seq<char>>, sep: Seq<char>)
    requires
        plain(sep),
        forall|i: int| 0 <= i < parts.len() ==> plain(#[trigger] parts[i]),
    ensures
        plain(text::joined(parts, sep)),
    decreases parts.len(),
{
    broadcast use plain_sum;

    if parts.len() == 0 {
        nothing_is_plain();
    } else if parts.len() > 1 {
        let init = parts.drop_last();
        assert forall|i: int| 0 <= i < init.len() implies plain(#[trigger] init[i]) by {
            assert(init[i] == parts[i]);
        }
        joined_is_plain(init, sep);
        assert(plain(parts[parts.len() - 1]));
    }
}

proof fn caps_are_plain(c: Caps)
    ensures
        plain(caps::caps_text(c)),
{
    broadcast use plain_sum;

    reveal_strlit("Caps(");
    reveal_strlit("0x0");
    reveal_strlit(")");
    reveal_strlit(" | ");
    reveal_strlit("VNAV");
    reveal_strlit("HIERARCHY");
    reveal_strlit("ACTIVATE");
    reveal_strlit("TEXTENTRY");
    reveal_strlit("FILEOPS");
    assert(plain("Caps("@) && plain("0x0"@) && plain(")"@) && plain(" | "@)) by {
        reveal(plain);
    }
    assert(plain("VNAV"@) && plain("HIERARCHY"@) && plain("ACTIVATE"@) && plain("TEXTENTRY"@)
        && plain("FILEOPS"@)) by {
        reveal(plain);
    }
    let parts = caps::flag_names(c);
    assert forall|i: int| 0 <= i < parts.len() implies plain(#[trigger] parts[i]) by {}
    joined_is_plain(parts, " | "@);
}

proof fn keys_are_plain(names: KeyNames, keys: Seq<KeyEvent>)
    requires
        forall|k: KeyEvent| plain(#[trigger] names.spec_text(k)),
    ensures
        plain(introspect::keys_text(names, keys)),
    decreases keys.len(),
{
    broadcast use plain_sum;

    if keys.len() == 0 {
        nothing_is_plain();
    } else {
        keys_are_plain(names, keys.drop_last());
    }
}

proof fn targets_are_plain(target: TargetView, registry: Seq<ActionSpec>)
    requires
        forall|i: int| 0 <= i < registry.len() ==> plain((#[trigger] registry[i]).id@),
        target matches TargetView::Shortcut(path) ==> plain(path),
    ensures
        plain(introspect::target_text(target, registry)),
{
    broadcast use plain_sum;

    reveal_strlit("native");
    reveal_strlit("<Shortcut>(");
    reveal_strlit(")");
    reveal_strlit("<unregistered>");
    assert(plain("native"@) && plain("<Shortcut>("@) && plain(")"@) && plain("<unregistered>"@)) by {
        reveal(plain);
    }
}

proof fn params_are_plain(params: Seq<(Seq<char>, i64)>)
    requires
        forall|i: int| 0 <= i < params.len() ==> plain((#[trigger] params[i]).0),
    ensures
        plain(introspect::params_text(params)),
    decreases params.len(),
{
    broadcast use plain_sum;

    if params.len() == 0 {
        nothing_is_plain();
    } else {
        let init = params.drop_last();
        assert forall|i: int| 0 <= i < init.len() implies plain((#[trigger] init[i]).0) by {
            assert(init[i] == params[i]);
        }
        params_are_plain(init);
        signed_decimals_are_plain(params.last().1 as int);
        reveal_strlit(" ");
        reveal_strlit("=");
        assert(plain(" "@) && plain("="@)) by {
            reveal(plain);
        }
        assert(plain(params[params.len() - 1].0));
    }
}

proof fn rules_are_plain(rule: RuleView, registry: Seq<ActionSpec>, names: KeyNames)
    requires
        forall|k: KeyEvent| plain(#[trigger] names.spec_text(k)),
        forall|i: int| 0 <= i < registry.len() ==> plain((#[trigger] registry[i]).id@),
        rule_is_plain(rule),
    ensures
        plain(introspect::rule_text(rule, registry, names)),
{
    broadcast use plain_sum;

    reveal_strlit("panelmap");
    reveal_strlit(" ");
    reveal_strlit(" <physical>");
    reveal_strlit(" <void>");
    reveal_strlit(" <norepeat>");
    reveal_strlit(" <shift>");
    reveal_strlit(" <nowait>");
    assert(plain("panelmap"@) && plain(" "@)) by {
        reveal(plain);
    }
    assert(plain(" <physical>"@) && plain(" <void>"@) && plain(" <norepeat>"@) && plain(
        " <shift>"@,
    ) && plain(" <nowait>"@)) by {
        reveal(plain);
    }
    nothing_is_plain();
    keys_are_plain(names, rule.lhs);
    targets_are_plain(rule.target, registry);
    params_are_plain(rule.params);
}

proof fn verdicts_are_plain(rule: RuleView, registry: Seq<ActionSpec>, offered: Caps)
    requires
        forall|i: int| 0 <= i < registry.len() ==> plain((#[trigger] registry[i]).id@),
        rule_is_plain(rule),
    ensures
        plain(introspect::verdict_text(rule, registry, offered)),
{
    broadcast use plain_sum;

    reveal_strlit("eligible (");
    reveal_strlit(")");
    reveal_strlit("SKIPPED — ");
    reveal_strlit(" needs ");
    reveal_strlit(", path offers ");
    reveal_strlit("SKIPPED (action not registered)");
    reveal_strlit("native — hands the key back and stops the walk");
    reveal_strlit("NOT DISPATCHED — editor shortcut ");
    reveal_strlit(" always declines");
    assert(plain("eligible ("@) && plain(")"@) && plain("SKIPPED — "@) && plain(" needs "@)
        && plain(", path offers "@)) by {
        reveal(plain);
    }
    assert(plain("SKIPPED (action not registered)"@) && plain(
        "native — hands the key back and stops the walk"@,
    ) && plain("NOT DISPATCHED — editor shortcut "@) && plain(" always declines"@)) by {
        reveal(plain);
    }
    caps_are_plain(offered);
    if let TargetView::Action(id) = rule.target {
        if id.0 < registry.len() {
            caps_are_plain(registry[id.0 as int].requires);
        }
    }
}

/// What is kept of a list was in it.
proof fn kept_items_were_there<T>(items: Seq<T>, p: spec_fn(T) -> bool)
    ensures
        forall|i: int|
            0 <= i < items.filter(p).len() ==> items.contains(#[trigger] items.filter(p)[i]),
    decreases items.len(),
{
    reveal(Seq::filter);
    if items.len() > 0 {
        let init = items.drop_last();
        kept_items_were_there(init, p);
        assert forall|i: int| 0 <= i < items.filter(p).len() implies items.contains(
            #[trigger] items.filter(p)[i],
        ) by {
            if i < init.filter(p).len() {
                let x = init.filter(p)[i];
                let j = choose|j: int| 0 <= j < init.len() && init[j] == x;
                assert(items[j] == x);
                assert(items.filter(p)[i] == x);
            } else {
                assert(items[items.len() - 1] == items.filter(p)[i]);
            }
        }
    }
}

/// Every live rule is one of the arena.
proof fn live_rules_are_of_the_arena(slots: Seq<Option<u32>>, arena: Seq<RuleView>)
    ensures
        forall|i: int|
            0 <= i < bind::live_rules(slots, arena).len() ==> arena.contains(
                #[trigger] bind::live_rules(slots, arena)[i],
            ),
    decreases slots.len(),
{
    if slots.len() > 0 {
        let init = slots.drop_last();
        live_rules_are_of_the_arena(init, arena);
        let some = bind::live_rules(init, arena);
        let all = bind::live_rules(slots, arena);
        assert forall|i: int| 0 <= i < all.len() implies arena.contains(#[trigger] all[i]) by {
            if i < some.len() {
                assert(all[i] == some[i]);
            } else {
                let a = slots.last()->0;
                assert(arena[a as int] == all[i]);
            }
        }
    }
}

/// The rules of a surface have plain texts where all rules have.
proof fn surface_rules_are_plain(v: IndexView, id: Seq<char>)
    requires
        forall|i: int| 0 <= i < v.arena.len() ==> rule_is_plain(#[trigger] v.arena[i]),
    ensures
        forall|i: int| 0 <= i < v.rules_on(id).len() ==> rule_is_plain(#[trigger] v.rules_on(id)[i]),
{
    live_rules_are_of_the_arena(v.slots, v.arena);
    let p = |r: RuleView| r.surface == id;
    kept_items_were_there(v.rules(), p);
    assert(v.rules_on(id) == v.rules().filter(p));
    assert forall|i: int| 0 <= i < v.rules_on(id).len() implies rule_is_plain(
        #[trigger] v.rules_on(id)[i],
    ) by {
        let x = v.rules_on(id)[i];
        assert(v.rules().contains(x));
        let j = choose|j: int| 0 <= j < v.rules().len() && v.rules()[j] == x;
        assert(v.arena.contains(v.rules()[j]));
        let k = choose|k: int| 0 <= k < v.arena.len() && v.arena[k] == x;
        assert(rule_is_plain(v.arena[k]));
    }
}

proof fn sequences_are_plain(v: IndexView, id: Seq<char>, names: KeyNames, key: KeyEvent)
    requires
        forall|k: KeyEvent| plain(#[trigger] names.spec_text(k)),
    ensures
        plain(introspect::sequences_text(v, id, names, key)),
{
    let rules = v.rules_on(id).filter(|r: RuleView| bind::is_sequence_from(r.lhs, key));
    let parts = introspect::lhs_texts(names, rules);
    assert forall|i: int| 0 <= i < parts.len() implies plain(#[trigger] parts[i]) by {
        keys_are_plain(names, rules[i].lhs);
    }
    reveal_strlit(", ");
    assert(plain(", "@)) by {
        reveal(plain);
    }
    joined_is_plain(parts, ", "@);
}

proof fn shadows_are_plain(rules: Seq<RuleView>, registry: Seq<ActionSpec>, names: KeyNames)
    requires
        forall|k: KeyEvent| plain(#[trigger] names.spec_text(k)),
        forall|i: int| 0 <= i < registry.len() ==> plain((#[trigger] registry[i]).id@),
        forall|i: int| 0 <= i < rules.len() ==> rule_is_plain(#[trigger] rules[i]),
    ensures
        forall|i: int|
            0 <= i < introspect::shadow_texts(rules, registry, names).len() ==> plain(
                #[trigger] introspect::shadow_texts(rules, registry, names)[i],
            ),
    decreases rules.len(),
{
    if rules.len() > 0 {
        let init = rules.drop_last();
        assert forall|i: int| 0 <= i < init.len() implies rule_is_plain(#[trigger] init[i]) by {
            assert(init[i] == rules[i]);
        }
        shadows_are_plain(init, registry, names);
        let last = rules.last();
        assert(rule_is_plain(rules[rules.len() - 1]));
        assert(plain(introspect::shadow_text(last, registry, names))) by {
            broadcast use plain_sum;

            targets_are_plain(last.target, registry);
            reveal_strlit(" -> ");
            assert(plain(" -> "@)) by {
                reveal(plain);
            }
        }
        let some = introspect::shadow_texts(init, registry, names);
        let all = introspect::shadow_texts(rules, registry, names);
        assert forall|i: int| 0 <= i < all.len() implies plain(#[trigger] all[i]) by {
            if i < some.len() {
                assert(all[i] == some[i]);
            }
        }
    }
}

// ── The explanation ───────────────────────────────────────────────────

/// Whether no line before the verdict can begin with some words, by their first
/// character.
pub open spec fn is_verdict_word(words: Seq<char>) -> bool {
    &&& plain(words)
    &&& words.len() > 0
    &&& words[0] != '-' && words[0] != ' ' && words[0] != 'a' && words[0] != 'c' && words[0] != 'f'
    &&& words[0] != 'p' && words[0] != 's'
}

/// A newline ends a line.
proof fn a_newline()
    ensures
        "\n"@.len() > 0,
        "\n"@[0] == '\n',
        "\n"@.last() == '\n',
        plain("\n"@.drop_last()),
{
    reveal_strlit("\n");
    reveal(plain);
}

#[verifier::spinoff_prover]
proof fn node_line_is_quiet(node: ChainNode, n: nat, words: Seq<char>)
    requires
        node_is_plain(node),
        is_verdict_word(words),
    ensures
        quiet(
            "  ["@ + text::decimal(n) + "] "@ + text::compact_text(node.class) + " ("@
                + text::compact_text(node.name) + ")\n"@,
            words,
        ),
{
    broadcast use plain_sum;

    reveal_strlit("  [");
    reveal_strlit("] ");
    reveal_strlit(" (");
    reveal_strlit(")\n");
    assert(plain("  ["@) && plain("] "@) && plain(" ("@) && plain(")\n"@.drop_last())) by {
        reveal(plain);
    }
    decimals_are_plain(n);
    one_line_is_quiet(
        "  ["@ + text::decimal(n) + "] "@ + text::compact_text(node.class) + " ("@
            + text::compact_text(node.name),
        ")\n"@,
        words,
    );
}

#[verifier::spinoff_prover]
proof fn nodes_are_quiet(nodes: Seq<ChainNode>, n: int, words: Seq<char>)
    requires
        0 <= n <= nodes.len(),
        forall|i: int| 0 <= i < nodes.len() ==> node_is_plain(#[trigger] nodes[i]),
        is_verdict_word(words),
    ensures
        quiet(introspect::nodes_text(nodes, n), words),
    decreases n,
{
    if n == 0 {
        nothing_is_quiet(words);
    } else {
        nodes_are_quiet(nodes, n - 1, words);
        let node = nodes[n - 1];
        let before = introspect::nodes_text(nodes, n - 1);
        let line = "  ["@ + text::decimal((n - 1) as nat) + "] "@ + text::compact_text(node.class)
            + " ("@ + text::compact_text(node.name) + ")\n"@;
        node_line_is_quiet(node, (n - 1) as nat, words);
        quiet_sum(before, line, words);
        assert(introspect::nodes_text(nodes, n) =~= before + line);
    }
}

#[verifier::spinoff_prover]
proof fn chain_is_quiet(chain: FocusChain, words: Seq<char>)
    requires
        forall|i: int| 0 <= i < chain.nodes@.len() ==> node_is_plain(#[trigger] chain.nodes@[i]),
        is_verdict_word(words),
    ensures
        quiet(introspect::chain_text(chain), words),
{
    broadcast use quiet_sum;

    reveal_strlit("focus chain (leaf first):\n");
    reveal_strlit("  <no focus owner>\n");
    whole_line_is_quiet("focus chain (leaf first):\n"@, words);
    whole_line_is_quiet("  <no focus owner>\n"@, words);
    nodes_are_quiet(chain.nodes@, chain.nodes@.len() as int, words);
}

/// A text that is one line begins with its first character.
proof fn whole_line_is_quiet(t: Seq<char>, words: Seq<char>)
    requires
        t.len() > 1,
        t.last() == '\n',
        forall|i: int| 0 <= i < t.len() - 1 ==> t[i] != '\n',
        words.len() > 0,
        t[0] != words[0],
    ensures
        quiet(t, words),
{
    let start = t.drop_last();
    let end = seq!['\n'];
    assert(plain(start) && plain(end.drop_last())) by {
        reveal(plain);
    }
    one_line_is_quiet(start, end, words);
    assert(start + end =~= t);
}

proof fn bools_are_plain(b: bool)
    ensures
        plain(introspect::bool_text(b)),
{
    reveal_strlit("true");
    reveal_strlit("false");
    reveal(plain);
}

#[verifier::spinoff_prover]
proof fn facts_are_quiet(chain: FocusChain, facts: ChainFacts, words: Seq<char>)
    requires
        plain(facts.attached_editor@),
        plain(facts.editor_mode@),
        is_verdict_word(words),
    ensures
        quiet(introspect::facts_text(chain, facts), words),
{
    broadcast use plain_sum;

    reveal_strlit("facts: attached_editor=");
    reveal_strlit(" mode=");
    reveal_strlit(" in_filesystem_dock=");
    reveal_strlit(" sibling_nav=");
    reveal_strlit(" prompt=");
    assert(plain("facts: attached_editor="@) && plain(" mode="@) && plain(" in_filesystem_dock="@)
        && plain(" sibling_nav="@) && plain(" prompt="@)) by {
        reveal(plain);
    }
    bools_are_plain(chain.in_filesystem_dock);
    bools_are_plain(chain.sibling_nav_control is Some);
    bools_are_plain(chain.is_plugin_prompt);
    a_newline();
    one_line_is_quiet(
        "facts: attached_editor="@ + facts.attached_editor@ + " mode="@ + facts.editor_mode@
            + " in_filesystem_dock="@ + introspect::bool_text(chain.in_filesystem_dock)
            + " sibling_nav="@ + introspect::bool_text(chain.sibling_nav_control is Some)
            + " prompt="@ + introspect::bool_text(chain.is_plugin_prompt),
        "\n"@,
        words,
    );
}

#[verifier::spinoff_prover]
proof fn ids_are_quiet(path: SurfacePath, words: Seq<char>)
    requires
        forall|i: int| 0 <= i < path.ids@.len() ==> plain((#[trigger] path.ids@[i])@),
        is_verdict_word(words),
    ensures
        quiet(introspect::ids_text(path), words),
{
    broadcast use plain_sum;

    reveal_strlit("surface stack (deepest first): ");
    reveal_strlit(" -> ");
    assert(plain("surface stack (deepest first): "@) && plain(" -> "@)) by {
        reveal(plain);
    }
    let parts = text::views(path.ids@);
    assert forall|i: int| 0 <= i < parts.len() implies plain(#[trigger] parts[i]) by {
        assert(parts[i] == path.ids@[i]@);
    }
    joined_is_plain(parts, " -> "@);
    a_newline();
    one_line_is_quiet(
        "surface stack (deepest first): "@ + text::joined(parts, " -> "@),
        "\n"@,
        words,
    );
}

#[verifier::spinoff_prover]
proof fn offer_is_quiet(path: SurfacePath, words: Seq<char>)
    requires
        is_verdict_word(words),
    ensures
        quiet(introspect::offer_text(path), words),
{
    broadcast use plain_sum;

    reveal_strlit("anchor: ");
    reveal_strlit("  caps: ");
    reveal_strlit("  seal: ");
    reveal_strlit("  yields_to_engine: ");
    reveal_strlit("  refuses_positional: ");
    reveal_strlit("chain[");
    reveal_strlit("]");
    reveal_strlit("rootless (no focus owner)");
    reveal_strlit("Open");
    reveal_strlit("Sealed");
    reveal_strlit("Barrier");
    assert(plain("anchor: "@) && plain("  caps: "@) && plain("  seal: "@) && plain(
        "  yields_to_engine: "@,
    ) && plain("  refuses_positional: "@)) by {
        reveal(plain);
    }
    assert(plain("chain["@) && plain("]"@) && plain("rootless (no focus owner)"@)) by {
        reveal(plain);
    }
    assert(plain(introspect::seal_text(path.seal))) by {
        reveal(plain);
    }
    if let Anchor::Node(i) = path.anchor {
        decimals_are_plain(i as nat);
    }
    assert(plain(introspect::anchor_text(path.anchor)));
    caps_are_plain(path.caps);
    bools_are_plain(path.anchor_yields_to_engine);
    bools_are_plain(path.anchor_refuses_positional);
    a_newline();
    one_line_is_quiet(
        "anchor: "@ + introspect::anchor_text(path.anchor) + "  caps: "@ + caps::caps_text(
            path.caps,
        ) + "  seal: "@ + introspect::seal_text(path.seal) + "  yields_to_engine: "@
            + introspect::bool_text(path.anchor_yields_to_engine) + "  refuses_positional: "@
            + introspect::bool_text(path.anchor_refuses_positional),
        "\n"@,
        words,
    );
}

#[verifier::spinoff_prover]
proof fn probes_are_quiet(names: KeyNames, key: KeyEvent, words: Seq<char>)
    requires
        forall|k: KeyEvent| plain(#[trigger] names.spec_text(k)),
        is_verdict_word(words),
    ensures
        quiet(introspect::probes_text(names, key), words),
{
    broadcast use plain_sum;

    reveal_strlit("probes: ");
    reveal_strlit(
        " (as typed only — a real keystroke on a non-QWERTY layout also carries a Latin collapse and a US-QWERTY position, which a written LHS cannot derive)\n",
    );
    let end =
        " (as typed only — a real keystroke on a non-QWERTY layout also carries a Latin collapse and a US-QWERTY position, which a written LHS cannot derive)\n"@;
    assert(plain("probes: "@) && plain(end.drop_last())) by {
        reveal(plain);
    }
    one_line_is_quiet("probes: "@ + names.spec_text(key), end, words);
}

/// What stands before the candidates begins no line as the verdict does.
#[verifier::spinoff_prover]
proof fn setting_is_quiet(
    lhs: Seq<char>,
    sequence: bool,
    chain: FocusChain,
    facts: ChainFacts,
    path: SurfacePath,
    names: KeyNames,
    key: KeyEvent,
    words: Seq<char>,
)
    requires
        plain(lhs),
        plain(facts.attached_editor@),
        plain(facts.editor_mode@),
        forall|i: int| 0 <= i < chain.nodes@.len() ==> node_is_plain(#[trigger] chain.nodes@[i]),
        forall|k: KeyEvent| plain(#[trigger] names.spec_text(k)),
        forall|i: int| 0 <= i < path.ids@.len() ==> plain((#[trigger] path.ids@[i])@),
        is_verdict_word(words),
    ensures
        quiet(introspect::setting_text(lhs, sequence, chain, facts, path, names, key), words),
{
    broadcast use quiet_sum;

    assert(quiet(introspect::title_text(lhs), words)) by {
        reveal_strlit("--- panelmap ");
        reveal_strlit(" ---\n");
        assert(plain("--- panelmap "@) && plain(" ---\n"@.drop_last())) by {
            reveal(plain);
        }
        plain_sum("--- panelmap "@, lhs);
        one_line_is_quiet("--- panelmap "@ + lhs, " ---\n"@, words);
    }
    let notice =
        "a sequence resolves one keystroke at a time against the pending buffer; explaining the first key only\n"@;
    assert(quiet(introspect::when(sequence, notice), words)) by {
        reveal_strlit(
            "a sequence resolves one keystroke at a time against the pending buffer; explaining the first key only\n",
        );
        whole_line_is_quiet(notice, words);
        nothing_is_quiet(words);
    }
    chain_is_quiet(chain, words);
    facts_are_quiet(chain, facts, words);
    ids_are_quiet(path, words);
    offer_is_quiet(path, words);
    assert(quiet(introspect::path_text(path), words));
    probes_are_quiet(names, key, words);
    assert(quiet("candidates:\n"@, words)) by {
        reveal_strlit("candidates:\n");
        whole_line_is_quiet("candidates:\n"@, words);
    }
}

#[verifier::spinoff_prover]
proof fn reserved_is_quiet(
    v: IndexView,
    names: KeyNames,
    id: SurfaceId,
    key: KeyEvent,
    words: Seq<char>,
)
    requires
        forall|k: KeyEvent| plain(#[trigger] names.spec_text(k)),
        plain(id@),
        is_verdict_word(words),
    ensures
        quiet(introspect::reserved_text(v, names, id, key), words),
{
    broadcast use plain_sum;

    reveal_strlit("  ");
    reveal_strlit(": RESERVED — ");
    reveal_strlit(" is consumed bare here and the plugin waits timeoutlen for: ");
    assert(plain("  "@) && plain(": RESERVED — "@) && plain(
        " is consumed bare here and the plugin waits timeoutlen for: "@,
    )) by {
        reveal(plain);
    }
    sequences_are_plain(v, id@, names, key);
    a_newline();
    one_line_is_quiet(
        "  "@ + id@ + ": RESERVED — "@ + names.spec_text(key)
            + " is consumed bare here and the plugin waits timeoutlen for: "@
            + introspect::sequences_text(v, id@, names, key),
        "\n"@,
        words,
    );
}

#[verifier::spinoff_prover]
proof fn reached_is_quiet(
    rule: RuleView,
    registry: Seq<ActionSpec>,
    offered: Caps,
    names: KeyNames,
    id: SurfaceId,
    key: KeyEvent,
    words: Seq<char>,
)
    requires
        forall|k: KeyEvent| plain(#[trigger] names.spec_text(k)),
        forall|i: int| 0 <= i < registry.len() ==> plain((#[trigger] registry[i]).id@),
        rule_is_plain(rule),
        plain(id@),
        is_verdict_word(words),
    ensures
        quiet(introspect::reached_text(rule, registry, offered, names, id, key), words),
{
    broadcast use plain_sum;

    reveal_strlit("  ");
    reveal_strlit(": ");
    reveal_strlit(" via ");
    reveal_strlit(" -> ");
    assert(plain("  "@) && plain(": "@) && plain(" via "@) && plain(" -> "@)) by {
        reveal(plain);
    }
    rules_are_plain(rule, registry, names);
    verdicts_are_plain(rule, registry, offered);
    a_newline();
    one_line_is_quiet(
        "  "@ + id@ + ": "@ + introspect::rule_text(rule, registry, names) + " via "@
            + names.spec_text(key) + " -> "@ + introspect::verdict_text(rule, registry, offered),
        "\n"@,
        words,
    );
}

#[verifier::spinoff_prover]
proof fn shadows_are_quiet(id: SurfaceId, shadows: Seq<Seq<char>>, words: Seq<char>)
    requires
        forall|i: int| 0 <= i < shadows.len() ==> plain(#[trigger] shadows[i]),
        plain(id@),
        is_verdict_word(words),
    ensures
        quiet(introspect::shadows_text(id, shadows), words),
{
    broadcast use plain_sum;

    reveal_strlit("  ");
    reveal_strlit(": reachable positionally from another physical key on non-QWERTY layouts: ");
    reveal_strlit(", ");
    assert(plain("  "@) && plain(
        ": reachable positionally from another physical key on non-QWERTY layouts: "@,
    ) && plain(", "@)) by {
        reveal(plain);
    }
    joined_is_plain(shadows, ", "@);
    a_newline();
    one_line_is_quiet(
        "  "@ + id@ + ": reachable positionally from another physical key on non-QWERTY layouts: "@
            + text::joined(shadows, ", "@),
        "\n"@,
        words,
    );
}

#[verifier::spinoff_prover]
proof fn unbound_is_quiet(id: SurfaceId, words: Seq<char>)
    requires
        plain(id@),
        is_verdict_word(words),
    ensures
        quiet("  "@ + id@ + ": no rule for this key\n"@, words),
{
    broadcast use plain_sum;

    reveal_strlit("  ");
    reveal_strlit(": no rule for this key\n");
    let end = ": no rule for this key\n"@;
    assert(plain("  "@) && plain(end.drop_last())) by {
        reveal(plain);
    }
    one_line_is_quiet("  "@ + id@, end, words);
}

/// What a surface makes of a key begins no line as the verdict does.
#[verifier::spinoff_prover]
proof fn candidates_are_quiet(
    v: IndexView,
    registry: Seq<ActionSpec>,
    path: SurfacePath,
    names: KeyNames,
    id: SurfaceId,
    key: KeyEvent,
    words: Seq<char>,
)
    requires
        names_are_plain(v, registry, path, names),
        plain(id@),
        is_verdict_word(words),
    ensures
        quiet(introspect::candidates_text(v, registry, path, names, id, key), words),
{
    broadcast use quiet_sum;

    nothing_is_quiet(words);
    reserved_is_quiet(v, names, id, key, words);
    unbound_is_quiet(id, words);
    if let Some(rule) = v.rule_for(id@, seq![key]) {
        assert(v.arena.contains(rule));
        let k = choose|k: int| 0 <= k < v.arena.len() && v.arena[k] == rule;
        assert(rule_is_plain(v.arena[k]));
        reached_is_quiet(rule, registry, path.caps, names, id, key, words);
    }
    surface_rules_are_plain(v, id@);
    let shadows = introspect::shadow_texts(v.rules_on(id@), registry, names);
    shadows_are_plain(v.rules_on(id@), registry, names);
    shadows_are_quiet(id, shadows, words);
}

#[verifier::spinoff_prover]
proof fn stack_is_quiet(
    v: IndexView,
    registry: Seq<ActionSpec>,
    path: SurfacePath,
    names: KeyNames,
    key: KeyEvent,
    n: int,
    words: Seq<char>,
)
    requires
        names_are_plain(v, registry, path, names),
        0 <= n <= path.ids@.len(),
        is_verdict_word(words),
    ensures
        quiet(introspect::stack_text(v, registry, path, names, key, n), words),
    decreases n,
{
    if n == 0 {
        nothing_is_quiet(words);
    } else {
        stack_is_quiet(v, registry, path, names, key, n - 1, words);
        candidates_are_quiet(v, registry, path, names, path.ids@[n - 1], key, words);
        quiet_sum(
            introspect::stack_text(v, registry, path, names, key, n - 1),
            introspect::candidates_text(v, registry, path, names, path.ids@[n - 1], key),
            words,
        );
    }
}

// ── The verdict ───────────────────────────────────────────────────────

/// The line of a candidate that runs.
pub open spec fn running_line(c: CandidateView) -> Seq<char> {
    "runs: "@ + (match c.target {
        CandidateTargetView::Action(_, spec) => spec.id@,
        CandidateTargetView::Shortcut(path) => "<Shortcut>("@ + path
            + ") — NOT DISPATCHED, always declines"@,
    }) + " on '"@ + c.surface@ + "'"@
}

/// What is said of a candidate that runs, after its line.
pub open spec fn policy_text(c: CandidateView) -> Seq<char> {
    "consumption: "@ + (match c.consume {
        Consumption::Void => "consumed ALWAYS (void) — even if the action declines, and the walk stops"@,
        Consumption::Elastic => "consumed only if the action accepts (elastic); otherwise Godot gets the key"@,
    }) + "\n"@ + introspect::when(
        c.repeat == Repeat::Suppress,
        "repeat: key-repeat echoes are consumed WITHOUT running the action\n"@,
    )
}

#[verifier::spinoff_prover]
proof fn running_is_line_and_policy(c: CandidateView)
    ensures
        introspect::running_text(c) == running_line(c) + "\n"@ + policy_text(c),
{
    reveal_strlit("'\n");
    reveal_strlit("'");
    reveal_strlit("\n");
    assert("'\n"@ =~= "'"@ + "\n"@);
    assert(introspect::running_text(c) =~= running_line(c) + "\n"@ + policy_text(c));
}

#[verifier::spinoff_prover]
proof fn running_line_is_plain(c: CandidateView)
    requires
        plain(c.surface@),
        match c.target {
            CandidateTargetView::Action(_, spec) => plain(spec.id@),
            CandidateTargetView::Shortcut(path) => plain(path),
        },
    ensures
        plain(running_line(c)),
        running_line(c).len() > 0,
        running_line(c)[0] == 'r',
{
    broadcast use plain_sum;

    reveal_strlit("runs: ");
    reveal_strlit(" on '");
    reveal_strlit("'");
    reveal_strlit("<Shortcut>(");
    reveal_strlit(") — NOT DISPATCHED, always declines");
    assert(plain("runs: "@) && plain(" on '"@) && plain("'"@) && plain("<Shortcut>("@) && plain(
        ") — NOT DISPATCHED, always declines"@,
    )) by {
        reveal(plain);
    }
}

#[verifier::spinoff_prover]
proof fn policy_is_quiet(c: CandidateView, words: Seq<char>)
    requires
        plain(words),
        words.len() > 0,
        words[0] == 'n',
    ensures
        quiet(policy_text(c), words),
{
    broadcast use plain_sum;

    reveal_strlit("consumption: ");
    reveal_strlit("consumed ALWAYS (void) — even if the action declines, and the walk stops");
    reveal_strlit("consumed only if the action accepts (elastic); otherwise Godot gets the key");
    reveal_strlit("repeat: key-repeat echoes are consumed WITHOUT running the action\n");
    let said = match c.consume {
        Consumption::Void => "consumed ALWAYS (void) — even if the action declines, and the walk stops"@,
        Consumption::Elastic => "consumed only if the action accepts (elastic); otherwise Godot gets the key"@,
    };
    assert(plain("consumption: "@) && plain(said)) by {
        reveal(plain);
    }
    a_newline();
    let repeat = "repeat: key-repeat echoes are consumed WITHOUT running the action\n"@;
    let line = "consumption: "@ + said + "\n"@;
    one_line_is_quiet("consumption: "@ + said, "\n"@, words);
    whole_line_is_quiet(repeat, words);
    nothing_is_quiet(words);
    quiet_sum(line, introspect::when(c.repeat == Repeat::Suppress, repeat), words);
}

#[verifier::spinoff_prover]
proof fn stops_are_plain(stop: Stop, names: KeyNames)
    requires
        forall|k: KeyEvent| plain(#[trigger] names.spec_text(k)),
        stop matches Stop::Sealed(surface) ==> plain(surface@),
        stop matches Stop::Native(surface) ==> plain(surface@),
    ensures
        plain(introspect::stop_text(stop, names)),
{
    broadcast use plain_sum;

    match stop {
        Stop::Barrier => {
            reveal_strlit(
                "the anchor surface is a barrier (a foreign text input, or the editor in an insert-like mode). Nothing is ever intercepted there.",
            );
            reveal(plain);
        },
        Stop::Sealed(surface) => {
            reveal_strlit("'");
            reveal_strlit(
                "' is sealed and this key carries no Ctrl/Alt/Meta, so it stops at the anchor and reaches the control's own input handling. A modifier-bearing key would have continued to the forest root.",
            );
            assert(plain("'"@) && plain(
                "' is sealed and this key carries no Ctrl/Alt/Meta, so it stops at the anchor and reaches the control's own input handling. A modifier-bearing key would have continued to the forest root."@,
            )) by {
                reveal(plain);
            }
        },
        Stop::Native(surface) => {
            reveal_strlit("'");
            reveal_strlit(
                "' binds this key to `native`, which hands it back to Godot and terminates the walk. `panelunmap` is the other verb: it removes the rule and lets the walk continue to the parent surface.",
            );
            assert(plain("'"@) && plain(
                "' binds this key to `native`, which hands it back to Godot and terminates the walk. `panelunmap` is the other verb: it removes the rule and lets the walk continue to the parent surface."@,
            )) by {
                reveal(plain);
            }
        },
        Stop::Yielded(key) => {
            reveal_strlit("the script editor has focus and the Vim engine claims ");
            reveal_strlit(
                " — your own `:map` wins. Remove the mapping, or bind the panel action to a different chord.",
            );
            assert(plain("the script editor has focus and the Vim engine claims "@) && plain(
                " — your own `:map` wins. Remove the mapping, or bind the panel action to a different chord."@,
            )) by {
                reveal(plain);
            }
        },
        Stop::Exhausted => {
            reveal_strlit(
                "no surface on the stack binds this key, or every candidate was gated out by a missing capability (see above).",
            );
            reveal(plain);
        },
    }
}

/// The two lines of a key that runs nothing.
pub open spec fn nothing_lines(stop: Stop, names: KeyNames) -> Seq<char> {
    "nothing runs, and the key is NOT consumed.\n"@ + "reason: "@ + introspect::stop_text(
        stop,
        names,
    )
}

#[verifier::spinoff_prover]
proof fn nothing_is_said_to_run(stop: Stop, names: KeyNames)
    requires
        plain(introspect::stop_text(stop, names)),
    ensures
        quiet(introspect::resolution_text(Resolution::Nothing(stop), names), "runs: "@),
        introspect::resolution_text(Resolution::Nothing(stop), names) == nothing_lines(stop, names)
            + "\n"@,
{
    reveal_strlit("nothing runs, and the key is NOT consumed.\n");
    reveal_strlit("reason: ");
    reveal_strlit("runs: ");
    let words = "runs: "@;
    let first = "nothing runs, and the key is NOT consumed.\n"@;
    let start = "reason: "@ + introspect::stop_text(stop, names);
    whole_line_is_quiet(first, words);
    assert(plain("reason: "@) && plain(words)) by {
        reveal(plain);
    }
    plain_sum("reason: "@, introspect::stop_text(stop, names));
    a_newline();
    assert(start[1] == 'e' && words[1] == 'u');
    a_line_is_quiet(start, "\n"@, words, 1);
    quiet_sum(first, start + "\n"@, words);
    assert(introspect::resolution_text(Resolution::Nothing(stop), names) =~= first + (start
        + "\n"@));
}

/// What a verdict that runs says.
pub open spec fn run_text(matched: KeyEvent, c: CandidateView, names: KeyNames) -> Seq<char> {
    "matched: "@ + names.spec_text(matched) + "\n"@ + introspect::running_text(c)
}

#[verifier::spinoff_prover]
proof fn what_runs_is_said(r: Resolution, c: CandidateView, names: KeyNames)
    requires
        r matches Resolution::Run { matched, candidates } && resolve::candidate_views(candidates@)
            == seq![c],
    ensures
        introspect::resolution_text(r, names) == run_text(r->matched, c, names),
{
    let one = seq![c];
    assert(one.drop_last() =~= Seq::empty());
    assert(introspect::all_running_text(one.drop_last()) =~= Seq::empty());
    assert(introspect::all_running_text(one) =~= introspect::running_text(c));
}

#[verifier::spinoff_prover]
proof fn run_text_is_quiet(matched: KeyEvent, c: CandidateView, names: KeyNames)
    requires
        forall|k: KeyEvent| plain(#[trigger] names.spec_text(k)),
        plain(running_line(c)),
        running_line(c).len() > 0,
        running_line(c)[0] == 'r',
    ensures
        quiet(run_text(matched, c, names), "nothing runs"@),
{
    reveal_strlit("nothing runs");
    reveal_strlit("matched: ");
    let words = "nothing runs"@;
    let start = "matched: "@ + names.spec_text(matched);
    assert(plain("matched: "@) && plain(words)) by {
        reveal(plain);
    }
    plain_sum("matched: "@, names.spec_text(matched));
    a_newline();
    one_line_is_quiet(start, "\n"@, words);
    one_line_is_quiet(running_line(c), "\n"@, words);
    policy_is_quiet(c, words);
    running_is_line_and_policy(c);
    quiet_sum(running_line(c) + "\n"@, policy_text(c), words);
    quiet_sum(start + "\n"@, introspect::running_text(c), words);
}

/// Whether the inputs of a report have no newline in them.
pub open spec fn inputs_are_plain(
    lhs: Seq<char>,
    chain: FocusChain,
    facts: ChainFacts,
    path: SurfacePath,
    v: IndexView,
    registry: Seq<ActionSpec>,
    names: KeyNames,
) -> bool {
    &&& plain(lhs)
    &&& plain(facts.attached_editor@)
    &&& plain(facts.editor_mode@)
    &&& forall|i: int| 0 <= i < chain.nodes@.len() ==> node_is_plain(#[trigger] chain.nodes@[i])
    &&& names_are_plain(v, registry, path, names)
}

#[verifier::spinoff_prover]
proof fn head_is_quiet(
    lhs: Seq<char>,
    sequence: bool,
    chain: FocusChain,
    facts: ChainFacts,
    path: SurfacePath,
    v: IndexView,
    registry: Seq<ActionSpec>,
    names: KeyNames,
    key: KeyEvent,
    words: Seq<char>,
)
    requires
        inputs_are_plain(lhs, chain, facts, path, v, registry, names),
        is_verdict_word(words),
    ensures
        quiet(
            introspect::setting_text(lhs, sequence, chain, facts, path, names, key)
                + introspect::stack_text(v, registry, path, names, key, path.ids@.len() as int),
            words,
        ),
{
    setting_is_quiet(lhs, sequence, chain, facts, path, names, key, words);
    stack_is_quiet(v, registry, path, names, key, path.ids@.len() as int, words);
    quiet_sum(
        introspect::setting_text(lhs, sequence, chain, facts, path, names, key),
        introspect::stack_text(v, registry, path, names, key, path.ids@.len() as int),
        words,
    );
}

/// The candidate of a verdict that runs, and the surface of one that does not,
/// have plain texts where the inputs have.
proof fn verdict_inputs_are_plain<F: Fn(KeyEvent) -> bool>(
    path: SurfacePath,
    v: IndexView,
    registry: Seq<ActionSpec>,
    names: KeyNames,
    first: KeyEvent,
    claims: F,
    verdict: Resolution,
)
    requires
        names_are_plain(v, registry, path, names),
        resolve::is_verdict(v, registry, path, introspect::written(first), claims, verdict),
    ensures
        match verdict {
            Resolution::Run { candidates, .. } => {
                let c = candidates@[0]@;
                &&& candidates@.len() == 1
                &&& resolve::candidate_views(candidates@) == seq![c]
                &&& plain(c.surface@)
                &&& match c.target {
                    CandidateTargetView::Action(_, spec) => plain(spec.id@),
                    CandidateTargetView::Shortcut(words) => plain(words),
                }
            },
            Resolution::Nothing(stop) => {
                &&& stop matches Stop::Sealed(surface) ==> plain(surface@)
                &&& stop matches Stop::Native(surface) ==> plain(surface@)
            },
        },
{
    let probes = introspect::written(first);
    resolve::what_decides_is_a_hit(v, registry, path, probes);
    if let Some((hit, surface, key)) = resolve::deciding(v, registry, path, probes) {
        let i = choose|i: int| 0 <= i < path.ids@.len() && path.ids@[i] == surface;
        assert(plain(path.ids@[i]@));
        if let Some(rule) = v.rule_for(surface@, seq![key]) {
            assert(v.arena.contains(rule));
            let k = choose|k: int| 0 <= k < v.arena.len() && v.arena[k] == rule;
            assert(rule_is_plain(v.arena[k]));
        }
    }
    if let Resolution::Run { matched, candidates } = verdict {
        let views = resolve::candidate_views(candidates@);
        assert(views.len() == 1);
        assert(views[0] == candidates@[0]@);
    }
}

/// The explanation says what becomes of the key, and only that: where a verb
/// runs, one line names it and its surface, and no line says that nothing runs;
/// where nothing runs, it says so and gives the reason, and no line says that
/// something does.
pub proof fn the_explanation_tells_the_verdict<F: Fn(KeyEvent) -> bool>(
    lhs: Seq<char>,
    sequence: bool,
    chain: FocusChain,
    facts: ChainFacts,
    path: SurfacePath,
    v: IndexView,
    registry: Seq<ActionSpec>,
    names: KeyNames,
    first: KeyEvent,
    claims: F,
    verdict: Resolution,
)
    requires
        inputs_are_plain(lhs, chain, facts, path, v, registry, names),
        resolve::is_verdict(v, registry, path, introspect::written(first), claims, verdict),
    ensures
        ({
            let report = introspect::explanation(
                lhs,
                sequence,
                chain,
                facts,
                path,
                v,
                registry,
                names,
                keys::canonical(first),
                verdict,
            );
            match verdict {
                Resolution::Run { candidates, .. } => {
                    &&& candidates@.len() == 1
                    &&& has_line(report, running_line(candidates@[0]@))
                    &&& !line_begins(report, "nothing runs"@)
                },
                Resolution::Nothing(stop) => {
                    &&& has_line(report, nothing_lines(stop, names))
                    &&& !line_begins(report, "runs: "@)
                },
            }
        }),
{
    let key = keys::canonical(first);
    let head = introspect::setting_text(lhs, sequence, chain, facts, path, names, key)
        + introspect::stack_text(v, registry, path, names, key, path.ids@.len() as int);
    let tail = introspect::resolution_text(verdict, names);
    verdict_inputs_are_plain(path, v, registry, names, first, claims, verdict);
    a_newline();
    match verdict {
        Resolution::Run { matched, candidates } => {
            let words = "nothing runs"@;
            let c = candidates@[0]@;
            reveal_strlit("nothing runs");
            assert(is_verdict_word(words)) by {
                reveal(plain);
            }
            head_is_quiet(lhs, sequence, chain, facts, path, v, registry, names, key, words);
            running_line_is_plain(c);
            run_text_is_quiet(matched, c, names);
            what_runs_is_said(verdict, c, names);
            quiet_sum(head, tail, words);
            let before = head + ("matched: "@ + names.spec_text(matched) + "\n"@);
            let after = "\n"@ + policy_text(c);
            running_is_line_and_policy(c);
            assert(head + tail =~= before + running_line(c) + after);
            assert(before.last() == '\n');
            a_line_after_lines(before, running_line(c), after);
            assert(!line_begins(head + tail, words)) by {
                reveal(quiet);
            }
        },
        Resolution::Nothing(stop) => {
            let words = "runs: "@;
            reveal_strlit("runs: ");
            assert(is_verdict_word(words)) by {
                reveal(plain);
            }
            head_is_quiet(lhs, sequence, chain, facts, path, v, registry, names, key, words);
            stops_are_plain(stop, names);
            nothing_is_said_to_run(stop, names);
            quiet_sum(head, tail, words);
            assert(head.len() > 0 ==> head.last() == '\n') by {
                reveal(quiet);
            }
            a_line_after_lines(head, nothing_lines(stop, names), "\n"@);
            assert(head + tail =~= head + nothing_lines(stop, names) + "\n"@);
            assert(!line_begins(head + tail, words)) by {
                reveal(quiet);
            }
        },
    }
}

/// Where the engine answers the same whenever it is asked, the explanation says
/// what any other resolution of the key comes to.
pub proof fn one_verdict_one_text<F: Fn(KeyEvent) -> bool>(
    path: SurfacePath,
    v: IndexView,
    registry: Seq<ActionSpec>,
    names: KeyNames,
    first: KeyEvent,
    claims: F,
    a: Resolution,
    b: Resolution,
)
    requires
        forall|k: KeyEvent, x: bool, y: bool| #[trigger]
            call_ensures(claims, (k,), x) && #[trigger] call_ensures(claims, (k,), y) ==> x == y,
        resolve::is_verdict(v, registry, path, introspect::written(first), claims, a),
        resolve::is_verdict(v, registry, path, introspect::written(first), claims, b),
    ensures
        introspect::resolution_text(a, names) == introspect::resolution_text(b, names),
{
}

// ── The listing ───────────────────────────────────────────────────────

/// The lines of what was rejected: none where nothing was.
pub open spec fn rejected_text(ds: Seq<PanelDiagnostic>, names: KeyNames) -> Seq<char> {
    if ds.len() == 0 {
        Seq::empty()
    } else {
        "--- "@ + text::decimal(ds.len()) + " rejected line(s) — these bound NOTHING ---\n"@
            + introspect::diagnostics_text(ds, names)
    }
}

/// Lines that were rejected change nothing of the listing but what follows it:
/// their number, and then each of them on a line of its own, in order.
pub proof fn rejected_lines_come_after_the_listing(
    v: IndexView,
    registry: Seq<ActionSpec>,
    ds: Seq<PanelDiagnostic>,
    names: KeyNames,
)
    ensures
        introspect::listing(v, registry, ds, names) == introspect::listing(
            v,
            registry,
            Seq::empty(),
            names,
        ) + rejected_text(ds, names),
        ds.len() > 0 ==> introspect::diagnostics_text(ds, names) == introspect::diagnostics_text(
            ds.drop_last(),
            names,
        ) + ("  "@ + ds.last()@.message(names) + "\n"@),
{
    let bare = introspect::listing(v, registry, Seq::empty(), names);
    assert(introspect::listing(v, registry, ds, names) =~= bare + rejected_text(ds, names));
    if ds.len() > 0 {
        assert(introspect::diagnostics_text(ds, names) =~= introspect::diagnostics_text(
            ds.drop_last(),
            names,
        ) + ("  "@ + ds.last()@.message(names) + "\n"@));
    }
}

} // verus!
