//! What the pieces of printed text say, and how texts come apart.

use vstd::prelude::*;
use crate::bind;
use crate::bind::{PanelDiagnostic, Rule};
use crate::caps;
use crate::caps::Caps;
use crate::key::{Mode, Operator, VisualType};
use crate::keys;
use crate::outcome::Outcome;
use crate::ports;
use crate::ports::DockKind;
use crate::resolve;
use crate::resolve::Candidate;
use crate::text;

verus! {

// ── Numerals ──────────────────────────────────────────────────────────

/// The number that decimal digits stand for.
pub open spec fn value_of(digits: Seq<char>) -> int
    decreases digits.len(),
{
    if digits.len() == 0 {
        0
    } else {
        value_of(digits.drop_last()) * 10 + (digits.last() as int - '0' as int)
    }
}

/// A numeral stands for its number, is made of digits alone, and starts with
/// zero only where it is zero.
pub proof fn a_numeral_stands_for_its_number(n: nat)
    ensures
        value_of(text::decimal(n)) == n,
        text::decimal(n).len() > 0,
        forall|i: int|
            0 <= i < text::decimal(n).len() ==> '0' <= #[trigger] text::decimal(n)[i]
                && text::decimal(n)[i] <= '9',
        text::decimal(n)[0] == '0' <==> n == 0,
    decreases n,
{
    reveal_with_fuel(value_of, 2);
    let digits = text::decimal(n);
    if n < 10 {
        assert(digits.drop_last() =~= Seq::empty());
    } else {
        let init = text::decimal(n / 10);
        a_numeral_stands_for_its_number(n / 10);
        assert(digits.drop_last() =~= init);
        assert(digits[0] == init[0]);
        assert forall|i: int| 0 <= i < digits.len() implies '0' <= #[trigger] digits[i] && digits[i]
            <= '9' by {
            if i < init.len() {
                assert(digits[i] == init[i]);
            }
        }
    }
}

/// A number below zero is written with a minus sign before its size; any other
/// as it is.
pub proof fn a_minus_sign_means_below_zero(n: int)
    ensures
        ({
            let t = text::signed_decimal(n);
            if n < 0 {
                t.len() > 0 && t[0] == '-' && value_of(t.skip(1)) == -n
            } else {
                value_of(t) == n && t[0] != '-'
            }
        }),
{
    let t = text::signed_decimal(n);
    if n < 0 {
        a_numeral_stands_for_its_number((-n) as nat);
        assert(t.skip(1) =~= text::decimal((-n) as nat));
    } else {
        a_numeral_stands_for_its_number(n as nat);
        assert('0' <= text::decimal(n as nat)[0]);
    }
}

// ── Lines and lists ───────────────────────────────────────────────────

/// A line ends at its newline, and the carriage return before the newline is no
/// part of it; what follows are the other lines.
pub proof fn a_line_ends_at_its_newline(line: Seq<char>, rest: Seq<char>)
    requires
        forall|i: int| 0 <= i < line.len() ==> #[trigger] line[i] != '\n',
    ensures
        text::lines_of(line + seq!['\n'] + rest) == seq![
            if line.len() > 0 && line.last() == '\r' {
                line.drop_last()
            } else {
                line
            },
        ] + text::lines_of(rest),
{
    let whole = line + seq!['\n'] + rest;
    let n = line.len() as int;
    assert forall|i: int| 0 <= i < n implies whole[i] != '\n' by {
        assert(whole[i] == line[i]);
    }
    text::newline_is_at(whole, n);
    assert(whole.take(n) =~= line);
    assert(whole.skip(n + 1) =~= rest);
}

/// A text without a newline is one line, and an empty text has none.
pub proof fn the_last_line_needs_no_newline(line: Seq<char>)
    requires
        forall|i: int| 0 <= i < line.len() ==> #[trigger] line[i] != '\n',
    ensures
        line.len() > 0 ==> text::lines_of(line) == seq![line],
        line.len() == 0 ==> text::lines_of(line).len() == 0,
{
    text::newline_is_at(line, line.len() as int);
}

/// Two lists of pieces, written one after the other, are written with one
/// separator between them; a single piece is written as it is.
pub proof fn separators_stand_between(
    first: Seq<Seq<char>>,
    second: Seq<Seq<char>>,
    sep: Seq<char>,
)
    ensures
        first.len() == 1 ==> text::joined(first, sep) == first[0],
        first.len() == 0 ==> text::joined(first, sep).len() == 0,
        first.len() > 0 && second.len() > 0 ==> text::joined(first + second, sep) == text::joined(
            first,
            sep,
        ) + sep + text::joined(second, sep),
    decreases second.len(),
{
    if first.len() > 0 && second.len() > 0 {
        let all = first + second;
        let init = second.drop_last();
        assert(all.drop_last() =~= first + init);
        assert(all.last() == second.last());
        if init.len() > 0 {
            separators_stand_between(first, init, sep);
            let a = text::joined(first, sep);
            let b = text::joined(init, sep);
            assert(a + sep + b + sep + second.last() =~= a + sep + (b + sep + second.last()));
        } else {
            assert(first + init =~= first);
            assert(second.last() == second[0]);
        }
    }
}

/// A text begins with another exactly where it is that other and something
/// after it.
pub proof fn what_a_text_begins_with(s: Seq<char>, prefix: Seq<char>)
    ensures
        text::begins_with(s, prefix) <==> exists|rest: Seq<char>| s == #[trigger] (prefix + rest),
{
    if text::begins_with(s, prefix) {
        assert(s =~= prefix + s.skip(prefix.len() as int));
    }
    if exists|rest: Seq<char>| s == #[trigger] (prefix + rest) {
        let rest = choose|rest: Seq<char>| s == #[trigger] (prefix + rest);
        assert(s.take(prefix.len() as int) =~= prefix);
    }
}

// ── Names ─────────────────────────────────────────────────────────────

/// A capability is printed exactly where it is there, each under its own name.
pub proof fn each_capability_is_printed_under_its_name(c: Caps)
    ensures
        ({
            let names = caps::flag_names(c);
            &&& names.contains("VNAV"@) <==> c.vnav
            &&& names.contains("HIERARCHY"@) <==> c.hierarchy
            &&& names.contains("ACTIVATE"@) <==> c.activate
            &&& names.contains("TEXTENTRY"@) <==> c.textentry
            &&& names.contains("FILEOPS"@) <==> c.fileops
        }),
{
    reveal_strlit("VNAV");
    reveal_strlit("HIERARCHY");
    reveal_strlit("ACTIVATE");
    reveal_strlit("TEXTENTRY");
    reveal_strlit("FILEOPS");
    assert("VNAV"@.len() == 4 && "HIERARCHY"@.len() == 9 && "ACTIVATE"@.len() == 8);
    assert("TEXTENTRY"@.len() == 9 && "FILEOPS"@.len() == 7);
    assert("HIERARCHY"@[0] == 'H' && "TEXTENTRY"@[0] == 'T');
    let none = Seq::<Seq<char>>::empty();
    let a = one_more_name(none, c.vnav, "VNAV"@);
    let b = one_more_name(a, c.hierarchy, "HIERARCHY"@);
    let d = one_more_name(b, c.activate, "ACTIVATE"@);
    let e = one_more_name(d, c.textentry, "TEXTENTRY"@);
    let f = one_more_name(e, c.fileops, "FILEOPS"@);
    assert(f =~= caps::flag_names(c));
}

proof fn one_more_name(names: Seq<Seq<char>>, there: bool, name: Seq<char>) -> (r: Seq<Seq<char>>)
    ensures
        r == if there {
            names.push(name)
        } else {
            names
        },
        forall|other: Seq<char>| #[trigger]
            r.contains(other) <==> names.contains(other) || (there && other == name),
{
    let r = if there {
        names.push(name)
    } else {
        names
    };
    assert forall|other: Seq<char>| #[trigger] r.contains(other) <==> names.contains(other) || (
    there && other == name) by {
        if names.contains(other) {
            let i = choose|i: int| 0 <= i < names.len() && names[i] == other;
            assert(r[i] == other);
        }
        if there {
            assert(r[names.len() as int] == name);
        }
        if r.contains(other) {
            let i = choose|i: int| 0 <= i < r.len() && r[i] == other;
            if i < names.len() {
                assert(names[i] == other);
            }
        }
    }
    r
}

/// Outcomes are told apart by their words.
pub proof fn outcomes_are_told_apart(a: Outcome, b: Outcome)
    ensures
        a.spec_label() == b.spec_label() <==> a == b,
        Outcome::Declined.spec_label() == "declined"@,
{
    reveal_strlit("handled");
    reveal_strlit("focus-changed");
    reveal_strlit("declined");
    assert("handled"@.len() == 7 && "focus-changed"@.len() == 13 && "declined"@.len() == 8);
}

// ── Classes and modes ─────────────────────────────────────────────────

/// A control follows the contract of a tree where it is one, else that of a
/// list, else that of a label, and otherwise none.
pub proof fn a_control_follows_the_first_contract(tree: bool, list: bool, label: bool)
    ensures
        ({
            let kind = ports::kind_of(tree, list, label);
            &&& kind == Some(DockKind::Tree) <==> tree
            &&& kind == Some(DockKind::ItemList) <==> !tree && list
            &&& kind == Some(DockKind::RichTextLabel) <==> !tree && !list && label
            &&& kind is None <==> !tree && !list && !label
        }),
{
}

/// Where a control answers for its classes always alike, what it offers is what
/// those answers grant, each class asked about by its own name.
pub proof fn what_its_classes_grant<F: Fn(&str) -> bool>(
    is_class: F,
    is_tree: bool,
    is_list: bool,
    is_label: bool,
    is_line: bool,
    is_edit: bool,
    tree: bool,
    list: bool,
    label: bool,
    line: bool,
    edit: bool,
)
    requires
        forall|b: bool| #[trigger] call_ensures(is_class, ("Tree",), b) ==> b == is_tree,
        forall|b: bool| #[trigger] call_ensures(is_class, ("ItemList",), b) ==> b == is_list,
        forall|b: bool| #[trigger] call_ensures(is_class, ("RichTextLabel",), b) ==> b == is_label,
        forall|b: bool| #[trigger] call_ensures(is_class, ("LineEdit",), b) ==> b == is_line,
        forall|b: bool| #[trigger] call_ensures(is_class, ("TextEdit",), b) ==> b == is_edit,
        caps::class_answers(is_class, tree, list, label, line, edit),
    ensures
        ({
            let offered = caps::control_caps(
                tree,
                !tree && list,
                !tree && !list && label,
                line,
                !line && edit,
            );
            &&& offered.vnav <==> is_tree || is_list || is_label
            &&& offered.hierarchy <==> is_tree
            &&& offered.activate <==> is_tree || is_list
            &&& offered.textentry <==> is_line || is_edit
            &&& !offered.fileops
        }),
{
}

/// Where a control answers for its classes always alike, its contract is that
/// of the first class it is of.
pub proof fn what_its_classes_say_of_its_contract<F: Fn(&str) -> bool>(
    is_class: F,
    is_tree: bool,
    is_list: bool,
    is_label: bool,
    tree: bool,
    list: bool,
    label: bool,
)
    requires
        forall|b: bool| #[trigger] call_ensures(is_class, ("Tree",), b) ==> b == is_tree,
        forall|b: bool| #[trigger] call_ensures(is_class, ("ItemList",), b) ==> b == is_list,
        forall|b: bool| #[trigger] call_ensures(is_class, ("RichTextLabel",), b) ==> b == is_label,
        ports::kind_answers(is_class, tree, list, label),
    ensures
        ports::kind_of(tree, list, label) == if is_tree {
            Some(DockKind::Tree)
        } else if is_list {
            Some(DockKind::ItemList)
        } else if is_label {
            Some(DockKind::RichTextLabel)
        } else {
            None
        },
{
}

/// The grammar is asked about in one mode of each kind in which the editor takes
/// panel chords, and in no other.
pub proof fn the_grammar_is_asked_in_navigation_modes(mode: Mode)
    ensures
        keys::is_asked_mode(mode) ==> crate::providers::editor::is_nav(mode),
        keys::is_asked_mode(Mode::Normal),
        mode is Visual ==> exists|kind: VisualType| #[trigger]
            keys::is_asked_mode(Mode::Visual(kind)),
        mode is OperatorPending ==> exists|operator: Operator| #[trigger]
            keys::is_asked_mode(Mode::OperatorPending(operator)),
{
    assert(keys::is_asked_mode(Mode::Visual(VisualType::Char)));
    assert(keys::is_asked_mode(Mode::OperatorPending(Operator::Delete)));
}

// ── Views of lists ────────────────────────────────────────────────────

/// What a list holds is what each of its items holds, in the same order.
pub proof fn lists_are_read_item_by_item(
    strings: Seq<String>,
    words: Seq<&str>,
    diagnostics: Seq<PanelDiagnostic>,
    rules: Seq<&Rule>,
    candidates: Seq<Candidate>,
    i: int,
)
    ensures
        text::contents(strings).len() == strings.len(),
        0 <= i < strings.len() ==> text::contents(strings)[i] == strings[i]@,
        text::views(words).len() == words.len(),
        0 <= i < words.len() ==> text::views(words)[i] == words[i]@,
        bind::diagnostic_views(diagnostics).len() == diagnostics.len(),
        0 <= i < diagnostics.len() ==> bind::diagnostic_views(diagnostics)[i] == diagnostics[i]@,
        bind::rule_views(rules).len() == rules.len(),
        0 <= i < rules.len() ==> bind::rule_views(rules)[i] == rules[i]@,
        resolve::candidate_views(candidates).len() == candidates.len(),
        0 <= i < candidates.len() ==> resolve::candidate_views(candidates)[i] == candidates[i]@,
{
}

} // verus!
