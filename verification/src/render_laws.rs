//! A rule that is written down can be read back: no other rule is written so.

use vstd::prelude::*;
use vstd::string::*;
use crate::action;
use crate::action::{ActionId, ActionSpec, TargetView};
use crate::bind;
use crate::bind::{
    Consumption, IndexView, OwnerView, PanelLine, PanelMap, RejectView, Repeat, RuleView,
    TargetSpec,
};
use crate::bind_laws;
use crate::introspect;
use crate::key::{KeyEvent, KeyNames};
use crate::search;
use crate::surface::SurfaceSpec;
use crate::text;

verus! {

// ── Cutting texts ─────────────────────────────────────────────────────

/// Whether a character does not occur in a text.
pub open spec fn free_of(t: Seq<char>, c: char) -> bool {
    forall|i: int| 0 <= i < t.len() ==> t[i] != c
}

/// Whether a text is empty or starts with a character.
spec fn empty_or_at(t: Seq<char>, c: char) -> bool {
    t.len() > 0 ==> t[0] == c
}

/// A text can be cut in one way before the first occurrence of a character.
proof fn cut_at_first(a: Seq<char>, p: Seq<char>, b: Seq<char>, q: Seq<char>, c: char)
    requires
        a + p == b + q,
        free_of(a, c),
        free_of(b, c),
        empty_or_at(p, c),
        empty_or_at(q, c),
    ensures
        a == b,
        p == q,
{
    let t = a + p;
    let u = b + q;
    assert(t.len() == u.len());
    if a.len() < b.len() {
        assert(t[a.len() as int] == p[0]);
        assert(u[a.len() as int] == b[a.len() as int]);
    }
    if b.len() < a.len() {
        assert(u[b.len() as int] == q[0]);
        assert(t[b.len() as int] == a[b.len() as int]);
    }
    assert forall|i: int| 0 <= i < a.len() implies a[i] == b[i] by {
        assert(t[i] == u[i]);
    }
    assert(a =~= b);
    assert forall|i: int| 0 <= i < p.len() implies p[i] == q[i] by {
        assert(t[a.len() + i] == u[a.len() + i]);
    }
    assert(p =~= q);
}

/// A text can be cut in one way before the last occurrence of a character.
proof fn cut_at_last(a: Seq<char>, p: Seq<char>, b: Seq<char>, q: Seq<char>, c: char)
    requires
        a + p == b + q,
        p.len() > 0 && p[0] == c && free_of(p.skip(1), c),
        q.len() > 0 && q[0] == c && free_of(q.skip(1), c),
    ensures
        a == b,
        p == q,
{
    let t = a + p;
    let u = b + q;
    assert(t.len() == u.len());
    if a.len() < b.len() {
        assert(u[b.len() as int] == q[0]);
        assert(t[b.len() as int] == p.skip(1)[b.len() - a.len() - 1]);
    }
    if b.len() < a.len() {
        assert(t[a.len() as int] == p[0]);
        assert(u[a.len() as int] == q.skip(1)[a.len() - b.len() - 1]);
    }
    assert forall|i: int| 0 <= i < a.len() implies a[i] == b[i] by {
        assert(t[i] == u[i]);
    }
    assert(a =~= b);
    assert forall|i: int| 0 <= i < p.len() implies p[i] == q[i] by {
        assert(t[a.len() + i] == u[a.len() + i]);
    }
    assert(p =~= q);
}

/// What follows the same words is the same.
proof fn same_start(words: Seq<char>, p: Seq<char>, q: Seq<char>)
    requires
        words + p == words + q,
    ensures
        p == q,
{
    assert((words + p).skip(words.len() as int) =~= p);
    assert((words + q).skip(words.len() as int) =~= q);
}

// ── Numerals ──────────────────────────────────────────────────────────

/// A digit is read back.
proof fn digits_are_distinct(d: int, e: int)
    requires
        0 <= d < 10,
        0 <= e < 10,
        text::digit_char(d) == text::digit_char(e),
    ensures
        d == e,
{
}

/// A numeral has nothing but digits in it.
proof fn numerals_are_digits(n: nat)
    ensures
        text::decimal(n).len() > 0,
        free_of(text::decimal(n), ' '),
        free_of(text::decimal(n), '='),
        free_of(text::decimal(n), '-'),
    decreases n,
{
    if n >= 10 {
        numerals_are_digits(n / 10);
    }
}

/// A numeral is read back.
proof fn numerals_are_distinct(n: nat, m: nat)
    requires
        text::decimal(n) == text::decimal(m),
    ensures
        n == m,
    decreases n,
{
    let x = text::decimal(n);
    let y = text::decimal(m);
    assert(x.last() == y.last());
    assert(x.drop_last() =~= y.drop_last());
    if n >= 10 {
        numerals_are_digits(n / 10);
        assert(x.drop_last() =~= text::decimal(n / 10));
    }
    if m >= 10 {
        numerals_are_digits(m / 10);
        assert(y.drop_last() =~= text::decimal(m / 10));
    }
    if n >= 10 && m >= 10 {
        numerals_are_distinct(n / 10, m / 10);
        digits_are_distinct((n % 10) as int, (m % 10) as int);
    } else if n < 10 && m < 10 {
        digits_are_distinct(n as int, m as int);
    }
}

/// A signed numeral has no space and no equals sign in it.
proof fn signed_numerals_are_words(n: int)
    ensures
        free_of(text::signed_decimal(n), ' '),
        free_of(text::signed_decimal(n), '='),
{
    numerals_are_digits(if n < 0 {
        (-n) as nat
    } else {
        n as nat
    });
}

/// A signed numeral is read back.
proof fn signed_numerals_are_distinct(n: int, m: int)
    requires
        text::signed_decimal(n) == text::signed_decimal(m),
    ensures
        n == m,
{
    let minus = seq!['-'];
    let x = text::signed_decimal(n);
    let y = text::signed_decimal(m);
    numerals_are_digits(if n < 0 {
        (-n) as nat
    } else {
        n as nat
    });
    numerals_are_digits(if m < 0 {
        (-m) as nat
    } else {
        m as nat
    });
    assert(x[0] == y[0]);
    if n < 0 && m < 0 {
        same_start(minus, text::decimal((-n) as nat), text::decimal((-m) as nat));
        numerals_are_distinct((-n) as nat, (-m) as nat);
    } else if n >= 0 && m >= 0 {
        numerals_are_distinct(n as nat, m as nat);
    }
}

// ── Keys ──────────────────────────────────────────────────────────────

/// Whether a row of some keys can be taken apart again: each is written with
/// something and without a space, and no one is written as another begins.
pub open spec fn keys_can_be_told_apart(names: KeyNames, keys: Seq<KeyEvent>) -> bool {
    &&& forall|i: int|
        0 <= i < keys.len() ==> names.spec_text(#[trigger] keys[i]).len() > 0 && free_of(
            names.spec_text(keys[i]),
            ' ',
        )
    &&& forall|i: int, j: int|
        0 <= i < keys.len() && 0 <= j < keys.len() && (#[trigger] keys[i]) != (#[trigger] keys[j])
            ==> !text::begins_with(names.spec_text(keys[i]), names.spec_text(keys[j]))
}

/// A key sequence is written from its first key on.
proof fn keys_text_from_the_front(names: KeyNames, keys: Seq<KeyEvent>)
    requires
        keys.len() > 0,
    ensures
        introspect::keys_text(names, keys) == names.spec_text(keys[0]) + introspect::keys_text(
            names,
            keys.skip(1),
        ),
    decreases keys.len(),
{
    let init = keys.drop_last();
    let first = names.spec_text(keys[0]);
    if keys.len() == 1 {
        assert(init =~= Seq::empty());
        assert(keys.skip(1) =~= Seq::empty());
        assert(introspect::keys_text(names, init) =~= Seq::empty());
        assert(introspect::keys_text(names, keys) =~= first);
        assert(first + Seq::<char>::empty() =~= first);
    } else {
        keys_text_from_the_front(names, init);
        assert(init.skip(1) =~= keys.skip(1).drop_last());
        assert(keys.skip(1).last() == keys.last());
        assert(introspect::keys_text(names, keys) =~= first + introspect::keys_text(
            names,
            keys.skip(1),
        ));
    }
}

/// A written key sequence has no space in it.
proof fn keys_text_is_a_word(names: KeyNames, keys: Seq<KeyEvent>)
    requires
        forall|i: int|
            0 <= i < keys.len() ==> free_of(names.spec_text(#[trigger] keys[i]), ' '),
    ensures
        free_of(introspect::keys_text(names, keys), ' '),
    decreases keys.len(),
{
    if keys.len() > 0 {
        let init = keys.drop_last();
        assert forall|i: int| 0 <= i < init.len() implies free_of(
            names.spec_text(#[trigger] init[i]),
            ' ',
        ) by {
            assert(init[i] == keys[i]);
        }
        keys_text_is_a_word(names, init);
        assert(free_of(names.spec_text(keys[keys.len() - 1]), ' '));
    }
}

/// A written key sequence is read back.
proof fn key_sequences_are_distinct(
    names: KeyNames,
    all: Seq<KeyEvent>,
    a: Seq<KeyEvent>,
    b: Seq<KeyEvent>,
)
    requires
        keys_can_be_told_apart(names, all),
        forall|i: int| 0 <= i < a.len() ==> all.contains(#[trigger] a[i]),
        forall|i: int| 0 <= i < b.len() ==> all.contains(#[trigger] b[i]),
        introspect::keys_text(names, a) == introspect::keys_text(names, b),
    ensures
        a == b,
    decreases a.len(),
{
    if a.len() > 0 {
        keys_text_from_the_front(names, a);
        assert(all.contains(a[0]));
    }
    if b.len() > 0 {
        keys_text_from_the_front(names, b);
        assert(all.contains(b[0]));
    }
    if a.len() > 0 && b.len() > 0 {
        let m = names.spec_text(a[0]);
        let n = names.spec_text(b[0]);
        let p = introspect::keys_text(names, a.skip(1));
        let q = introspect::keys_text(names, b.skip(1));
        let i = choose|i: int| 0 <= i < all.len() && all[i] == a[0];
        let j = choose|j: int| 0 <= j < all.len() && all[j] == b[0];
        if a[0] != b[0] {
            assert(all[i] != all[j]);
            if m.len() <= n.len() {
                assert(n.take(m.len() as int) =~= (n + q).take(m.len() as int));
                assert((m + p).take(m.len() as int) =~= m);
                assert(text::begins_with(n, m));
            } else {
                assert(m.take(n.len() as int) =~= (m + p).take(n.len() as int));
                assert((n + q).take(n.len() as int) =~= n);
                assert(text::begins_with(m, n));
            }
        }
        same_start(m, p, q);
        assert forall|x: int| 0 <= x < a.skip(1).len() implies all.contains(
            #[trigger] a.skip(1)[x],
        ) by {
            assert(a.skip(1)[x] == a[x + 1]);
        }
        assert forall|x: int| 0 <= x < b.skip(1).len() implies all.contains(
            #[trigger] b.skip(1)[x],
        ) by {
            assert(b.skip(1)[x] == b[x + 1]);
        }
        key_sequences_are_distinct(names, all, a.skip(1), b.skip(1));
        assert(a =~= seq![a[0]] + a.skip(1));
        assert(b =~= seq![b[0]] + b.skip(1));
    } else if a.len() > 0 {
        let i = choose|i: int| 0 <= i < all.len() && all[i] == a[0];
        assert(names.spec_text(all[i]).len() > 0);
        assert(introspect::keys_text(names, b).len() == 0);
    } else if b.len() > 0 {
        let j = choose|j: int| 0 <= j < all.len() && all[j] == b[0];
        assert(names.spec_text(all[j]).len() > 0);
        assert(introspect::keys_text(names, a).len() == 0);
    } else {
        assert(a =~= b);
    }
}

// ── Targets and parameters ────────────────────────────────────────────

/// Whether a target is written as one word that names it.
pub open spec fn target_is_a_word(target: TargetView, registry: Seq<ActionSpec>) -> bool {
    match target {
        TargetView::Action(id) => id.0 < registry.len() && action::is_action_id(
            registry[id.0 as int].id@,
        ),
        TargetView::Native => true,
        TargetView::Shortcut(path) => free_of(path, ' '),
    }
}

/// A written target has no space in it.
proof fn targets_are_words(target: TargetView, registry: Seq<ActionSpec>)
    requires
        target_is_a_word(target, registry),
    ensures
        free_of(introspect::target_text(target, registry), ' '),
{
    reveal_strlit("native");
    reveal_strlit("<Shortcut>(");
    reveal_strlit(")");
    if let TargetView::Action(id) = target {
        let name = registry[id.0 as int].id@;
        assert forall|i: int| 0 <= i < name.len() implies name[i] != ' ' by {
            assert(action::is_id_char(name[i]));
        }
    }
}

/// A written target is read back.
proof fn targets_are_distinct(a: TargetView, b: TargetView, registry: Seq<ActionSpec>)
    requires
        target_is_a_word(a, registry),
        target_is_a_word(b, registry),
        action::spec_names(registry).no_duplicates(),
        introspect::target_text(a, registry) == introspect::target_text(b, registry),
    ensures
        a == b,
{
    reveal_strlit("native");
    reveal_strlit("<Shortcut>(");
    reveal_strlit(")");
    let x = introspect::target_text(a, registry);
    let y = introspect::target_text(b, registry);
    let names = action::spec_names(registry);
    assert(free_of("native"@, '.'));
    if let TargetView::Action(id) = a {
        assert(names[id.0 as int] == x);
        assert(action::is_id_char(x[0]));
        let dot = choose|i: int| 0 <= i < x.len() && x[i] == '.';
        assert(x[dot] == '.');
    }
    if let TargetView::Action(id) = b {
        assert(names[id.0 as int] == y);
        assert(action::is_id_char(y[0]));
        let dot = choose|i: int| 0 <= i < y.len() && y[i] == '.';
        assert(y[dot] == '.');
    }
    match (a, b) {
        (TargetView::Action(i), TargetView::Action(j)) => {
            if i.0 != j.0 {
                assert(names[i.0 as int] != names[j.0 as int]);
            }
            assert(i == j);
        },
        (TargetView::Shortcut(p), TargetView::Shortcut(q)) => {
            let start = "<Shortcut>("@;
            let end = ")"@;
            assert(x =~= start + (p + end));
            assert(y =~= start + (q + end));
            same_start(start, p + end, q + end);
            assert((p + end).drop_last() =~= p);
            assert((q + end).drop_last() =~= q);
        },
        _ => {},
    }
}

/// Whether each parameter is written as one word that can be taken apart.
pub open spec fn params_are_words(params: Seq<(Seq<char>, i64)>) -> bool {
    forall|i: int|
        0 <= i < params.len() ==> free_of((#[trigger] params[i]).0, ' ') && free_of(
            params[i].0,
            '=',
        )
}

/// A written parameter, after its space.
spec fn param_word(param: (Seq<char>, i64)) -> Seq<char> {
    " "@ + (param.0 + ("="@ + text::signed_decimal(param.1 as int)))
}

/// Written parameters end with the last of them.
proof fn params_text_ends(params: Seq<(Seq<char>, i64)>)
    requires
        params.len() > 0,
        params_are_words(params),
    ensures
        introspect::params_text(params) == introspect::params_text(params.drop_last())
            + param_word(params.last()),
        param_word(params.last()).len() > 0,
        param_word(params.last())[0] == ' ',
        free_of(param_word(params.last()).skip(1), ' '),
        params_are_words(params.drop_last()),
{
    reveal_strlit(" ");
    reveal_strlit("=");
    let last = params.last();
    let init = params.drop_last();
    assert(params[params.len() - 1] == last);
    signed_numerals_are_words(last.1 as int);
    let word = param_word(last);
    assert(introspect::params_text(params) =~= introspect::params_text(init) + word);
    let rest = last.0 + ("="@ + text::signed_decimal(last.1 as int));
    assert(word.skip(1) =~= rest);
    assert forall|i: int| 0 <= i < init.len() implies free_of((#[trigger] init[i]).0, ' ')
        && free_of(init[i].0, '=') by {
        assert(init[i] == params[i]);
    }
}

/// Written parameters are nothing or start with a space.
proof fn params_text_starts(params: Seq<(Seq<char>, i64)>)
    requires
        params_are_words(params),
    ensures
        empty_or_at(introspect::params_text(params), ' '),
    decreases params.len(),
{
    if params.len() > 0 {
        params_text_ends(params);
        params_text_starts(params.drop_last());
    }
}

/// A written parameter is read back.
proof fn param_words_are_distinct(a: (Seq<char>, i64), b: (Seq<char>, i64))
    requires
        free_of(a.0, '='),
        free_of(b.0, '='),
        param_word(a) == param_word(b),
    ensures
        a == b,
{
    reveal_strlit("=");
    let x = "="@ + text::signed_decimal(a.1 as int);
    let y = "="@ + text::signed_decimal(b.1 as int);
    same_start(" "@, a.0 + x, b.0 + y);
    cut_at_first(a.0, x, b.0, y, '=');
    same_start("="@, text::signed_decimal(a.1 as int), text::signed_decimal(b.1 as int));
    signed_numerals_are_distinct(a.1 as int, b.1 as int);
}

/// The last of some written parameters is read back, and what stands before it
/// is left.
#[verifier::spinoff_prover]
proof fn last_params_agree(a: Seq<(Seq<char>, i64)>, b: Seq<(Seq<char>, i64)>)
    requires
        a.len() > 0,
        b.len() > 0,
        params_are_words(a),
        params_are_words(b),
        introspect::params_text(a) == introspect::params_text(b),
    ensures
        a.last() == b.last(),
        introspect::params_text(a.drop_last()) == introspect::params_text(b.drop_last()),
        params_are_words(a.drop_last()),
        params_are_words(b.drop_last()),
{
    params_text_ends(a);
    params_text_ends(b);
    let p = param_word(a.last());
    let q = param_word(b.last());
    cut_at_last(
        introspect::params_text(a.drop_last()),
        p,
        introspect::params_text(b.drop_last()),
        q,
        ' ',
    );
    assert(free_of(a[a.len() - 1].0, '=') && free_of(b[b.len() - 1].0, '='));
    param_words_are_distinct(a.last(), b.last());
}

/// Written parameters are read back.
#[verifier::spinoff_prover]
proof fn params_are_distinct(a: Seq<(Seq<char>, i64)>, b: Seq<(Seq<char>, i64)>)
    requires
        params_are_words(a),
        params_are_words(b),
        introspect::params_text(a) == introspect::params_text(b),
    ensures
        a == b,
    decreases a.len(),
{
    if a.len() > 0 && b.len() > 0 {
        last_params_agree(a, b);
        params_are_distinct(a.drop_last(), b.drop_last());
        assert(a =~= a.drop_last().push(a.last()));
        assert(b =~= b.drop_last().push(b.last()));
    } else {
        if a.len() > 0 {
            params_text_ends(a);
        }
        if b.len() > 0 {
            params_text_ends(b);
        }
        assert(a.len() == 0 && b.len() == 0);
        assert(a =~= b);
    }
}

// ── Flags ─────────────────────────────────────────────────────────────

/// Where a piece of text stands under a condition, and what follows does not
/// begin with it, the condition is read back.
proof fn a_piece_is_read_back(
    words: Seq<char>,
    a: bool,
    p: Seq<char>,
    b: bool,
    q: Seq<char>,
)
    requires
        introspect::when(a, words) + p == introspect::when(b, words) + q,
        !text::begins_with(p, words),
        !text::begins_with(q, words),
    ensures
        a == b,
        p == q,
{
    let n = words.len() as int;
    let none = Seq::<char>::empty();
    assert((words + p).take(n) =~= words);
    assert((words + q).take(n) =~= words);
    assert(none + p =~= p);
    assert(none + q =~= q);
    if a && b {
        same_start(words, p, q);
    } else if a {
        assert(text::begins_with(q, words));
    } else if b {
        assert(text::begins_with(p, words));
    }
}

/// Whether a text is a space and a word that is no flag.
spec fn follows_flags(t: Seq<char>) -> bool {
    t.len() > 1 && t[0] == ' ' && t[1] != '<'
}

spec fn from_nowait(rule: RuleView, t: Seq<char>) -> Seq<char> {
    introspect::when(rule.nowait, " <nowait>"@) + t
}

spec fn from_shift(rule: RuleView, t: Seq<char>) -> Seq<char> {
    introspect::when(rule.shift_tolerant, " <shift>"@) + from_nowait(rule, t)
}

spec fn from_norepeat(rule: RuleView, t: Seq<char>) -> Seq<char> {
    introspect::when(rule.repeat == Repeat::Suppress, " <norepeat>"@) + from_shift(rule, t)
}

spec fn from_void(rule: RuleView, t: Seq<char>) -> Seq<char> {
    introspect::when(rule.consume == Consumption::Void, " <void>"@) + from_norepeat(rule, t)
}

/// What follows a flag does not begin with it.
#[verifier::spinoff_prover]
proof fn flags_are_told_apart(rule: RuleView, t: Seq<char>)
    requires
        follows_flags(t),
    ensures
        !text::begins_with(t, " <nowait>"@),
        !text::begins_with(from_nowait(rule, t), " <shift>"@),
        !text::begins_with(from_shift(rule, t), " <norepeat>"@),
        !text::begins_with(from_norepeat(rule, t), " <void>"@),
        !text::begins_with(from_void(rule, t), " <physical>"@),
{
    reveal_strlit(" <nowait>");
    reveal_strlit(" <shift>");
    reveal_strlit(" <norepeat>");
    reveal_strlit(" <void>");
    reveal_strlit(" <physical>");
    let d = from_nowait(rule, t);
    let c = from_shift(rule, t);
    let b = from_norepeat(rule, t);
    let a = from_void(rule, t);
    assert(!rule.nowait ==> d =~= t);
    assert(!rule.shift_tolerant ==> c =~= d);
    assert(rule.repeat != Repeat::Suppress ==> b =~= c);
    assert(rule.consume != Consumption::Void ==> a =~= b);
    if text::begins_with(t, " <nowait>"@) {
        assert(t.take(9)[1] == t[1]);
    }
    assert(d[1] == '<' ==> d.len() > 8 && d[2] == 'n' && d[4] == 'w');
    if text::begins_with(d, " <shift>"@) {
        assert(d.take(8)[1] == d[1] && d.take(8)[2] == d[2]);
    }
    assert(c[1] == '<' ==> c.len() > 7 && (c[2] == 's' || (c[2] == 'n' && c[4] == 'w')));
    if text::begins_with(c, " <norepeat>"@) {
        assert(c.take(11)[1] == c[1] && c.take(11)[2] == c[2] && c.take(11)[4] == c[4]);
    }
    assert(b[1] == '<' ==> b[2] == 'n' || b[2] == 's');
    if text::begins_with(b, " <void>"@) {
        assert(b.take(7)[1] == b[1] && b.take(7)[2] == b[2]);
    }
    assert(a[1] == '<' ==> a[2] == 'n' || a[2] == 's' || a[2] == 'v');
    if text::begins_with(a, " <physical>"@) {
        assert(a.take(11)[1] == a[1] && a.take(11)[2] == a[2]);
    }
}

#[verifier::spinoff_prover]
proof fn flags_text_in_parts(rule: RuleView, t: Seq<char>)
    ensures
        introspect::flags_text(rule) + t == introspect::when(rule.physical, " <physical>"@)
            + from_void(rule, t),
{
    let a = introspect::when(rule.physical, " <physical>"@);
    let b = introspect::when(rule.consume == Consumption::Void, " <void>"@);
    let c = introspect::when(rule.repeat == Repeat::Suppress, " <norepeat>"@);
    let d = introspect::when(rule.shift_tolerant, " <shift>"@);
    let e = introspect::when(rule.nowait, " <nowait>"@);
    sums_regroup(a + b + c + d, e, t);
    sums_regroup(a + b + c, d, e + t);
    sums_regroup(a + b, c, d + (e + t));
    sums_regroup(a, b, c + (d + (e + t)));
}

proof fn sums_regroup(a: Seq<char>, b: Seq<char>, c: Seq<char>)
    ensures
        a + b + c == a + (b + c),
{
    assert(a + b + c =~= a + (b + c));
}

/// The flags of a written rule are read back, and what follows them is left.
#[verifier::spinoff_prover]
proof fn flags_are_read_back(a: RuleView, p: Seq<char>, b: RuleView, q: Seq<char>)
    requires
        follows_flags(p),
        follows_flags(q),
        introspect::flags_text(a) + p == introspect::flags_text(b) + q,
    ensures
        a.physical == b.physical,
        a.consume == b.consume,
        a.repeat == b.repeat,
        a.shift_tolerant == b.shift_tolerant,
        a.nowait == b.nowait,
        p == q,
{
    let flag = " <physical>"@;
    flags_text_in_parts(a, p);
    flags_text_in_parts(b, q);
    flags_are_told_apart(a, p);
    flags_are_told_apart(b, q);
    a_piece_is_read_back(flag, a.physical, from_void(a, p), b.physical, from_void(b, q));
    a_piece_is_read_back(
        " <void>"@,
        a.consume == Consumption::Void,
        from_norepeat(a, p),
        b.consume == Consumption::Void,
        from_norepeat(b, q),
    );
    a_piece_is_read_back(
        " <norepeat>"@,
        a.repeat == Repeat::Suppress,
        from_shift(a, p),
        b.repeat == Repeat::Suppress,
        from_shift(b, q),
    );
    a_piece_is_read_back(
        " <shift>"@,
        a.shift_tolerant,
        from_nowait(a, p),
        b.shift_tolerant,
        from_nowait(b, q),
    );
    a_piece_is_read_back(" <nowait>"@, a.nowait, p, b.nowait, q);
}

// ── Rules ─────────────────────────────────────────────────────────────

/// Whether the parts of a rule are words: its surface is one and no flag, its
/// target is one that names it, and so is each of its parameters.
pub open spec fn is_writable(rule: RuleView, registry: Seq<ActionSpec>) -> bool {
    &&& free_of(rule.surface, ' ')
    &&& rule.surface.len() > 0 ==> rule.surface[0] != '<'
    &&& target_is_a_word(rule.target, registry)
    &&& params_are_words(rule.params)
}

/// What is written of a rule after its keys.
spec fn after_keys(rule: RuleView, registry: Seq<ActionSpec>) -> Seq<char> {
    " "@ + (introspect::target_text(rule.target, registry) + introspect::params_text(rule.params))
}

/// What is written of a rule after its surface.
spec fn after_surface(rule: RuleView, registry: Seq<ActionSpec>, names: KeyNames) -> Seq<char> {
    " "@ + (introspect::keys_text(names, rule.lhs) + after_keys(rule, registry))
}

/// What is written of a rule after its flags.
spec fn after_flags(rule: RuleView, registry: Seq<ActionSpec>, names: KeyNames) -> Seq<char> {
    " "@ + (rule.surface + after_surface(rule, registry, names))
}

#[verifier::spinoff_prover]
proof fn rule_text_in_parts(rule: RuleView, registry: Seq<ActionSpec>, names: KeyNames)
    requires
        is_writable(rule, registry),
    ensures
        introspect::rule_text(rule, registry, names) == "panelmap"@ + (introspect::flags_text(rule)
            + after_flags(rule, registry, names)),
        follows_flags(after_flags(rule, registry, names)),
        after_surface(rule, registry, names).len() > 0,
        after_surface(rule, registry, names)[0] == ' ',
        after_keys(rule, registry).len() > 0,
        after_keys(rule, registry)[0] == ' ',
{
    reveal_strlit(" ");
    let text = introspect::rule_text(rule, registry, names);
    assert(text =~= "panelmap"@ + (introspect::flags_text(rule) + after_flags(
        rule,
        registry,
        names,
    )));
    let t = after_flags(rule, registry, names);
    if rule.surface.len() > 0 {
        assert(t[1] == rule.surface[0]);
    } else {
        assert(t[1] == after_surface(rule, registry, names)[0]);
    }
}

/// No two rules are written alike: where the lines of two rules are the same,
/// so are their surfaces, keys, targets, parameters and flags. Only who
/// installed a rule, and its description, is not written.
///
/// The keys can be told apart in a row, and every other part is a word.
pub proof fn rules_written_alike_are_alike(
    a: RuleView,
    b: RuleView,
    registry: Seq<ActionSpec>,
    names: KeyNames,
)
    requires
        is_writable(a, registry),
        is_writable(b, registry),
        action::spec_names(registry).no_duplicates(),
        keys_can_be_told_apart(names, a.lhs + b.lhs),
        introspect::rule_text(a, registry, names) == introspect::rule_text(b, registry, names),
    ensures
        a == (RuleView { owner: a.owner, desc: a.desc, ..b }),
{
    let all = a.lhs + b.lhs;
    assert forall|i: int| 0 <= i < a.lhs.len() implies all.contains(#[trigger] a.lhs[i]) && free_of(
        names.spec_text(a.lhs[i]),
        ' ',
    ) by {
        assert(all[i] == a.lhs[i]);
    }
    assert forall|i: int| 0 <= i < b.lhs.len() implies all.contains(#[trigger] b.lhs[i]) && free_of(
        names.spec_text(b.lhs[i]),
        ' ',
    ) by {
        assert(all[a.lhs.len() + i] == b.lhs[i]);
    }
    rule_text_in_parts(a, registry, names);
    rule_text_in_parts(b, registry, names);
    let p = after_flags(a, registry, names);
    let q = after_flags(b, registry, names);
    same_start("panelmap"@, introspect::flags_text(a) + p, introspect::flags_text(b) + q);
    flags_are_read_back(a, p, b, q);
    let x = after_surface(a, registry, names);
    let y = after_surface(b, registry, names);
    same_start(" "@, a.surface + x, b.surface + y);
    cut_at_first(a.surface, x, b.surface, y, ' ');
    let k = introspect::keys_text(names, a.lhs);
    let l = introspect::keys_text(names, b.lhs);
    same_start(" "@, k + after_keys(a, registry), l + after_keys(b, registry));
    keys_text_is_a_word(names, a.lhs);
    keys_text_is_a_word(names, b.lhs);
    cut_at_first(k, after_keys(a, registry), l, after_keys(b, registry), ' ');
    key_sequences_are_distinct(names, all, a.lhs, b.lhs);
    let t = introspect::target_text(a.target, registry);
    let u = introspect::target_text(b.target, registry);
    let m = introspect::params_text(a.params);
    let n = introspect::params_text(b.params);
    same_start(" "@, t + m, u + n);
    targets_are_words(a.target, registry);
    targets_are_words(b.target, registry);
    params_text_starts(a.params);
    params_text_starts(b.params);
    cut_at_first(t, m, u, n, ' ');
    targets_are_distinct(a.target, b.target, registry);
    params_are_distinct(a.params, b.params);
}

/// The target of a line gives its description.
proof fn targets_describe(a: TargetSpec, b: TargetSpec, registry: Seq<ActionSpec>)
    requires
        registry.len() <= u32::MAX,
    ensures
        bind::target_of(a, registry) matches Ok((t, x)) ==> (bind::target_of(
            b,
            registry,
        ) matches Ok((u, y)) ==> (t == u ==> x == y)),
{
    let names = action::spec_names(registry);
    if let (TargetSpec::Action(p), TargetSpec::Action(q)) = (a, b) {
        let m = text::compact_text(p);
        let n = text::compact_text(q);
        if names.contains(m) && names.contains(n) {
            let i = names.index_of(m);
            let j = names.index_of(n);
            assert(names[i] == m && 0 <= i < names.len());
            assert(names[j] == n && 0 <= j < names.len());
        }
    }
}

/// A written rule reads back: where what a reader makes of the line of a rule
/// is a rule that is written as that line, it is the same rule, with whoever
/// reads it as its owner; and applied to an index without rules it loads, and
/// is the one rule there.
pub proof fn a_written_rule_reads_back(
    rule: RuleView,
    from: PanelMap,
    by: OwnerView,
    map: PanelMap,
    read: RuleView,
    owner: OwnerView,
    v: IndexView,
    registry: Seq<ActionSpec>,
    names: KeyNames,
    grammar: bool,
)
    requires
        bind::rule_of_line(from, registry, v.forest, by) == Ok::<RuleView, RejectView>(rule),
        bind::rejection(v.forest, rule, registry, grammar) is None,
        bind::rule_of_line(map, registry, v.forest, owner) == Ok::<RuleView, RejectView>(read),
        introspect::rule_text(read, registry, names) == introspect::rule_text(
            rule,
            registry,
            names,
        ),
        is_writable(rule, registry),
        is_writable(read, registry),
        action::spec_names(registry).no_duplicates(),
        registry.len() <= u32::MAX,
        keys_can_be_told_apart(names, read.lhs + rule.lhs),
        v.surfaces.len() == 0,
        v.slots.len() == 0,
        v.arena.len() == 0,
    ensures
        read == (RuleView { owner, ..rule }),
        ({
            let (after, rejected) = bind::line_applied(
                v,
                PanelLine::Bind { map, grammar },
                registry,
                owner,
            );
            &&& rejected is None
            &&& after.rules() == seq![read]
        }),
{
    rules_written_alike_are_alike(read, rule, registry, names);
    targets_describe(from.target, map.target, registry);
    bind_laws::empty_index_is_well_formed(v);
    bind_laws::upsert_replaces_in_place_or_appends(v, read);
    assert(v.rules() =~= Seq::empty());
    search::first_where_is_first(v.rules(), bind_laws::of_rule(read.surface, read.lhs));
    assert(v.rules().push(read) =~= seq![read]);
}

} // verus!
