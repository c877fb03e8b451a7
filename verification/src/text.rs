//! Text: comparison, compact strings and decimal numerals.

use vstd::prelude::*;
use vstd::string::*;
use vstd::utf8::*;
use compact_str::CompactString;

verus! {

/// The compact string type that rules, chains and diagnostics are made of.
#[verifier::external_type_specification]
#[verifier::external_body]
pub struct ExCompactString(CompactString);

/// The characters a compact string holds.
pub uninterp spec fn compact_text(s: CompactString) -> Seq<char>;

/// `CompactString::new` on a string slice: the result holds exactly the
/// characters of the slice.
#[verifier::external_body]
pub(crate) fn compact_from(s: &str) -> (r: CompactString)
    ensures
        compact_text(r) == s@,
{
    CompactString::new(s)
}

/// `CompactString::as_str`: the slice shows exactly the characters held.
#[verifier::external_body]
pub(crate) fn as_text(s: &CompactString) -> (r: &str)
    ensures
        r@ == compact_text(*s),
{
    s.as_str()
}

/// `String::push`: appends the given character to the end of the string.
pub assume_specification[ String::push ](s: &mut String, c: char)
    ensures
        final(s)@ == old(s)@.push(c),
;

/// `CompactString::clone`: the copy holds the same characters.
pub assume_specification[ <CompactString as Clone>::clone ](s: &CompactString) -> (r: CompactString)
    ensures
        compact_text(r) == compact_text(*s),
;

/// Whether two string slices hold the same characters.
pub fn str_eq(a: &str, b: &str) -> (r: bool)
    ensures
        r == (a@ == b@),
{
    let x: &[u8] = a.as_bytes();
    let y: &[u8] = b.as_bytes();
    proof {
        encode_utf8_decode_utf8(a@);
        encode_utf8_decode_utf8(b@);
    }
    if x.len() != y.len() {
        return false;
    }
    let mut i: usize = 0;
    while i < x.len()
        invariant
            x@.len() == y@.len(),
            i <= x@.len(),
            forall|j: int| 0 <= j < i ==> x@[j] == y@[j],
            x@ == a.spec_bytes(),
            y@ == b.spec_bytes(),
        decreases x@.len() - i,
    {
        if x[i] != y[i] {
            return false;
        }
        i = i + 1;
    }
    assert(x@ =~= y@);
    true
}

/// Whether a text begins with another.
pub open spec fn begins_with(s: Seq<char>, prefix: Seq<char>) -> bool {
    prefix.len() <= s.len() && s.take(prefix.len() as int) == prefix
}

/// Whether `s` begins with `prefix`.
pub fn str_starts_with(s: &str, prefix: &str) -> (r: bool)
    ensures
        r == begins_with(s@, prefix@),
{
    let n: usize = prefix.unicode_len();
    if s.unicode_len() < n {
        return false;
    }
    let mut i: usize = 0;
    while i < n
        invariant
            i <= n,
            n == prefix@.len(),
            n <= s@.len(),
            forall|j: int| 0 <= j < i ==> s@[j] == prefix@[j],
        decreases n - i,
    {
        if s.get_char(i) != prefix.get_char(i) {
            assert(s@.take(n as int)[i as int] != prefix@[i as int]);
            return false;
        }
        i = i + 1;
    }
    assert(s@.take(n as int) =~= prefix@);
    true
}

/// What each of several string slices holds.
pub open spec fn views(parts: Seq<&str>) -> Seq<Seq<char>> {
    parts.map_values(|s: &str| s@)
}

/// Pieces of text with a separator between each two of them.
pub open spec fn joined(parts: Seq<Seq<char>>, sep: Seq<char>) -> Seq<char>
    decreases parts.len(),
{
    if parts.len() == 0 {
        Seq::empty()
    } else if parts.len() == 1 {
        parts[0]
    } else {
        joined(parts.drop_last(), sep) + sep + parts.last()
    }
}

/// Append pieces of text with a separator between each two of them.
pub fn push_joined(out: &mut String, parts: &Vec<&str>, sep: &str)
    ensures
        final(out)@ == old(out)@ + joined(views(parts@), sep@),
{
    let ghost all = views(parts@);
    let ghost start = out@;
    let mut i: usize = 0;
    assert(start + Seq::<char>::empty() =~= start);
    while i < parts.len()
        invariant
            i <= parts@.len(),
            all == views(parts@),
            out@ == start + joined(all.take(i as int), sep@),
        decreases parts@.len() - i,
    {
        if i > 0 {
            out.append(sep);
        }
        out.append(parts[i]);
        proof {
            let head = all.take(i + 1);
            assert(head.drop_last() =~= all.take(i as int));
            assert(head.last() == all[i as int]);
            assert(out@ =~= start + joined(head, sep@));
        }
        i = i + 1;
    }
    assert(all.take(i as int) =~= all);
}

/// The character of a decimal digit.
pub open spec fn digit_char(d: int) -> char {
    (('0' as u32) + d) as char
}

/// The decimal numeral of a natural number, without leading zeros.
pub open spec fn decimal(n: nat) -> Seq<char>
    decreases n,
{
    if n < 10 {
        seq![digit_char(n as int)]
    } else {
        decimal(n / 10).push(digit_char((n % 10) as int))
    }
}

/// The decimal numeral of an integer, with a leading minus sign below zero.
pub open spec fn signed_decimal(n: int) -> Seq<char> {
    if n < 0 {
        seq!['-'] + decimal((-n) as nat)
    } else {
        decimal(n as nat)
    }
}

/// Append the decimal numeral of `n`.
pub fn push_decimal(out: &mut String, n: u64)
    ensures
        final(out)@ == old(out)@ + decimal(n as nat),
    decreases n,
{
    if n >= 10 {
        push_decimal(out, n / 10);
    }
    push_digit(out, n % 10);
    proof {
        let d = decimal(n as nat);
        if n >= 10 {
            assert(old(out)@ + d =~= (old(out)@ + decimal((n / 10) as nat)).push(
                digit_char((n % 10) as int),
            ));
        } else {
            assert(old(out)@ + d =~= old(out)@.push(digit_char(n as int)));
        }
    }
}

/// Append one decimal digit.
fn push_digit(out: &mut String, d: u64)
    requires
        d < 10,
    ensures
        final(out)@ == old(out)@.push(digit_char(d as int)),
{
    let b: u8 = 48 + d as u8;
    out.push(b as char);
}

/// Append the decimal numeral of a signed number.
pub fn push_signed(out: &mut String, n: i64)
    ensures
        final(out)@ == old(out)@ + signed_decimal(n as int),
{
    if n < 0 {
        out.append("-");
        proof {
            reveal_strlit("-");
            assert("-"@ =~= seq!['-']);
        }
        // The magnitude of the least i64 does not fit an i64.
        let m: u64 = (-(n + 1)) as u64 + 1;
        push_decimal(out, m);
        assert(final(out)@ =~= old(out)@ + signed_decimal(n as int));
    } else {
        push_decimal(out, n as u64);
    }
}

// ── Lines ─────────────────────────────────────────────────────────────

/// Where the first newline of a text is, or its length where it has none.
pub open spec fn newline_at(text: Seq<char>) -> nat
    decreases text.len(),
{
    if text.len() == 0 || text[0] == '\n' {
        0
    } else {
        newline_at(text.skip(1)) + 1
    }
}

/// A line without the carriage return that belongs to its ending.
pub open spec fn without_return(line: Seq<char>) -> Seq<char> {
    if line.len() > 0 && line.last() == '\r' {
        line.drop_last()
    } else {
        line
    }
}

/// The lines of a text. Each ends at a newline, with or without a carriage
/// return before it; the last may lack its ending.
pub open spec fn lines_of(text: Seq<char>) -> Seq<Seq<char>>
    decreases text.len(),
{
    let n = newline_at(text) as int;
    if text.len() == 0 {
        Seq::empty()
    } else if n >= text.len() {
        seq![text]
    } else {
        seq![without_return(text.take(n))] + lines_of(text.skip(n + 1))
    }
}

/// Where no newline stands before a place and one stands there, or the text
/// ends, that place is the first.
pub proof fn newline_is_at(text: Seq<char>, n: int)
    requires
        0 <= n <= text.len(),
        forall|i: int| 0 <= i < n ==> text[i] != '\n',
        n < text.len() ==> text[n] == '\n',
    ensures
        newline_at(text) == n,
    decreases n,
{
    if n > 0 {
        let rest = text.skip(1);
        assert forall|i: int| 0 <= i < n - 1 implies rest[i] != '\n' by {
            assert(rest[i] == text[i + 1]);
        }
        newline_is_at(rest, n - 1);
    }
}

/// What the place of the first newline means.
proof fn newline_is_first(text: Seq<char>)
    ensures
        newline_at(text) <= text.len(),
        forall|i: int| 0 <= i < newline_at(text) ==> text[i] != '\n',
        newline_at(text) < text.len() ==> text[newline_at(text) as int] == '\n',
    decreases text.len(),
{
    if text.len() > 0 && text[0] != '\n' {
        let rest = text.skip(1);
        newline_is_first(rest);
        assert forall|i: int| 0 <= i < newline_at(text) implies text[i] != '\n' by {
            if i > 0 {
                assert(rest[i - 1] == text[i]);
            }
        }
    }
}

/// The lines of two texts that a newline joins are the lines of the one and
/// then the lines of the other, where the first ends within a line.
pub proof fn joined_lines(first: Seq<char>, second: Seq<char>)
    requires
        first.len() > 0,
        first.last() != '\n',
        first.last() != '\r',
    ensures
        lines_of(first + seq!['\n'] + second) == lines_of(first) + lines_of(second),
    decreases first.len(),
{
    let joined = first + seq!['\n'] + second;
    let n = newline_at(first) as int;
    newline_is_first(first);
    assert forall|i: int| 0 <= i < first.len() implies joined[i] == first[i] by {}
    assert(joined[first.len() as int] == '\n');
    newline_is_at(joined, n);
    assert(joined.take(n) =~= first.take(n));
    if n >= first.len() {
        assert(first.take(n) =~= first);
        assert(joined.skip(n + 1) =~= second);
    } else {
        let rest = first.skip(n + 1);
        assert(n != first.len() - 1);
        assert(rest.last() == first.last());
        assert(joined.skip(n + 1) =~= rest + seq!['\n'] + second);
        joined_lines(rest, second);
        let one = seq![without_return(first.take(n))];
        assert(one + (lines_of(rest) + lines_of(second)) =~= one + lines_of(rest) + lines_of(
            second,
        ));
    }
}

/// A text has no more lines than characters.
pub proof fn lines_are_no_more_than_characters(text: Seq<char>)
    ensures
        lines_of(text).len() <= text.len(),
    decreases text.len(),
{
    let n = newline_at(text) as int;
    if text.len() > 0 && n < text.len() {
        lines_are_no_more_than_characters(text.skip(n + 1));
    }
}

/// What each of several strings holds.
pub open spec fn contents(parts: Seq<String>) -> Seq<Seq<char>> {
    parts.map_values(|s: String| s@)
}

/// The lines of a text.
pub fn split_lines(text: &str) -> (r: Vec<String>)
    ensures
        contents(r@) == lines_of(text@),
{
    let n: usize = text.unicode_len();
    let mut lines: Vec<String> = Vec::new();
    let mut start: usize = 0;
    let mut i: usize = 0;
    let mut line = String::new();
    assert(text@.skip(0) =~= text@);
    assert(contents(lines@) + lines_of(text@) =~= lines_of(text@));
    assert(line@ =~= text@.subrange(0, 0));
    while i < n
        invariant
            n == text@.len(),
            start <= i <= n,
            line@ == text@.subrange(start as int, i as int),
            forall|j: int| start <= j < i ==> text@[j] != '\n',
            start < i < n && text@[i - 1] == '\r' ==> text@[i as int] != '\n',
            contents(lines@) + lines_of(text@.skip(start as int)) == lines_of(text@),
        decreases n - i,
    {
        let c: char = text.get_char(i);
        let mut end: usize = i;
        let mut ended = c == '\n';
        if c == '\r' && i + 1 < n {
            end = i + 1;
            ended = text.get_char(end) == '\n';
        }
        if ended {
            proof {
                let rest = text@.skip(start as int);
                let at = end - start;
                assert forall|j: int| 0 <= j < at implies rest[j] != '\n' by {
                    assert(rest[j] == text@[start + j]);
                }
                assert(rest[at] == text@[end as int]);
                newline_is_at(rest, at);
                let whole = rest.take(at);
                if end == i {
                    assert(whole =~= line@);
                    if whole.len() > 0 {
                        assert(whole.last() == text@[i - 1]);
                    }
                } else {
                    assert(whole.last() == '\r');
                    assert(whole.drop_last() =~= line@);
                }
                assert(rest.skip(at + 1) =~= text@.skip(end + 1));
            }
            let ghost before = lines@;
            let ghost words = line@;
            lines.push(line);
            line = String::new();
            i = end + 1;
            start = i;
            proof {
                let rest = lines_of(text@.skip(start as int));
                assert(contents(lines@) =~= contents(before).push(words));
                assert(contents(lines@) + rest =~= contents(before) + (seq![words] + rest));
                assert(line@ =~= text@.subrange(start as int, i as int));
            }
        } else {
            line.push(c);
            i = i + 1;
            assert(line@ =~= text@.subrange(start as int, i as int));
        }
    }
    proof {
        let rest = text@.skip(start as int);
        assert(line@ =~= rest);
        assert forall|j: int| 0 <= j < rest.len() implies rest[j] != '\n' by {
            assert(rest[j] == text@[start + j]);
        }
        newline_is_at(rest, rest.len() as int);
    }
    if start < n {
        let ghost before = lines@;
        let ghost words = line@;
        lines.push(line);
        assert(contents(lines@) =~= contents(before).push(words));
        assert(contents(lines@) =~= contents(before) + seq![words]);
    }
    lines
}

} // verus!
