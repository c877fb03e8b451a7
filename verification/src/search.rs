//! The first place of a sequence that has a property.

use vstd::prelude::*;

verus! {

/// Place of the first item with a property.
pub open spec fn first_where<T>(items: Seq<T>, p: spec_fn(T) -> bool) -> Option<int>
    decreases items.len(),
{
    if items.len() == 0 {
        None
    } else {
        match first_where(items.drop_last(), p) {
            Some(i) => Some(i),
            None => if p(items.last()) {
                Some(items.len() - 1)
            } else {
                None
            },
        }
    }
}

/// The place that [`first_where`] answers has the property, and none before it
/// does.
pub proof fn first_where_is_first<T>(items: Seq<T>, p: spec_fn(T) -> bool)
    ensures
        match first_where(items, p) {
            Some(i) => {
                &&& 0 <= i < items.len()
                &&& p(items[i])
                &&& forall|j: int| 0 <= j < i ==> !p(#[trigger] items[j])
            },
            None => forall|j: int| 0 <= j < items.len() ==> !p(#[trigger] items[j]),
        },
    decreases items.len(),
{
    if items.len() > 0 {
        let init = items.drop_last();
        first_where_is_first(init, p);
        match first_where(init, p) {
            Some(i) => {
                assert(items[i] == init[i]);
                assert forall|j: int| 0 <= j < i implies !p(#[trigger] items[j]) by {
                    assert(items[j] == init[j]);
                }
            },
            None => {
                assert forall|j: int| 0 <= j < init.len() implies !p(#[trigger] items[j]) by {
                    assert(items[j] == init[j]);
                }
            },
        }
    }
}

/// A place that has the property, with none before it, is the first.
pub proof fn is_first_where<T>(items: Seq<T>, p: spec_fn(T) -> bool, i: int)
    requires
        0 <= i < items.len(),
        p(items[i]),
        forall|j: int| 0 <= j < i ==> !p(#[trigger] items[j]),
    ensures
        first_where(items, p) == Some(i),
{
    first_where_is_first(items, p);
    if let Some(k) = first_where(items, p) {
        if k < i {
            assert(!p(items[k]));
        }
        if i < k {
            assert(!p(items[i]));
        }
    }
}

/// Two sequences that have the property in the same places have the same first
/// place.
pub proof fn first_where_agrees<T>(a: Seq<T>, b: Seq<T>, p: spec_fn(T) -> bool)
    requires
        a.len() == b.len(),
        forall|i: int| 0 <= i < a.len() ==> p(#[trigger] a[i]) == p(b[i]),
    ensures
        first_where(a, p) == first_where(b, p),
{
    first_where_is_first(a, p);
    first_where_is_first(b, p);
    match first_where(a, p) {
        Some(i) => {
            assert(p(b[i]));
            assert forall|j: int| 0 <= j < i implies !p(#[trigger] b[j]) by {
                assert(!p(a[j]));
            }
            is_first_where(b, p, i);
        },
        None => {
            if let Some(k) = first_where(b, p) {
                assert(!p(a[k]));
            }
        },
    }
}

/// An item put at the end is found there where no other has the property.
pub proof fn first_where_pushed<T>(items: Seq<T>, x: T, p: spec_fn(T) -> bool)
    requires
        first_where(items, p) is None,
        p(x),
    ensures
        first_where(items.push(x), p) == Some(items.len() as int),
{
    assert(items.push(x).drop_last() =~= items);
}

} // verus!
