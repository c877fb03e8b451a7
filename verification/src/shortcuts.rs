//! Whether the editor has its shortcut interface: older builds lack it.

use vstd::prelude::*;

verus! {

/// Ask `probe` at most once per cell, and remember the answer either way.
///
/// A memo that kept only `true` would ask again on every keystroke.
pub fn memoized<F: FnOnce() -> bool>(cell: &mut Option<bool>, probe: F) -> (r: bool)
    requires
        *old(cell) is None ==> call_requires(probe, ()),
    ensures
        *final(cell) == Some(r),
        *old(cell) matches Some(known) ==> r == known,
        *old(cell) is None ==> call_ensures(probe, (), r),
{
    if let Some(known) = *cell {
        return known;
    }
    let answer = probe();
    *cell = Some(answer);
    answer
}

/// Whether the shortcut interface is there, and whether to say that it is not.
///
/// The absence is reported once: on the call that finds it out.
pub fn shortcut_api<F: FnOnce() -> bool>(cell: &mut Option<bool>, probe: F) -> (r: (bool, bool))
    requires
        *old(cell) is None ==> call_requires(probe, ()),
    ensures
        *final(cell) == Some(r.0),
        *old(cell) matches Some(known) ==> r.0 == known,
        *old(cell) is None ==> call_ensures(probe, (), r.0),
        r.1 == (*old(cell) is None && !r.0),
{
    let first_ask = cell.is_none();
    let available = memoized(cell, probe);
    (available, first_ask && !available)
}

} // verus!
