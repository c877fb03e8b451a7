//! The outcome of a shell-side key handler.
//!
//! Declining is not a failure: it is how a handler lets the editor's own
//! handling of a key proceed. The resolver folds over ordered candidates and
//! stops at the first that does not decline.

use vstd::prelude::*;
use vstd::string::*;

verus! {

/// Tri-state outcome of a shell-side key handler.
#[derive(Debug, Clone, Copy, PartialEq, Eq, Structural)]
#[must_use]
pub enum Outcome {
    /// The event is consumed.
    Handled,
    /// The event is consumed and focus moved to a different control.
    FocusChanged,
    /// The event is not consumed: the editor's native handling proceeds.
    Declined,
}

impl Outcome {
    /// Whether the keystroke is used up.
    pub open spec fn consumes(self) -> bool {
        self != Outcome::Declined
    }

    /// Whether the keystroke is used up: every outcome but a refusal.
    pub fn is_consumed(self) -> (r: bool)
        ensures
            r == self.consumes(),
    {
        match self {
            Outcome::Handled | Outcome::FocusChanged => true,
            Outcome::Declined => false,
        }
    }

    /// The outcome in words.
    pub open spec fn spec_label(self) -> Seq<char> {
        match self {
            Outcome::Handled => "handled"@,
            Outcome::FocusChanged => "focus-changed"@,
            Outcome::Declined => "declined"@,
        }
    }

    /// The outcome in words, as a log line prints it.
    pub fn label(self) -> (r: &'static str)
        ensures
            r@ == self.spec_label(),
    {
        match self {
            Outcome::Handled => "handled",
            Outcome::FocusChanged => "focus-changed",
            Outcome::Declined => "declined",
        }
    }
}

} // verus!
