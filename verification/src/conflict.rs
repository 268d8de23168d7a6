//! Conflict reasons and the rule for combining them.

use vstd::prelude::*;

verus! {

/// Why a message's payload cannot be validly applied to the ledger.
#[derive(Clone, Copy, Debug, PartialEq, Eq, Structural)]
pub enum ConflictReason {
    /// The message has no conflict.
    NoConflict,
    /// A referenced output was already spent.
    InputUtxoAlreadySpent,
    /// A referenced output was already spent while confirming the same milestone.
    InputUtxoAlreadySpentInThisMilestone,
    /// A referenced output cannot be found.
    InputUtxoNotFound,
    /// The created amount does not match the consumed amount.
    CreatedConsumedAmountMismatch,
    /// An unlock block signature is invalid.
    InvalidSignature,
    /// The semantic validation of the payload failed.
    SemanticValidationFailed,
}

impl ConflictReason {
    /// Whether this is a concrete reason, as opposed to [`ConflictReason::NoConflict`].
    pub open spec fn is_conflicting(self) -> bool {
        self != ConflictReason::NoConflict
    }

    /// Tells whether the reason is a concrete one.
    pub fn conflicting(&self) -> (b: bool)
        ensures
            b == self.is_conflicting(),
    {
        !matches!(self, ConflictReason::NoConflict)
    }
}

impl Default for ConflictReason {
    fn default() -> (r: Self)
        ensures
            r == ConflictReason::NoConflict,
    {
        ConflictReason::NoConflict
    }
}

/// The reason that stands after `candidate` is proposed while `current` is recorded:
/// the first concrete reason wins.
pub open spec fn resolved(current: ConflictReason, candidate: ConflictReason) -> ConflictReason {
    if current == ConflictReason::NoConflict {
        candidate
    } else {
        current
    }
}

/// Combines the recorded conflict reason with a newly proposed one.
pub fn resolve(current: ConflictReason, candidate: ConflictReason) -> (r: ConflictReason)
    ensures
        r == resolved(current, candidate),
{
    match current {
        ConflictReason::NoConflict => candidate,
        _ => current,
    }
}

/// A recorded concrete reason is never replaced.
pub proof fn lemma_resolved_keeps_concrete(current: ConflictReason, candidate: ConflictReason)
    requires
        current.is_conflicting(),
    ensures
        resolved(current, candidate) == current,
{
}

/// Proposing reasons one after the other gives what proposing the first concrete one gives.
pub proof fn lemma_resolved_associative(a: ConflictReason, b: ConflictReason, c: ConflictReason)
    ensures
        resolved(resolved(a, b), c) == resolved(a, resolved(b, c)),
{
}

} // verus!
