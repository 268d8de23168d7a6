//! The mutable record kept for each message, and the rule that keeps its settled
//! fields from being rewritten.

use crate::conflict::{resolve, resolved, ConflictReason};
use vstd::prelude::*;

verus! {

/// The state that the node keeps about one message.
#[derive(Clone, Copy, Debug, PartialEq, Eq)]
pub struct MessageMetadata {
    /// When the message arrived.
    pub arrival_timestamp: u64,
    /// When the message became solid; written once.
    pub solidification_timestamp: Option<u64>,
    /// When the message was settled by a milestone; written once.
    pub reference_timestamp: Option<u64>,
    /// The milestone that the message belongs to.
    pub milestone_index: Option<u32>,
    /// Why the payload cannot be applied; a concrete reason is final.
    pub conflict: ConflictReason,
    /// Whether the whole ancestry of the message is known.
    pub solid: bool,
}

/// `b` if `a` is unset, else `a`: the value of a field that is written once.
pub open spec fn written_once<T>(a: Option<T>, b: Option<T>) -> Option<T> {
    if a is Some {
        a
    } else {
        b
    }
}

/// The record that stands when `proposed` is to replace `current`: a settled
/// timestamp and a concrete conflict reason of `current` stay, everything else is
/// taken from `proposed`.
pub open spec fn accepted(current: MessageMetadata, proposed: MessageMetadata) -> MessageMetadata {
    MessageMetadata {
        arrival_timestamp: proposed.arrival_timestamp,
        solidification_timestamp: written_once(
            current.solidification_timestamp,
            proposed.solidification_timestamp,
        ),
        reference_timestamp: written_once(current.reference_timestamp, proposed.reference_timestamp),
        milestone_index: proposed.milestone_index,
        conflict: resolved(current.conflict, proposed.conflict),
        solid: proposed.solid,
    }
}

/// Whether `later` keeps every settled field of `earlier`.
pub open spec fn preserves_settled(earlier: MessageMetadata, later: MessageMetadata) -> bool {
    &&& earlier.solidification_timestamp is Some ==> later.solidification_timestamp
        == earlier.solidification_timestamp
    &&& earlier.reference_timestamp is Some ==> later.reference_timestamp
        == earlier.reference_timestamp
    &&& earlier.conflict.is_conflicting() ==> later.conflict == earlier.conflict
}

/// The record that stands after each of `proposals` was accepted in turn.
pub open spec fn accepted_all(
    current: MessageMetadata,
    proposals: Seq<MessageMetadata>,
) -> MessageMetadata
    decreases proposals.len(),
{
    if proposals.len() == 0 {
        current
    } else {
        accepted(accepted_all(current, proposals.drop_last()), proposals.last())
    }
}

impl MessageMetadata {
    /// The record of a message that arrived at `arrival_timestamp`.
    pub fn new(arrival_timestamp: u64) -> (m: Self)
        ensures
            m == (MessageMetadata {
                arrival_timestamp,
                solidification_timestamp: None,
                reference_timestamp: None,
                milestone_index: None,
                conflict: ConflictReason::NoConflict,
                solid: false,
            }),
    {
        MessageMetadata {
            arrival_timestamp,
            solidification_timestamp: None,
            reference_timestamp: None,
            milestone_index: None,
            conflict: ConflictReason::NoConflict,
            solid: false,
        }
    }

    /// When the message arrived.
    pub fn arrival_timestamp(&self) -> (t: u64)
        ensures
            t == self.arrival_timestamp,
    {
        self.arrival_timestamp
    }

    /// When the message became solid, if it did.
    pub fn solidification_timestamp(&self) -> (t: Option<u64>)
        ensures
            t == self.solidification_timestamp,
    {
        self.solidification_timestamp
    }

    /// When the message was settled, if it was.
    pub fn reference_timestamp(&self) -> (t: Option<u64>)
        ensures
            t == self.reference_timestamp,
    {
        self.reference_timestamp
    }

    /// The milestone that the message belongs to, if any.
    pub fn milestone_index(&self) -> (i: Option<u32>)
        ensures
            i == self.milestone_index,
    {
        self.milestone_index
    }

    /// The recorded conflict reason.
    pub fn conflict(&self) -> (c: ConflictReason)
        ensures
            c == self.conflict,
    {
        self.conflict
    }

    /// Whether the message is solid.
    pub fn is_solid(&self) -> (b: bool)
        ensures
            b == self.solid,
    {
        self.solid
    }

    /// Whether the message was settled.
    pub fn is_referenced(&self) -> (b: bool)
        ensures
            b == (self.reference_timestamp is Some),
    {
        self.reference_timestamp.is_some()
    }

    /// Marks the message solid as of `timestamp`; a recorded solidification
    /// timestamp stays.
    pub fn mark_solid(&mut self, timestamp: u64)
        ensures
            *final(self) == (MessageMetadata {
                solid: true,
                solidification_timestamp: written_once(
                    old(self).solidification_timestamp,
                    Some(timestamp),
                ),
                ..*old(self)
            }),
    {
        self.solid = true;
        if self.solidification_timestamp.is_none() {
            self.solidification_timestamp = Some(timestamp);
        }
    }

    /// Settles the message as of `timestamp`; a recorded reference timestamp stays.
    pub fn reference(&mut self, timestamp: u64)
        ensures
            *final(self) == (MessageMetadata {
                reference_timestamp: written_once(old(self).reference_timestamp, Some(timestamp)),
                ..*old(self)
            }),
    {
        if self.reference_timestamp.is_none() {
            self.reference_timestamp = Some(timestamp);
        }
    }

    /// Records the milestone that the message belongs to.
    pub fn set_milestone_index(&mut self, index: u32)
        ensures
            *final(self) == (MessageMetadata { milestone_index: Some(index), ..*old(self) }),
    {
        self.milestone_index = Some(index);
    }

    /// Proposes a conflict reason; a recorded concrete reason stays.
    pub fn set_conflict(&mut self, conflict: ConflictReason)
        ensures
            *final(self) == (MessageMetadata {
                conflict: resolved(old(self).conflict, conflict),
                ..*old(self)
            }),
    {
        self.conflict = resolve(self.conflict, conflict);
    }

    /// The record that stands when `proposed` is to replace this one.
    pub fn accept(&self, proposed: MessageMetadata) -> (m: MessageMetadata)
        ensures
            m == accepted(*self, proposed),
            preserves_settled(*self, m),
    {
        MessageMetadata {
            arrival_timestamp: proposed.arrival_timestamp,
            solidification_timestamp: if self.solidification_timestamp.is_some() {
                self.solidification_timestamp
            } else {
                proposed.solidification_timestamp
            },
            reference_timestamp: if self.reference_timestamp.is_some() {
                self.reference_timestamp
            } else {
                proposed.reference_timestamp
            },
            milestone_index: proposed.milestone_index,
            conflict: resolve(self.conflict, proposed.conflict),
            solid: proposed.solid,
        }
    }
}

/// No settled field changes when a proposed record is accepted.
pub proof fn lemma_accepted_preserves_settled(current: MessageMetadata, proposed: MessageMetadata)
    ensures
        preserves_settled(current, accepted(current, proposed)),
{
}

/// Keeping settled fields carries over from step to step.
pub proof fn lemma_preserves_settled_transitive(
    a: MessageMetadata,
    b: MessageMetadata,
    c: MessageMetadata,
)
    requires
        preserves_settled(a, b),
        preserves_settled(b, c),
    ensures
        preserves_settled(a, c),
{
}

/// Whatever is proposed, and however often: a reference timestamp, a
/// solidification timestamp and a concrete conflict reason, once recorded, stay
/// as they are.
pub proof fn lemma_settled_fields_never_change(
    current: MessageMetadata,
    proposals: Seq<MessageMetadata>,
)
    ensures
        preserves_settled(current, accepted_all(current, proposals)),
    decreases proposals.len(),
{
    if proposals.len() > 0 {
        lemma_settled_fields_never_change(current, proposals.drop_last());
    }
}

} // verus!
