use bee_tangle::conflict::{resolve, ConflictReason};
use bee_tangle::metadata::MessageMetadata;

#[test]
fn the_first_concrete_reason_wins() {
    let reasons = [
        ConflictReason::NoConflict,
        ConflictReason::InputUtxoAlreadySpent,
        ConflictReason::InputUtxoAlreadySpentInThisMilestone,
        ConflictReason::InputUtxoNotFound,
        ConflictReason::CreatedConsumedAmountMismatch,
        ConflictReason::InvalidSignature,
        ConflictReason::SemanticValidationFailed,
    ];
    for current in reasons {
        for candidate in reasons {
            let expected = if current == ConflictReason::NoConflict { candidate } else { current };
            assert_eq!(resolve(current, candidate), expected);
        }
        assert_eq!(current.conflicting(), current != ConflictReason::NoConflict);
    }
    assert_eq!(ConflictReason::default(), ConflictReason::NoConflict);
}

#[test]
fn a_new_record_has_nothing_settled() {
    let metadata = MessageMetadata::new(17);
    assert_eq!(metadata.arrival_timestamp(), 17);
    assert_eq!(metadata.solidification_timestamp(), None);
    assert_eq!(metadata.reference_timestamp(), None);
    assert_eq!(metadata.milestone_index(), None);
    assert_eq!(metadata.conflict(), ConflictReason::NoConflict);
    assert!(!metadata.is_solid());
    assert!(!metadata.is_referenced());
}

#[test]
fn the_setters_write_a_settled_field_once() {
    let mut metadata = MessageMetadata::new(1);
    metadata.reference(10);
    metadata.reference(20);
    assert_eq!(metadata.reference_timestamp(), Some(10));
    assert!(metadata.is_referenced());

    metadata.mark_solid(5);
    metadata.mark_solid(6);
    assert_eq!(metadata.solidification_timestamp(), Some(5));
    assert!(metadata.is_solid());

    metadata.set_conflict(ConflictReason::NoConflict);
    assert_eq!(metadata.conflict(), ConflictReason::NoConflict);
    metadata.set_conflict(ConflictReason::InvalidSignature);
    metadata.set_conflict(ConflictReason::NoConflict);
    metadata.set_conflict(ConflictReason::InputUtxoNotFound);
    assert_eq!(metadata.conflict(), ConflictReason::InvalidSignature);

    metadata.set_milestone_index(3);
    metadata.set_milestone_index(4);
    assert_eq!(metadata.milestone_index(), Some(4));
}

#[test]
fn accepting_a_proposal_keeps_what_is_settled() {
    let mut current = MessageMetadata::new(1);
    current.reference(10);
    let mut proposed = MessageMetadata::new(2);
    proposed.reference(99);
    proposed.mark_solid(50);
    proposed.set_conflict(ConflictReason::InvalidSignature);
    proposed.set_milestone_index(8);

    let accepted = current.accept(proposed);
    assert_eq!(
        accepted,
        MessageMetadata {
            arrival_timestamp: 2,
            solidification_timestamp: Some(50),
            reference_timestamp: Some(10),
            milestone_index: Some(8),
            conflict: ConflictReason::InvalidSignature,
            solid: true,
        }
    );
    let cleared = accepted.accept(MessageMetadata::new(3));
    assert_eq!(
        cleared,
        MessageMetadata {
            arrival_timestamp: 3,
            solidification_timestamp: Some(50),
            reference_timestamp: Some(10),
            milestone_index: None,
            conflict: ConflictReason::InvalidSignature,
            solid: false,
        }
    );
}
