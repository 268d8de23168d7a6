use bee_tangle::cache::CacheError;
use bee_tangle::memory_storage::{MemoryStorage, UNAVAILABLE};
use bee_tangle::message::{Message, MessageId};
use bee_tangle::metadata::MessageMetadata;
use bee_tangle::storage::{Record, StorageError};
use bee_tangle::tangle::{Tangle, TangleConfig};
use bee_tangle::tip_pool::StalenessPolicy;
use bee_tangle::traversal::Direction;

fn walk_id(n: u8) -> MessageId {
    MessageId::new([n; 32])
}

fn walk_ids(found: &Vec<(MessageId, Record)>) -> Vec<MessageId> {
    found.iter().map(|item| item.0).collect()
}

/// A diamond: 1 at the bottom, 2 and 3 on it, 4 on both; and 5 on 4.
fn diamond(cache_capacity: usize, solid_entry_points: Vec<MessageId>) -> Tangle<MemoryStorage> {
    let mut tangle = Tangle::start(
        TangleConfig {
            cache_capacity,
            cleaner_interval: 60,
            staleness: StalenessPolicy::MaxCount(100),
            solid_entry_points,
        },
        MemoryStorage::new(),
    )
    .unwrap();
    let graph: [(u8, Vec<u8>); 5] =
        [(1, vec![]), (2, vec![1]), (3, vec![1]), (4, vec![2, 3]), (5, vec![4])];
    for (n, parents) in graph.iter() {
        let parents = parents.iter().map(|p| walk_id(*p)).collect();
        let mut metadata = MessageMetadata::new(*n as u64);
        metadata.reference(*n as u64);
        assert_eq!(
            tangle.insert(walk_id(*n), Message::new(parents, vec![*n]).unwrap(), metadata, 0),
            Ok(true)
        );
    }
    tangle
}

#[test]
fn a_walk_to_the_ancestors_finds_each_once_breadth_first() {
    let tangle = diamond(10, vec![]);
    let found = tangle.walk(walk_id(4), Direction::Ancestors, |_, _| true).unwrap();
    assert_eq!(walk_ids(&found), vec![walk_id(4), walk_id(2), walk_id(3), walk_id(1)]);
    for (id, record) in &found {
        assert_eq!(tangle.peek(id), Ok(Some(record.clone())));
    }
    assert_eq!(found[3].1.message, Message::new(vec![], vec![1]).unwrap());
    assert_eq!(found[0].1.metadata.reference_timestamp(), Some(4));
}

#[test]
fn a_walk_to_the_descendants_finds_each_once_breadth_first() {
    let tangle = diamond(10, vec![]);
    let found = tangle.walk(walk_id(1), Direction::Descendants, |_, _| true).unwrap();
    assert_eq!(
        walk_ids(&found),
        vec![walk_id(1), walk_id(2), walk_id(3), walk_id(4), walk_id(5)]
    );
    let found = tangle.walk(walk_id(4), Direction::Descendants, |_, _| true).unwrap();
    assert_eq!(walk_ids(&found), vec![walk_id(4), walk_id(5)]);
}

#[test]
fn a_walk_is_the_same_when_it_is_made_again() {
    let tangle = diamond(10, vec![]);
    let first = tangle.walk(walk_id(5), Direction::Ancestors, |_, _| true).unwrap();
    let second = tangle.walk(walk_id(5), Direction::Ancestors, |_, _| true).unwrap();
    assert_eq!(first, second);
    assert_eq!(first.len(), 5);
}

#[test]
fn a_walk_finds_but_does_not_go_on_from_where_the_test_says_no() {
    let tangle = diamond(10, vec![]);
    let found = tangle
        .walk(walk_id(4), Direction::Ancestors, |id, _| id != walk_id(2) && id != walk_id(3))
        .unwrap();
    assert_eq!(walk_ids(&found), vec![walk_id(4), walk_id(2), walk_id(3)]);

    // 1 is still reached through 3.
    let found = tangle.walk(walk_id(4), Direction::Ancestors, |id, _| id != walk_id(2)).unwrap();
    assert_eq!(walk_ids(&found), vec![walk_id(4), walk_id(2), walk_id(3), walk_id(1)]);

    let found = tangle.walk(walk_id(4), Direction::Ancestors, |_, _| false).unwrap();
    assert_eq!(walk_ids(&found), vec![walk_id(4)]);
}

#[test]
fn the_test_of_a_walk_sees_the_state_of_each_message() {
    let tangle = diamond(10, vec![]);
    let found = tangle
        .walk(walk_id(1), Direction::Descendants, |_, metadata: MessageMetadata| {
            metadata.reference_timestamp() < Some(3)
        })
        .unwrap();
    // 3 is found, but the walk does not go on from it; 4 is reached through 2.
    assert_eq!(walk_ids(&found), vec![walk_id(1), walk_id(2), walk_id(3), walk_id(4)]);
}

#[test]
fn a_walk_to_the_ancestors_does_not_come_to_a_solid_entry_point() {
    let tangle = diamond(10, vec![walk_id(2)]);
    let found = tangle.walk(walk_id(5), Direction::Ancestors, |_, _| true).unwrap();
    assert_eq!(walk_ids(&found), vec![walk_id(5), walk_id(4), walk_id(3), walk_id(1)]);

    let tangle = diamond(10, vec![walk_id(2), walk_id(3)]);
    let found = tangle.walk(walk_id(5), Direction::Ancestors, |_, _| true).unwrap();
    assert_eq!(walk_ids(&found), vec![walk_id(5), walk_id(4)]);

    let found = tangle.walk(walk_id(2), Direction::Ancestors, |_, _| true).unwrap();
    assert_eq!(walk_ids(&found), Vec::<MessageId>::new());

    // The boundary holds for walks to the ancestors only.
    let found = tangle.walk(walk_id(1), Direction::Descendants, |_, _| true).unwrap();
    assert_eq!(found.len(), 5);
    assert!(tangle.is_solid_entry_point(&walk_id(2)));
    assert!(!tangle.is_solid_entry_point(&walk_id(1)));
}

#[test]
fn a_walk_from_an_unknown_message_finds_nothing() {
    let tangle = diamond(10, vec![]);
    assert_eq!(tangle.walk(walk_id(9), Direction::Ancestors, |_, _| true), Ok(vec![]));
    assert_eq!(tangle.walk(walk_id(9), Direction::Descendants, |_, _| true), Ok(vec![]));
}

#[test]
fn a_walk_passes_over_parents_that_are_not_known() {
    let mut tangle = diamond(10, vec![]);
    tangle
        .insert(
            walk_id(7),
            Message::new(vec![walk_id(8), walk_id(5)], vec![7]).unwrap(),
            MessageMetadata::new(7),
            7,
        )
        .unwrap();
    let found = tangle.walk(walk_id(7), Direction::Ancestors, |_, _| true).unwrap();
    assert_eq!(
        walk_ids(&found),
        vec![walk_id(7), walk_id(5), walk_id(4), walk_id(2), walk_id(3), walk_id(1)]
    );
}

#[test]
fn a_walk_reads_from_the_store_what_has_left_memory() {
    let tangle = diamond(1, vec![]);
    assert!(tangle.len() <= 1);
    let found = tangle.walk(walk_id(5), Direction::Ancestors, |_, _| true).unwrap();
    assert_eq!(
        walk_ids(&found),
        vec![walk_id(5), walk_id(4), walk_id(2), walk_id(3), walk_id(1)]
    );
    // A walk leaves memory as it is.
    assert!(tangle.len() <= 1);
}

#[test]
fn a_walk_ends_at_the_first_failure_of_the_store() {
    let mut tangle = diamond(1, vec![]);
    tangle.fail_reads(true);
    assert_eq!(
        tangle.walk(walk_id(5), Direction::Ancestors, |_, _| true),
        Err(CacheError::Unavailable(StorageError { code: UNAVAILABLE }))
    );
}
