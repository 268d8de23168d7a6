use bee_tangle::cache::CacheError;
use bee_tangle::conflict::ConflictReason;
use bee_tangle::memory_storage::{MemoryStorage, STORAGE_VERSION, UNAVAILABLE};
use bee_tangle::message::{Message, MessageId};
use bee_tangle::metadata::MessageMetadata;
use bee_tangle::storage::{Record, StorageBackend, StorageError, StorageHealth};
use bee_tangle::tangle::{StartError, Tangle, TangleConfig};
use bee_tangle::tip_pool::StalenessPolicy;

fn tangle_id(n: u8) -> MessageId {
    MessageId::new([n; 32])
}

fn tangle_message(parents: Vec<MessageId>, content: u8) -> Message {
    Message::new(parents, vec![content, content, content]).unwrap()
}

fn tangle_config(cache_capacity: usize) -> TangleConfig {
    TangleConfig {
        cache_capacity,
        cleaner_interval: 60,
        staleness: StalenessPolicy::MaxAge(3600),
        solid_entry_points: vec![],
    }
}

fn tangle_started(cache_capacity: usize) -> Tangle<MemoryStorage> {
    Tangle::start(tangle_config(cache_capacity), MemoryStorage::new()).unwrap()
}

fn settled_at(timestamp: u64) -> MessageMetadata {
    let mut metadata = MessageMetadata::new(timestamp);
    metadata.reference(timestamp);
    metadata
}

#[test]
fn a_new_message_takes_the_place_of_its_parent_among_the_tips() {
    let mut tangle = tangle_started(10);
    let a = tangle_id(1);
    let b = tangle_id(2);

    assert_eq!(tangle.insert(a, tangle_message(vec![], 1), MessageMetadata::new(1), 1), Ok(true));
    assert_eq!(tangle.tips(), vec![a]);

    assert_eq!(tangle.insert(b, tangle_message(vec![a], 2), MessageMetadata::new(2), 2), Ok(true));
    assert_eq!(tangle.tips(), vec![b]);
}

#[test]
fn the_first_conflict_reason_stays() {
    let mut tangle = tangle_started(10);
    let a = tangle_id(1);
    tangle.insert(a, tangle_message(vec![], 1), MessageMetadata::new(1), 1).unwrap();

    let first = tangle
        .update_metadata(&a, |mut metadata: MessageMetadata| {
            metadata.set_conflict(ConflictReason::InputUtxoAlreadySpent);
            metadata
        })
        .unwrap()
        .unwrap();
    assert_eq!(first.conflict(), ConflictReason::InputUtxoAlreadySpent);

    let second = tangle
        .update_metadata(&a, |mut metadata: MessageMetadata| {
            metadata.set_conflict(ConflictReason::SemanticValidationFailed);
            metadata
        })
        .unwrap()
        .unwrap();
    assert_eq!(second.conflict(), ConflictReason::InputUtxoAlreadySpent);
    assert_eq!(
        tangle.get_metadata(&a).unwrap().unwrap().conflict(),
        ConflictReason::InputUtxoAlreadySpent
    );
}

#[test]
fn the_oldest_settled_message_leaves_memory_and_is_still_found() {
    let mut tangle = tangle_started(2);
    let x = tangle_id(1);
    let y = tangle_id(2);
    let z = tangle_id(3);

    assert_eq!(tangle.insert(x, tangle_message(vec![], 1), settled_at(10), 10), Ok(true));
    assert_eq!(tangle.insert(y, tangle_message(vec![], 2), settled_at(20), 20), Ok(true));
    assert_eq!(tangle.len(), 2);
    assert_eq!(tangle.insert(z, tangle_message(vec![], 3), settled_at(30), 30), Ok(true));

    assert!(tangle.len() <= 2);
    assert_eq!(tangle.len(), 2);
    assert!(!tangle.is_resident(&x));
    assert!(tangle.is_resident(&y));
    assert!(tangle.is_resident(&z));

    assert_eq!(tangle.contains(&x), Ok(true));
    assert_eq!(tangle.get(&x), Ok(Some(tangle_message(vec![], 1))));
}

#[test]
fn a_stale_tip_is_removed_by_one_pass_of_the_cleaner() {
    let mut tangle = Tangle::start(
        TangleConfig {
            cache_capacity: 10,
            cleaner_interval: 60,
            staleness: StalenessPolicy::MaxAge(3600),
            solid_entry_points: vec![],
        },
        MemoryStorage::new(),
    )
    .unwrap();
    let a = tangle_id(1);
    tangle.insert(a, tangle_message(vec![], 1), MessageMetadata::new(0), 0).unwrap();
    assert_eq!(tangle.tips(), vec![a]);

    assert_eq!(tangle.clean_tips(7200), vec![a]);
    assert_eq!(tangle.tips(), Vec::<MessageId>::new());
    assert_eq!(tangle.get(&a), Ok(Some(tangle_message(vec![], 1))));
}

#[test]
fn a_tip_that_is_not_stale_yet_stays() {
    let mut tangle = tangle_started(10);
    let a = tangle_id(1);
    let b = tangle_id(2);
    tangle.insert(a, tangle_message(vec![], 1), MessageMetadata::new(0), 0).unwrap();
    tangle.insert(b, tangle_message(vec![], 2), MessageMetadata::new(0), 3000).unwrap();

    assert_eq!(tangle.clean_tips(3600), Vec::<MessageId>::new());
    assert_eq!(tangle.clean_tips(3601), vec![a]);
    assert_eq!(tangle.tips(), vec![b]);
}

#[test]
fn what_was_inserted_is_what_is_returned() {
    let mut tangle = tangle_started(1);
    let mut ids = Vec::new();
    for n in 0..20u8 {
        let id = tangle_id(n);
        let parents = if n == 0 { vec![] } else { vec![tangle_id(n - 1)] };
        assert_eq!(
            tangle.insert(id, tangle_message(parents, n), settled_at(n as u64), n as u64),
            Ok(true)
        );
        ids.push(id);
    }
    assert!(tangle.len() <= 1);
    for n in 0..20u8 {
        let parents = if n == 0 { vec![] } else { vec![tangle_id(n - 1)] };
        assert_eq!(tangle.get(&ids[n as usize]), Ok(Some(tangle_message(parents, n))));
        assert_eq!(tangle.get_metadata(&ids[n as usize]), Ok(Some(settled_at(n as u64))));
        assert!(tangle.len() <= 1);
    }
    assert_eq!(tangle.get(&tangle_id(99)), Ok(None));
    assert_eq!(tangle.get_metadata(&tangle_id(99)), Ok(None));
    assert_eq!(tangle.contains(&tangle_id(99)), Ok(false));
}

#[test]
fn a_second_insert_under_the_same_id_changes_nothing() {
    let mut tangle = tangle_started(10);
    let a = tangle_id(1);
    let first = MessageMetadata::new(5);
    let mut second = MessageMetadata::new(6);
    second.mark_solid(7);

    assert_eq!(tangle.insert(a, tangle_message(vec![], 1), first, 5), Ok(true));
    assert_eq!(tangle.insert(a, tangle_message(vec![tangle_id(9)], 2), second, 6), Ok(false));

    assert_eq!(tangle.get(&a), Ok(Some(tangle_message(vec![], 1))));
    assert_eq!(tangle.get_metadata(&a), Ok(Some(first)));
    assert_eq!(tangle.tips(), vec![a]);
    assert_eq!(tangle.len(), 1);
}

#[test]
fn a_second_insert_changes_nothing_when_only_the_store_holds_the_first() {
    let mut tangle = tangle_started(1);
    let x = tangle_id(1);
    let y = tangle_id(2);
    tangle.insert(x, tangle_message(vec![], 1), settled_at(1), 1).unwrap();
    tangle.insert(y, tangle_message(vec![], 2), settled_at(2), 2).unwrap();
    assert!(!tangle.is_resident(&x));

    assert_eq!(tangle.insert(x, tangle_message(vec![], 7), MessageMetadata::new(9), 9), Ok(false));
    assert_eq!(tangle.get(&x), Ok(Some(tangle_message(vec![], 1))));
    assert_eq!(tangle.get_metadata(&x), Ok(Some(settled_at(1))));
}

#[test]
fn settled_fields_stay_whatever_is_proposed() {
    let mut tangle = tangle_started(10);
    let a = tangle_id(1);
    tangle.insert(a, tangle_message(vec![], 1), MessageMetadata::new(1), 1).unwrap();

    let settled = tangle
        .update_metadata(&a, |mut metadata: MessageMetadata| {
            metadata.reference(100);
            metadata.mark_solid(90);
            metadata.set_conflict(ConflictReason::InputUtxoNotFound);
            metadata.set_milestone_index(7);
            metadata
        })
        .unwrap()
        .unwrap();
    assert_eq!(settled.reference_timestamp(), Some(100));
    assert_eq!(settled.solidification_timestamp(), Some(90));
    assert_eq!(settled.conflict(), ConflictReason::InputUtxoNotFound);
    assert_eq!(settled.milestone_index(), Some(7));
    assert!(settled.is_solid());

    // A proposal that would clear everything.
    let after = tangle.update_metadata(&a, |_| MessageMetadata::new(55)).unwrap().unwrap();
    assert_eq!(after.reference_timestamp(), Some(100));
    assert_eq!(after.solidification_timestamp(), Some(90));
    assert_eq!(after.conflict(), ConflictReason::InputUtxoNotFound);
    // What is not settled is taken over from the proposal.
    assert_eq!(after.arrival_timestamp(), 55);
    assert_eq!(after.milestone_index(), None);
    assert!(!after.is_solid());

    // A proposal that would change the settled fields.
    let again = tangle
        .update_metadata(&a, |metadata: MessageMetadata| MessageMetadata {
            reference_timestamp: Some(200),
            solidification_timestamp: Some(300),
            conflict: ConflictReason::InvalidSignature,
            ..metadata
        })
        .unwrap()
        .unwrap();
    assert_eq!(again.reference_timestamp(), Some(100));
    assert_eq!(again.solidification_timestamp(), Some(90));
    assert_eq!(again.conflict(), ConflictReason::InputUtxoNotFound);
}

#[test]
fn updating_an_unknown_message_does_nothing() {
    let mut tangle = tangle_started(10);
    assert_eq!(tangle.update_metadata(&tangle_id(1), |metadata| metadata), Ok(None));
    assert_eq!(tangle.len(), 0);
}

#[test]
fn an_update_reaches_a_message_that_only_the_store_holds() {
    let mut tangle = tangle_started(1);
    let x = tangle_id(1);
    let y = tangle_id(2);
    tangle.insert(x, tangle_message(vec![], 1), settled_at(1), 1).unwrap();
    tangle.insert(y, tangle_message(vec![], 2), settled_at(2), 2).unwrap();
    assert!(!tangle.is_resident(&x));

    let updated = tangle
        .update_metadata(&x, |mut metadata: MessageMetadata| {
            metadata.set_milestone_index(3);
            metadata
        })
        .unwrap()
        .unwrap();
    assert_eq!(updated.milestone_index(), Some(3));
    assert_eq!(updated.reference_timestamp(), Some(1));

    let (storage, flushed) = tangle.shutdown();
    assert_eq!(flushed, Ok(()));
    assert_eq!(storage.fetch(&x).unwrap().unwrap().metadata.milestone_index(), Some(3));
}

#[test]
fn no_tip_is_a_parent_of_a_known_message() {
    let mut tangle = tangle_started(3);
    // Children may arrive before their parents.
    let order: [(u8, Vec<u8>); 8] = [
        (5, vec![3, 4]),
        (1, vec![]),
        (3, vec![1, 2]),
        (2, vec![1]),
        (4, vec![2]),
        (6, vec![5]),
        (7, vec![5, 1]),
        (8, vec![8]),
    ];
    let mut known: Vec<(u8, Vec<u8>)> = Vec::new();
    for (now, (n, parents)) in order.iter().enumerate() {
        let parent_ids: Vec<MessageId> = parents.iter().map(|p| tangle_id(*p)).collect();
        assert_eq!(
            tangle.insert(
                tangle_id(*n),
                tangle_message(parent_ids, *n),
                settled_at(now as u64),
                now as u64
            ),
            Ok(true)
        );
        known.push((*n, parents.clone()));

        let tips = tangle.tips();
        for tip in &tips {
            assert!(known.iter().any(|(k, _)| tangle_id(*k) == *tip));
            for (_, parents) in &known {
                assert!(!parents.iter().any(|p| tangle_id(*p) == *tip));
            }
        }
        for (k, _) in &known {
            let referenced = known.iter().any(|(_, parents)| parents.contains(k));
            assert_eq!(tips.contains(&tangle_id(*k)), !referenced);
        }
    }
    assert_eq!(tangle.tips(), vec![tangle_id(6), tangle_id(7)]);
}

#[test]
fn select_tips_from_follows_the_numbers() {
    let mut tangle = tangle_started(10);
    for n in 1..=4u8 {
        tangle.insert(tangle_id(n), tangle_message(vec![], n), MessageMetadata::new(0), 0).unwrap();
    }
    assert_eq!(tangle.tips(), vec![tangle_id(1), tangle_id(2), tangle_id(3), tangle_id(4)]);

    // 5 % 4 = 1 chooses the second; the last takes its place: [1, 4, 3].
    // 3 % 3 = 0 chooses the first; the last takes its place: [3, 4].
    // No number is left: 0 % 2 = 0 chooses the first.
    assert_eq!(
        tangle.select_tips_from(3, &vec![5, 3]),
        vec![tangle_id(2), tangle_id(1), tangle_id(3)]
    );
    assert_eq!(tangle.select_tips_from(0, &vec![5, 3]), Vec::<MessageId>::new());
    assert_eq!(tangle.select_tips_from(9, &vec![0, 0, 0, 0]).len(), 4);
    // Selecting does not change the pool.
    assert_eq!(tangle.tips().len(), 4);
}

#[test]
fn select_tips_gives_distinct_tips() {
    let mut tangle = tangle_started(10);
    assert_eq!(tangle.select_tips(2), Vec::<MessageId>::new());
    for n in 1..=6u8 {
        tangle.insert(tangle_id(n), tangle_message(vec![], n), MessageMetadata::new(0), 0).unwrap();
    }
    for count in 0..=8usize {
        let chosen = tangle.select_tips(count);
        assert_eq!(chosen.len(), count.min(6));
        for (i, tip) in chosen.iter().enumerate() {
            assert!(tangle.tips().contains(tip));
            assert!(!chosen[..i].contains(tip));
        }
    }
}

#[test]
fn start_refuses_a_corrupted_store() {
    let storage = MemoryStorage::with_system(STORAGE_VERSION, StorageHealth::Corrupted);
    assert!(matches!(Tangle::start(tangle_config(1), storage), Err(StartError::Corrupted)));
}

#[test]
fn start_refuses_another_schema_version() {
    let storage = MemoryStorage::with_system(STORAGE_VERSION + 1, StorageHealth::Idle);
    assert!(matches!(
        Tangle::start(tangle_config(1), storage),
        Err(StartError::IncompatibleVersion(v)) if v == STORAGE_VERSION + 1
    ));
}

#[test]
fn start_reports_a_store_that_cannot_be_read() {
    let mut storage = MemoryStorage::new();
    storage.fail_reads(true);
    assert!(matches!(
        Tangle::start(tangle_config(1), storage),
        Err(StartError::Storage(StorageError { code })) if code == UNAVAILABLE
    ));
}

#[test]
fn start_knows_the_messages_of_the_store() {
    let mut storage = MemoryStorage::new();
    let a = tangle_id(1);
    let b = tangle_id(2);
    storage
        .insert(a, &Record { message: tangle_message(vec![], 1), metadata: MessageMetadata::new(1) })
        .unwrap();
    storage
        .insert(b, &Record { message: tangle_message(vec![a], 2), metadata: MessageMetadata::new(2) })
        .unwrap();

    let mut tangle = Tangle::start(tangle_config(10), storage).unwrap();
    assert_eq!(tangle.len(), 0);
    assert_eq!(tangle.tips(), Vec::<MessageId>::new());
    assert_eq!(tangle.contains(&a), Ok(true));
    assert_eq!(tangle.children(&a), Some(&vec![b]));
    assert_eq!(tangle.children(&b), None);

    // `a` is referred to by `b`, so it does not become a tip when a message names it again.
    let c = tangle_id(3);
    assert_eq!(tangle.insert(c, tangle_message(vec![b], 3), MessageMetadata::new(3), 3), Ok(true));
    assert_eq!(tangle.tips(), vec![c]);
    assert_eq!(tangle.insert(a, tangle_message(vec![], 9), MessageMetadata::new(9), 9), Ok(false));
    assert_eq!(tangle.get(&a), Ok(Some(tangle_message(vec![], 1))));
}

#[test]
fn a_store_that_cannot_be_read_is_reported_and_nothing_changes() {
    let mut tangle = tangle_started(1);
    let x = tangle_id(1);
    let y = tangle_id(2);
    tangle.insert(x, tangle_message(vec![], 1), settled_at(1), 1).unwrap();
    tangle.insert(y, tangle_message(vec![x], 2), settled_at(2), 2).unwrap();
    assert!(!tangle.is_resident(&x));

    tangle.fail_reads(true);
    let unavailable = CacheError::Unavailable(StorageError { code: UNAVAILABLE });
    assert_eq!(tangle.get(&x), Err(unavailable));
    assert_eq!(tangle.get_metadata(&x), Err(unavailable));
    assert_eq!(tangle.contains(&x), Err(unavailable));
    assert_eq!(tangle.update_metadata(&x, |metadata| metadata), Err(unavailable));
    assert_eq!(
        tangle.insert(tangle_id(3), tangle_message(vec![y], 3), MessageMetadata::new(3), 3),
        Err(unavailable)
    );
    assert_eq!(tangle.tips(), vec![y]);
    // What is in memory is served all the same.
    assert_eq!(tangle.get(&y), Ok(Some(tangle_message(vec![x], 2))));

    tangle.fail_reads(false);
    assert_eq!(tangle.get(&x), Ok(Some(tangle_message(vec![], 1))));
    assert_eq!(tangle.contains(&tangle_id(3)), Ok(false));
}

#[test]
fn a_write_that_the_store_refuses_stays_in_memory_until_it_is_flushed() {
    let mut tangle = tangle_started(1);
    let x = tangle_id(1);
    let y = tangle_id(2);
    let unpersisted = CacheError::Unpersisted(StorageError { code: UNAVAILABLE });

    tangle.fail_writes(true);
    assert_eq!(tangle.insert(x, tangle_message(vec![], 1), settled_at(1), 1), Err(unpersisted));
    assert_eq!(tangle.insert(y, tangle_message(vec![x], 2), settled_at(2), 2), Err(unpersisted));
    // Both are known, and neither has left memory though the capacity is one.
    assert_eq!(tangle.len(), 2);
    assert_eq!(tangle.tips(), vec![y]);
    assert_eq!(tangle.get(&x), Ok(Some(tangle_message(vec![], 1))));
    assert_eq!(tangle.flush(), Err(unpersisted));
    assert_eq!(tangle.len(), 2);

    tangle.fail_writes(false);
    assert_eq!(tangle.flush(), Ok(()));
    assert_eq!(tangle.len(), 1);
    assert!(!tangle.is_resident(&x));
    assert_eq!(tangle.get(&x), Ok(Some(tangle_message(vec![], 1))));

    let (storage, flushed) = tangle.shutdown();
    assert_eq!(flushed, Ok(()));
    assert_eq!(storage.len(), 2);
    assert_eq!(
        storage.fetch(&y),
        Ok(Some(Record { message: tangle_message(vec![x], 2), metadata: settled_at(2) }))
    );
}

#[test]
fn an_update_that_the_store_refuses_stands_in_memory() {
    let mut tangle = tangle_started(10);
    let a = tangle_id(1);
    tangle.insert(a, tangle_message(vec![], 1), MessageMetadata::new(1), 1).unwrap();

    tangle.fail_writes(true);
    assert_eq!(
        tangle.update_metadata(&a, |mut metadata: MessageMetadata| {
            metadata.reference(50);
            metadata
        }),
        Err(CacheError::Unpersisted(StorageError { code: UNAVAILABLE }))
    );
    assert_eq!(tangle.get_metadata(&a).unwrap().unwrap().reference_timestamp(), Some(50));

    let (storage, flushed) = tangle.shutdown();
    assert_eq!(flushed, Err(CacheError::Unpersisted(StorageError { code: UNAVAILABLE })));
    assert_eq!(storage.fetch(&a).unwrap().unwrap().metadata.reference_timestamp(), None);
}

#[test]
fn unsettled_messages_never_leave_memory() {
    let mut tangle = tangle_started(2);
    for n in 1..=5u8 {
        tangle.insert(tangle_id(n), tangle_message(vec![], n), MessageMetadata::new(0), 0).unwrap();
    }
    assert_eq!(tangle.len(), 5);

    // Settling the third makes it the only one that may leave.
    tangle
        .update_metadata(&tangle_id(3), |mut metadata: MessageMetadata| {
            metadata.reference(9);
            metadata
        })
        .unwrap();
    assert_eq!(tangle.len(), 4);
    assert!(!tangle.is_resident(&tangle_id(3)));
    assert_eq!(tangle.get_metadata(&tangle_id(3)).unwrap().unwrap().reference_timestamp(), Some(9));
}

#[test]
fn the_message_settled_first_leaves_first_whatever_the_order_of_arrival() {
    let mut tangle = tangle_started(2);
    tangle.insert(tangle_id(1), tangle_message(vec![], 1), settled_at(30), 1).unwrap();
    tangle.insert(tangle_id(2), tangle_message(vec![], 2), settled_at(10), 2).unwrap();
    tangle.insert(tangle_id(3), tangle_message(vec![], 3), settled_at(20), 3).unwrap();
    assert!(tangle.is_resident(&tangle_id(1)));
    assert!(!tangle.is_resident(&tangle_id(2)));
    assert!(tangle.is_resident(&tangle_id(3)));
}

#[test]
fn a_tangle_is_set_up_as_its_configuration_says() {
    let tangle = Tangle::start(
        TangleConfig {
            cache_capacity: 3,
            cleaner_interval: 45,
            staleness: StalenessPolicy::MaxCount(7),
            solid_entry_points: vec![tangle_id(1), tangle_id(2), tangle_id(1)],
        },
        MemoryStorage::new(),
    )
    .unwrap();
    assert_eq!(tangle.cleaner_interval(), 45);
    assert_eq!(tangle.staleness_policy(), StalenessPolicy::MaxCount(7));
    assert!(tangle.is_solid_entry_point(&tangle_id(1)));
    assert!(tangle.is_solid_entry_point(&tangle_id(2)));
    assert!(!tangle.is_solid_entry_point(&tangle_id(3)));
    assert_eq!(tangle.len(), 0);
}

#[test]
fn the_cleaner_keeps_the_newest_tips_when_it_counts() {
    let mut tangle = Tangle::start(
        TangleConfig {
            cache_capacity: 10,
            cleaner_interval: 60,
            staleness: StalenessPolicy::MaxCount(2),
            solid_entry_points: vec![],
        },
        MemoryStorage::new(),
    )
    .unwrap();
    for n in 1..=4u8 {
        tangle.insert(tangle_id(n), tangle_message(vec![], n), MessageMetadata::new(0), 0).unwrap();
    }
    assert_eq!(tangle.clean_tips(0), vec![tangle_id(1), tangle_id(2)]);
    assert_eq!(tangle.tips(), vec![tangle_id(3), tangle_id(4)]);
    assert_eq!(tangle.len(), 4);
}

#[test]
fn of_messages_settled_at_the_same_time_the_first_in_memory_leaves_first() {
    let mut tangle = tangle_started(2);
    for n in 1..=4u8 {
        tangle.insert(tangle_id(n), tangle_message(vec![], n), settled_at(7), n as u64).unwrap();
    }
    assert!(!tangle.is_resident(&tangle_id(1)));
    assert!(!tangle.is_resident(&tangle_id(2)));
    assert!(tangle.is_resident(&tangle_id(3)));
    assert!(tangle.is_resident(&tangle_id(4)));

    // Read again, the first comes to memory last, and the third is the one to leave.
    assert_eq!(tangle.get(&tangle_id(1)), Ok(Some(tangle_message(vec![], 1))));
    assert!(tangle.is_resident(&tangle_id(1)));
    assert!(!tangle.is_resident(&tangle_id(3)));
    assert!(tangle.is_resident(&tangle_id(4)));
}
