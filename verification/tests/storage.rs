use bee_tangle::memory_storage::{MemoryStorage, STORAGE_VERSION, UNAVAILABLE};
use bee_tangle::message::{Message, MessageId};
use bee_tangle::metadata::MessageMetadata;
use bee_tangle::storage::{
    system_access, Record, StorageBackend, StorageError, StorageHealth, System,
    SYSTEM_HEALTH_KEY, SYSTEM_VERSION_KEY,
};

fn store_id(n: u8) -> MessageId {
    MessageId::new([n; 32])
}

fn store_record(n: u8) -> Record {
    Record {
        message: Message::new(vec![store_id(n.wrapping_add(1))], vec![n]).unwrap(),
        metadata: MessageMetadata::new(n as u64),
    }
}

#[test]
fn system_access_passes_on_a_fresh_store() {
    let mut storage = MemoryStorage::new();
    assert_eq!(system_access(&mut storage), Ok(true));
    assert_eq!(storage.health(), Ok(StorageHealth::Corrupted));
    assert_eq!(storage.version(), Ok(STORAGE_VERSION));
    assert_eq!(
        storage.fetch_system(SYSTEM_HEALTH_KEY),
        Ok(Some(System::Health(StorageHealth::Corrupted)))
    );
}

#[test]
fn system_access_does_not_pass_on_a_store_that_is_not_idle() {
    let mut storage = MemoryStorage::with_system(3, StorageHealth::Corrupted);
    assert_eq!(system_access(&mut storage), Ok(false));
    assert_eq!(storage.health(), Ok(StorageHealth::Corrupted));
    assert_eq!(storage.version(), Ok(3));
}

#[test]
fn system_access_reports_a_failure_of_the_store() {
    let mut storage = MemoryStorage::new();
    storage.fail_reads(true);
    assert_eq!(system_access(&mut storage), Err(StorageError { code: UNAVAILABLE }));
    storage.fail_reads(false);
    assert_eq!(storage.health(), Ok(StorageHealth::Idle));

    storage.fail_writes(true);
    assert_eq!(system_access(&mut storage), Err(StorageError { code: UNAVAILABLE }));
    assert_eq!(storage.health(), Ok(StorageHealth::Idle));
}

#[test]
fn the_system_table_holds_the_version_and_the_health() {
    let storage = MemoryStorage::with_system(7, StorageHealth::Idle);
    assert_eq!(storage.fetch_system(SYSTEM_VERSION_KEY), Ok(Some(System::Version(7))));
    assert_eq!(
        storage.fetch_system(SYSTEM_HEALTH_KEY),
        Ok(Some(System::Health(StorageHealth::Idle)))
    );
    assert_eq!(storage.fetch_system(42), Ok(None));
    assert_eq!(
        storage.multi_fetch_system(&vec![42, SYSTEM_HEALTH_KEY, SYSTEM_VERSION_KEY]),
        Ok(vec![None, Some(System::Health(StorageHealth::Idle)), Some(System::Version(7))])
    );
    let listing = storage.iterate_system().unwrap();
    assert_eq!(listing.len(), 2);
    assert!(listing.contains(&(SYSTEM_VERSION_KEY, System::Version(7))));
    assert!(listing.contains(&(SYSTEM_HEALTH_KEY, System::Health(StorageHealth::Idle))));
}

#[test]
fn a_memory_store_keeps_what_is_inserted_until_it_is_deleted() {
    let mut storage = MemoryStorage::new();
    assert_eq!(storage.len(), 0);
    assert_eq!(storage.fetch(&store_id(1)), Ok(None));

    assert_eq!(storage.insert(store_id(1), &store_record(1)), Ok(()));
    assert_eq!(storage.insert(store_id(2), &store_record(2)), Ok(()));
    assert_eq!(storage.len(), 2);
    assert_eq!(storage.fetch(&store_id(1)), Ok(Some(store_record(1))));

    // A second write under the same key replaces the first.
    assert_eq!(storage.insert(store_id(1), &store_record(9)), Ok(()));
    assert_eq!(storage.len(), 2);
    assert_eq!(storage.fetch(&store_id(1)), Ok(Some(store_record(9))));

    assert_eq!(
        storage.multi_fetch(&vec![store_id(2), store_id(5), store_id(1)]),
        Ok(vec![Some(store_record(2)), None, Some(store_record(9))])
    );
    let listing = storage.iterate().unwrap();
    assert_eq!(listing.len(), 2);
    assert!(listing.contains(&(store_id(1), store_record(9))));
    assert!(listing.contains(&(store_id(2), store_record(2))));

    assert_eq!(storage.delete(&store_id(1)), Ok(()));
    assert_eq!(storage.delete(&store_id(7)), Ok(()));
    assert_eq!(storage.fetch(&store_id(1)), Ok(None));
    assert_eq!(storage.len(), 1);
}

#[test]
fn a_failing_memory_store_changes_nothing() {
    let mut storage = MemoryStorage::new();
    storage.insert(store_id(1), &store_record(1)).unwrap();
    let failure = StorageError { code: UNAVAILABLE };

    storage.fail_writes(true);
    assert_eq!(storage.insert(store_id(2), &store_record(2)), Err(failure));
    assert_eq!(storage.delete(&store_id(1)), Err(failure));
    assert_eq!(storage.set_health(StorageHealth::Corrupted), Err(failure));
    assert_eq!(storage.fetch(&store_id(1)), Ok(Some(store_record(1))));
    assert_eq!(storage.fetch(&store_id(2)), Ok(None));
    assert_eq!(storage.health(), Ok(StorageHealth::Idle));

    storage.fail_reads(true);
    assert_eq!(storage.fetch(&store_id(1)), Err(failure));
    assert_eq!(storage.multi_fetch(&vec![store_id(1)]), Err(failure));
    assert!(storage.iterate().is_err());
    assert_eq!(storage.version(), Err(failure));
    assert_eq!(storage.health(), Err(failure));
    assert_eq!(storage.fetch_system(SYSTEM_VERSION_KEY), Err(failure));
    assert_eq!(storage.multi_fetch_system(&vec![0]), Err(failure));
    assert!(storage.iterate_system().is_err());

    storage.fail_reads(false);
    storage.fail_writes(false);
    assert_eq!(storage.set_health(StorageHealth::Corrupted), Ok(()));
    assert_eq!(storage.health(), Ok(StorageHealth::Corrupted));
    assert_eq!(storage.len(), 1);
}
