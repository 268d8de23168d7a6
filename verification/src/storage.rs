//! The boundary to the persistent backend: what the graph asks of a store, an
//! in-memory store, and a walk through the system table of any store.

use crate::message::{Message, MessageId, MessageView};
use crate::metadata::MessageMetadata;
use vstd::prelude::*;

verus! {

/// Key of the schema version in the system table.
pub const SYSTEM_VERSION_KEY: u8 = 0;

/// Key of the health state in the system table.
pub const SYSTEM_HEALTH_KEY: u8 = 1;

/// The state that a store reports of itself.
#[derive(Clone, Copy, Debug, PartialEq, Eq, Structural)]
pub enum StorageHealth {
    /// The store was closed in order and can be served from.
    Idle,
    /// The store was not closed in order; its content cannot be relied on.
    Corrupted,
}

/// An entry of the system table.
#[derive(Clone, Copy, Debug, PartialEq, Eq, Structural)]
pub enum System {
    /// The schema version of the store.
    Version(u8),
    /// The health state of the store.
    Health(StorageHealth),
}

/// A failure of the backend itself, as opposed to a key that it does not hold.
#[derive(Clone, Copy, Debug, PartialEq, Eq, Structural)]
pub struct StorageError {
    /// The backend's own code for the failure.
    pub code: u32,
}

/// What is persisted for one message.
#[derive(Debug, PartialEq, Eq)]
pub struct Record {
    /// The message itself.
    pub message: Message,
    /// The state kept about it.
    pub metadata: MessageMetadata,
}

/// What a [`Record`] holds.
pub struct RecordView {
    /// The message itself.
    pub message: MessageView,
    /// The state kept about it.
    pub metadata: MessageMetadata,
}

impl View for Record {
    type V = RecordView;

    open spec fn view(&self) -> RecordView {
        RecordView { message: self.message@, metadata: self.metadata }
    }
}

impl Clone for Record {
    fn clone(&self) -> (copy: Self)
        ensures
            copy@ == self@,
    {
        Record { message: self.message.clone(), metadata: self.metadata }
    }
}

/// The system table of a store with the given version and health: exactly the two
/// entries under [`SYSTEM_VERSION_KEY`] and [`SYSTEM_HEALTH_KEY`].
pub open spec fn system_table(version: u8, health: StorageHealth) -> Map<u8, System> {
    Map::<u8, System>::empty().insert(SYSTEM_VERSION_KEY, System::Version(version)).insert(
        SYSTEM_HEALTH_KEY,
        System::Health(health),
    )
}

/// Whether `found` is what a table holding `table` answers for `key`.
pub open spec fn answers<K, T: View>(found: Option<T>, table: Map<K, T::V>, key: K) -> bool {
    match found {
        Some(value) => table.contains_key(key) && value@ == table[key],
        None => !table.contains_key(key),
    }
}

/// Whether `found` is what the system table `table` answers for `key`.
pub open spec fn answers_system(found: Option<System>, table: Map<u8, System>, key: u8) -> bool {
    match found {
        Some(value) => table.contains_key(key) && value == table[key],
        None => !table.contains_key(key),
    }
}

/// Whether `listing` holds each entry of `table` exactly once, and nothing else.
pub open spec fn lists<K, T: View>(listing: Seq<(K, T)>, table: Map<K, T::V>) -> bool {
    &&& forall|i: int, j: int|
        0 <= i < j < listing.len() ==> (#[trigger] listing[i]).0 != (#[trigger] listing[j]).0
    &&& forall|i: int|
        0 <= i < listing.len() ==> table.contains_key((#[trigger] listing[i]).0)
            && listing[i].1@ == table[listing[i].0]
    &&& forall|key: K| #[trigger]
        table.contains_key(key) ==> exists|i: int|
            0 <= i < listing.len() && (#[trigger] listing[i]).0 == key
}

/// Whether `listing` holds each entry of the system table `table` exactly once,
/// and nothing else.
pub open spec fn lists_system(listing: Seq<(u8, System)>, table: Map<u8, System>) -> bool {
    &&& forall|i: int, j: int|
        0 <= i < j < listing.len() ==> (#[trigger] listing[i]).0 != (#[trigger] listing[j]).0
    &&& forall|i: int|
        0 <= i < listing.len() ==> table.contains_key((#[trigger] listing[i]).0) && listing[i].1
            == table[listing[i].0]
    &&& forall|key: u8| #[trigger]
        table.contains_key(key) ==> exists|i: int|
            0 <= i < listing.len() && (#[trigger] listing[i]).0 == key
}

/// What the graph asks of a persistent store.
///
/// A store holds a table of message records and a system table with its schema
/// version and health. Every operation may fail with a [`StorageError`], unless
/// the store is [`reliable`](StorageBackend::reliable); what is stated of a result
/// is stated of a successful one. A write that fails has either not happened or
/// happened in full.
pub trait StorageBackend {
    /// What the backend needs to hold of itself between calls.
    spec fn inv(&self) -> bool;

    /// The persisted message records.
    spec fn records(&self) -> Map<MessageId, RecordView>;

    /// The schema version in the system table.
    spec fn schema_version(&self) -> u8;

    /// The health state in the system table.
    spec fn recorded_health(&self) -> StorageHealth;

    /// Whether every call succeeds at present. A backend that cannot promise so
    /// says no.
    spec fn reliable(&self) -> bool;

    /// A store holds finitely many records.
    proof fn lemma_records_finite(&self)
        requires
            self.inv(),
        ensures
            self.records().dom().finite(),
    ;

    /// Reads the record of `id`.
    fn fetch(&self, id: &MessageId) -> (r: Result<Option<Record>, StorageError>)
        requires
            self.inv(),
        ensures
            self.reliable() ==> r is Ok,
            r matches Ok(found) ==> answers(found, self.records(), *id),
    ;

    /// Reads the records of `ids`: one slot for each, in their order.
    fn multi_fetch(&self, ids: &Vec<MessageId>) -> (r: Result<Vec<Option<Record>>, StorageError>)
        requires
            self.inv(),
        ensures
            self.reliable() ==> r is Ok,
            r matches Ok(found) ==> found@.len() == ids@.len() && forall|i: int|
                0 <= i < ids@.len() ==> answers(#[trigger] found@[i], self.records(), ids@[i]),
    ;

    /// Writes `record` under `id`, replacing what was there.
    fn insert(&mut self, id: MessageId, record: &Record) -> (r: Result<(), StorageError>)
        requires
            old(self).inv(),
        ensures
            old(self).reliable() ==> r is Ok,
            final(self).reliable() == old(self).reliable(),
            final(self).inv(),
            final(self).schema_version() == old(self).schema_version(),
            final(self).recorded_health() == old(self).recorded_health(),
            r is Ok ==> final(self).records() == old(self).records().insert(id, record@),
            r is Err ==> final(self).records() == old(self).records() || final(self).records()
                == old(self).records().insert(id, record@),
    ;

    /// Removes the record of `id`, if there is one.
    fn delete(&mut self, id: &MessageId) -> (r: Result<(), StorageError>)
        requires
            old(self).inv(),
        ensures
            old(self).reliable() ==> r is Ok,
            final(self).reliable() == old(self).reliable(),
            final(self).inv(),
            final(self).schema_version() == old(self).schema_version(),
            final(self).recorded_health() == old(self).recorded_health(),
            r is Ok ==> final(self).records() == old(self).records().remove(*id),
            r is Err ==> final(self).records() == old(self).records() || final(self).records()
                == old(self).records().remove(*id),
    ;

    /// Reads every record, each once, in no stated order.
    fn iterate(&self) -> (r: Result<Vec<(MessageId, Record)>, StorageError>)
        requires
            self.inv(),
        ensures
            self.reliable() ==> r is Ok,
            r matches Ok(listing) ==> lists(listing@, self.records()),
    ;

    /// Reads the schema version.
    fn version(&self) -> (r: Result<u8, StorageError>)
        requires
            self.inv(),
        ensures
            self.reliable() ==> r is Ok,
            r matches Ok(v) ==> v == self.schema_version(),
    ;

    /// Reads the health state.
    fn health(&self) -> (r: Result<StorageHealth, StorageError>)
        requires
            self.inv(),
        ensures
            self.reliable() ==> r is Ok,
            r matches Ok(h) ==> h == self.recorded_health(),
    ;

    /// Writes the health state.
    fn set_health(&mut self, health: StorageHealth) -> (r: Result<(), StorageError>)
        requires
            old(self).inv(),
        ensures
            old(self).reliable() ==> r is Ok,
            final(self).reliable() == old(self).reliable(),
            final(self).inv(),
            final(self).schema_version() == old(self).schema_version(),
            final(self).records() == old(self).records(),
            r is Ok ==> final(self).recorded_health() == health,
            r is Err ==> final(self).recorded_health() == old(self).recorded_health()
                || final(self).recorded_health() == health,
    ;

    /// Reads the entry of the system table under `key`.
    fn fetch_system(&self, key: u8) -> (r: Result<Option<System>, StorageError>)
        requires
            self.inv(),
        ensures
            self.reliable() ==> r is Ok,
            r matches Ok(found) ==> answers_system(
                found,
                system_table(self.schema_version(), self.recorded_health()),
                key,
            ),
    ;

    /// Reads the entries of the system table under `keys`: one slot for each, in
    /// their order.
    fn multi_fetch_system(&self, keys: &Vec<u8>) -> (r: Result<Vec<Option<System>>, StorageError>)
        requires
            self.inv(),
        ensures
            self.reliable() ==> r is Ok,
            r matches Ok(found) ==> found@.len() == keys@.len() && forall|i: int|
                0 <= i < keys@.len() ==> answers_system(
                    #[trigger] found@[i],
                    system_table(self.schema_version(), self.recorded_health()),
                    keys@[i],
                ),
    ;

    /// Reads every entry of the system table, each once, in no stated order.
    fn iterate_system(&self) -> (r: Result<Vec<(u8, System)>, StorageError>)
        requires
            self.inv(),
        ensures
            self.reliable() ==> r is Ok,
            r matches Ok(listing) ==> lists_system(
                listing@,
                system_table(self.schema_version(), self.recorded_health()),
            ),
    ;
}

/// Walks through the system table of `storage` by every way of reading it, then
/// marks the store corrupted and reads that back.
///
/// The result is `Ok(true)` when every answer was the expected one, which for a
/// store that keeps to [`StorageBackend`] is the case exactly when it was
/// [`StorageHealth::Idle`] to begin with. `Ok(false)` is returned at the first
/// unexpected answer, before anything is written.
pub fn system_access<S: StorageBackend>(storage: &mut S) -> (r: Result<bool, StorageError>)
    requires
        old(storage).inv(),
    ensures
        final(storage).inv(),
        final(storage).records() == old(storage).records(),
        final(storage).schema_version() == old(storage).schema_version(),
        final(storage).reliable() == old(storage).reliable(),
        old(storage).reliable() ==> r is Ok,
        r matches Ok(passed) ==> passed == (old(storage).recorded_health() == StorageHealth::Idle),
        r == Ok::<bool, StorageError>(true) ==> final(storage).recorded_health()
            == StorageHealth::Corrupted,
        r == Ok::<bool, StorageError>(false) ==> final(storage).recorded_health()
            == old(storage).recorded_health(),
        r is Err ==> final(storage).recorded_health() == old(storage).recorded_health()
            || final(storage).recorded_health() == StorageHealth::Corrupted,
{
    let ghost table = system_table(storage.schema_version(), storage.recorded_health());

    let version = match storage.fetch_system(SYSTEM_VERSION_KEY)? {
        Some(entry) => entry,
        None => { return Ok(false); },
    };
    if version != System::Version(storage.version()?) {
        return Ok(false);
    }
    let health = match storage.fetch_system(SYSTEM_HEALTH_KEY)? {
        Some(entry) => entry,
        None => { return Ok(false); },
    };
    if health != System::Health(storage.health()?) {
        return Ok(false);
    }
    if health != System::Health(StorageHealth::Idle) {
        return Ok(false);
    }
    if storage.fetch_system(42)?.is_some() {
        return Ok(false);
    }

    let mut keys: Vec<u8> = Vec::new();
    keys.push(SYSTEM_VERSION_KEY);
    keys.push(SYSTEM_HEALTH_KEY);
    keys.push(42);
    let found = storage.multi_fetch_system(&keys)?;
    if found.len() != 3 {
        return Ok(false);
    }
    assert(answers_system(found@[0], table, keys@[0]));
    assert(answers_system(found@[1], table, keys@[1]));
    assert(answers_system(found@[2], table, keys@[2]));
    if found[0] != Some(version) || found[1] != Some(health) || found[2].is_some() {
        return Ok(false);
    }

    let listing = storage.iterate_system()?;
    let mut count: usize = 0;
    while count < listing.len()
        invariant
            count <= listing@.len(),
            lists_system(listing@, table),
            table == system_table(storage.schema_version(), storage.recorded_health()),
            storage.reliable() == old(storage).reliable(),
            version == System::Version(storage.schema_version()),
            health == System::Health(storage.recorded_health()),
        decreases listing@.len() - count,
    {
        let (key, value) = listing[count];
        assert(table.contains_key(listing@[count as int].0));
        let expected = if key == SYSTEM_VERSION_KEY {
            version
        } else if key == SYSTEM_HEALTH_KEY {
            health
        } else {
            return Ok(false);
        };
        if value != expected {
            return Ok(false);
        }
        count += 1;
    }
    proof {
        assert(table.contains_key(SYSTEM_VERSION_KEY));
        assert(table.contains_key(SYSTEM_HEALTH_KEY));
        let a = choose|i: int| 0 <= i < listing@.len() && (#[trigger] listing@[i]).0 == SYSTEM_VERSION_KEY;
        let b = choose|i: int| 0 <= i < listing@.len() && (#[trigger] listing@[i]).0 == SYSTEM_HEALTH_KEY;
        assert(a != b);
        if listing@.len() > 2 {
            assert(table.contains_key(listing@[0].0));
            assert(table.contains_key(listing@[1].0));
            assert(table.contains_key(listing@[2].0));
            assert(listing@[0].0 != listing@[1].0);
            assert(listing@[0].0 != listing@[2].0);
            assert(listing@[1].0 != listing@[2].0);
        }
    }
    if count != 2 {
        return Ok(false);
    }

    storage.set_health(StorageHealth::Corrupted)?;
    if storage.health()? != StorageHealth::Corrupted {
        return Ok(false);
    }
    match storage.fetch_system(SYSTEM_HEALTH_KEY)? {
        Some(entry) => {
            if entry != System::Health(StorageHealth::Corrupted) {
                return Ok(false);
            }
        },
        None => { return Ok(false); },
    }
    Ok(true)
}

} // verus!
