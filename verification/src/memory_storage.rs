//! A store that keeps everything in memory.

use crate::id_map::IdMap;
use crate::message::MessageId;
use crate::storage::{
    answers, answers_system, lists, lists_system, system_table, Record, RecordView,
    StorageBackend, StorageError, StorageHealth, System, SYSTEM_HEALTH_KEY, SYSTEM_VERSION_KEY,
};
use vstd::prelude::*;

verus! {

/// The schema version that [`MemoryStorage::new`] starts with.
pub const STORAGE_VERSION: u8 = 1;

/// The code of the failure that a [`MemoryStorage`] reports while it is switched
/// to fail.
pub const UNAVAILABLE: u32 = 1;

/// A store in memory. Its reads and its writes can be switched to fail, to stand
/// for a backend that is out of reach.
pub struct MemoryStorage {
    table: IdMap<Record>,
    version: u8,
    health: StorageHealth,
    failing_reads: bool,
    failing_writes: bool,
}

impl MemoryStorage {
    /// Whether every read fails at present.
    pub closed spec fn reads_fail(&self) -> bool {
        self.failing_reads
    }

    /// Whether every write fails at present.
    pub closed spec fn writes_fail(&self) -> bool {
        self.failing_writes
    }

    /// An empty, healthy store of version [`STORAGE_VERSION`].
    pub fn new() -> (s: Self)
        ensures
            s.inv(),
            s.records() == Map::<MessageId, RecordView>::empty(),
            s.schema_version() == STORAGE_VERSION,
            s.recorded_health() == StorageHealth::Idle,
            !s.reads_fail(),
            !s.writes_fail(),
            s.reliable(),
    {
        MemoryStorage::with_system(STORAGE_VERSION, StorageHealth::Idle)
    }

    /// An empty store with the given system table.
    pub fn with_system(version: u8, health: StorageHealth) -> (s: Self)
        ensures
            s.inv(),
            s.records() == Map::<MessageId, RecordView>::empty(),
            s.schema_version() == version,
            s.recorded_health() == health,
            !s.reads_fail(),
            !s.writes_fail(),
            s.reliable(),
    {
        let s = MemoryStorage {
            table: IdMap::new(),
            version,
            health,
            failing_reads: false,
            failing_writes: false,
        };
        assert(s.records() =~= Map::<MessageId, RecordView>::empty());
        s
    }

    /// Makes every later read fail, or succeed again. What is stored stays.
    pub fn fail_reads(&mut self, failing: bool)
        requires
            old(self).inv(),
        ensures
            final(self).inv(),
            final(self).reads_fail() == failing,
            final(self).writes_fail() == old(self).writes_fail(),
            final(self).records() == old(self).records(),
            final(self).schema_version() == old(self).schema_version(),
            final(self).recorded_health() == old(self).recorded_health(),
    {
        self.failing_reads = failing;
    }

    /// Makes every later write fail, or succeed again. What is stored stays.
    pub fn fail_writes(&mut self, failing: bool)
        requires
            old(self).inv(),
        ensures
            final(self).inv(),
            final(self).writes_fail() == failing,
            final(self).reads_fail() == old(self).reads_fail(),
            final(self).records() == old(self).records(),
            final(self).schema_version() == old(self).schema_version(),
            final(self).recorded_health() == old(self).recorded_health(),
    {
        self.failing_writes = failing;
    }

    /// The number of records held.
    pub fn len(&self) -> (n: usize)
        requires
            self.inv(),
        ensures
            n == self.records().len(),
    {
        proof {
            self.table.lemma_view();
            assert(self.records().dom() =~= self.table@.dom());
        }
        self.table.len()
    }

    fn unavailable() -> (e: StorageError)
        ensures
            e == (StorageError { code: UNAVAILABLE }),
    {
        StorageError { code: UNAVAILABLE }
    }
}

impl StorageBackend for MemoryStorage {
    closed spec fn inv(&self) -> bool {
        self.table.wf()
    }

    closed spec fn records(&self) -> Map<MessageId, RecordView> {
        Map::new(|id: MessageId| self.table@.contains_key(id), |id: MessageId| self.table@[id]@)
    }

    closed spec fn schema_version(&self) -> u8 {
        self.version
    }

    closed spec fn recorded_health(&self) -> StorageHealth {
        self.health
    }

    open spec fn reliable(&self) -> bool {
        !self.reads_fail() && !self.writes_fail()
    }

    proof fn lemma_records_finite(&self) {
        self.table.lemma_view();
        assert(self.records().dom() =~= self.table@.dom());
    }

    fn fetch(&self, id: &MessageId) -> (r: Result<Option<Record>, StorageError>)
        ensures
            !self.reads_fail() ==> r is Ok,
            self.reads_fail() ==> r == Err::<Option<Record>, StorageError>(
                StorageError { code: UNAVAILABLE },
            ),
    {
        if self.failing_reads {
            return Err(MemoryStorage::unavailable());
        }
        match self.table.get(id) {
            Some(record) => Ok(Some(record.clone())),
            None => Ok(None),
        }
    }

    fn multi_fetch(&self, ids: &Vec<MessageId>) -> (r: Result<Vec<Option<Record>>, StorageError>)
        ensures
            !self.reads_fail() ==> r is Ok,
            self.reads_fail() ==> r == Err::<Vec<Option<Record>>, StorageError>(
                StorageError { code: UNAVAILABLE },
            ),
    {
        if self.failing_reads {
            return Err(MemoryStorage::unavailable());
        }
        let mut found: Vec<Option<Record>> = Vec::new();
        let mut i: usize = 0;
        while i < ids.len()
            invariant
                self.inv(),
                i <= ids@.len(),
                found@.len() == i,
                forall|j: int|
                    0 <= j < i ==> answers(#[trigger] found@[j], self.records(), ids@[j]),
            decreases ids@.len() - i,
        {
            let slot = match self.table.get(&ids[i]) {
                Some(record) => Some(record.clone()),
                None => None,
            };
            found.push(slot);
            i += 1;
        }
        Ok(found)
    }

    fn insert(&mut self, id: MessageId, record: &Record) -> (r: Result<(), StorageError>)
        ensures
            final(self).reads_fail() == old(self).reads_fail(),
            final(self).writes_fail() == old(self).writes_fail(),
            !old(self).writes_fail() ==> r is Ok,
            old(self).writes_fail() ==> r == Err::<(), StorageError>(
                StorageError { code: UNAVAILABLE },
            ) && final(self).records() == old(self).records(),
    {
        if self.failing_writes {
            return Err(MemoryStorage::unavailable());
        }
        self.table.insert(id, record.clone());
        assert(self.records() =~= old(self).records().insert(id, record@));
        Ok(())
    }

    fn delete(&mut self, id: &MessageId) -> (r: Result<(), StorageError>)
        ensures
            final(self).reads_fail() == old(self).reads_fail(),
            final(self).writes_fail() == old(self).writes_fail(),
            !old(self).writes_fail() ==> r is Ok,
            old(self).writes_fail() ==> r == Err::<(), StorageError>(
                StorageError { code: UNAVAILABLE },
            ) && final(self).records() == old(self).records(),
    {
        if self.failing_writes {
            return Err(MemoryStorage::unavailable());
        }
        self.table.remove(id);
        assert(self.records() =~= old(self).records().remove(*id));
        Ok(())
    }

    fn iterate(&self) -> (r: Result<Vec<(MessageId, Record)>, StorageError>)
        ensures
            !self.reads_fail() ==> r is Ok,
            self.reads_fail() ==> r == Err::<Vec<(MessageId, Record)>, StorageError>(
                StorageError { code: UNAVAILABLE },
            ),
    {
        if self.failing_reads {
            return Err(MemoryStorage::unavailable());
        }
        let mut listing: Vec<(MessageId, Record)> = Vec::new();
        let n = self.table.len();
        let mut i: usize = 0;
        proof {
            self.table.lemma_view();
        }
        while i < n
            invariant
                self.inv(),
                n == self.table.keys().len(),
                i <= n,
                listing@.len() == i,
                forall|j: int|
                    0 <= j < i ==> (#[trigger] listing@[j]).0 == self.table.keys()[j]
                        && listing@[j].1@ == self.table@[self.table.keys()[j]]@,
            decreases n - i,
        {
            let id = self.table.key(i);
            let record = self.table.value(i).clone();
            listing.push((id, record));
            i += 1;
        }
        proof {
            let keys = self.table.keys();
            assert forall|key: MessageId| #[trigger]
                self.records().contains_key(key) implies exists|j: int|
                0 <= j < listing@.len() && (#[trigger] listing@[j]).0 == key by {
                let j = keys.index_of(key);
                assert(listing@[j].0 == key);
            }
            assert forall|a: int, b: int| 0 <= a < b < listing@.len() implies (#[trigger] listing@[a]).0
                != (#[trigger] listing@[b]).0 by {
                assert(keys[a] != keys[b]);
            }
        }
        Ok(listing)
    }

    fn version(&self) -> (r: Result<u8, StorageError>)
        ensures
            !self.reads_fail() ==> r is Ok,
            self.reads_fail() ==> r == Err::<u8, StorageError>(StorageError { code: UNAVAILABLE }),
    {
        if self.failing_reads {
            return Err(MemoryStorage::unavailable());
        }
        Ok(self.version)
    }

    fn health(&self) -> (r: Result<StorageHealth, StorageError>)
        ensures
            !self.reads_fail() ==> r is Ok,
            self.reads_fail() ==> r == Err::<StorageHealth, StorageError>(
                StorageError { code: UNAVAILABLE },
            ),
    {
        if self.failing_reads {
            return Err(MemoryStorage::unavailable());
        }
        Ok(self.health)
    }

    fn set_health(&mut self, health: StorageHealth) -> (r: Result<(), StorageError>)
        ensures
            final(self).reads_fail() == old(self).reads_fail(),
            final(self).writes_fail() == old(self).writes_fail(),
            !old(self).writes_fail() ==> r is Ok,
            old(self).writes_fail() ==> r == Err::<(), StorageError>(
                StorageError { code: UNAVAILABLE },
            ) && final(self).recorded_health() == old(self).recorded_health(),
    {
        if self.failing_writes {
            return Err(MemoryStorage::unavailable());
        }
        self.health = health;
        Ok(())
    }

    fn fetch_system(&self, key: u8) -> (r: Result<Option<System>, StorageError>)
        ensures
            !self.reads_fail() ==> r is Ok,
            self.reads_fail() ==> r == Err::<Option<System>, StorageError>(
                StorageError { code: UNAVAILABLE },
            ),
    {
        if self.failing_reads {
            return Err(MemoryStorage::unavailable());
        }
        if key == SYSTEM_VERSION_KEY {
            Ok(Some(System::Version(self.version)))
        } else if key == SYSTEM_HEALTH_KEY {
            Ok(Some(System::Health(self.health)))
        } else {
            Ok(None)
        }
    }

    fn multi_fetch_system(&self, keys: &Vec<u8>) -> (r: Result<Vec<Option<System>>, StorageError>)
        ensures
            !self.reads_fail() ==> r is Ok,
            self.reads_fail() ==> r == Err::<Vec<Option<System>>, StorageError>(
                StorageError { code: UNAVAILABLE },
            ),
    {
        if self.failing_reads {
            return Err(MemoryStorage::unavailable());
        }
        let mut found: Vec<Option<System>> = Vec::new();
        let mut i: usize = 0;
        while i < keys.len()
            invariant
                i <= keys@.len(),
                found@.len() == i,
                forall|j: int|
                    0 <= j < i ==> answers_system(
                        #[trigger] found@[j],
                        system_table(self.schema_version(), self.recorded_health()),
                        keys@[j],
                    ),
            decreases keys@.len() - i,
        {
            let key = keys[i];
            let slot = if key == SYSTEM_VERSION_KEY {
                Some(System::Version(self.version))
            } else if key == SYSTEM_HEALTH_KEY {
                Some(System::Health(self.health))
            } else {
                None
            };
            found.push(slot);
            i += 1;
        }
        Ok(found)
    }

    fn iterate_system(&self) -> (r: Result<Vec<(u8, System)>, StorageError>)
        ensures
            !self.reads_fail() ==> r is Ok,
            self.reads_fail() ==> r == Err::<Vec<(u8, System)>, StorageError>(
                StorageError { code: UNAVAILABLE },
            ),
    {
        if self.failing_reads {
            return Err(MemoryStorage::unavailable());
        }
        let mut listing: Vec<(u8, System)> = Vec::new();
        listing.push((SYSTEM_VERSION_KEY, System::Version(self.version)));
        listing.push((SYSTEM_HEALTH_KEY, System::Health(self.health)));
        proof {
            let table = system_table(self.schema_version(), self.recorded_health());
            assert(listing@[0].0 == SYSTEM_VERSION_KEY);
            assert(listing@[1].0 == SYSTEM_HEALTH_KEY);
            assert forall|key: u8| #[trigger] table.contains_key(key) implies exists|j: int|
                0 <= j < listing@.len() && (#[trigger] listing@[j]).0 == key by {
                if key == SYSTEM_VERSION_KEY {
                    assert(listing@[0].0 == key);
                } else {
                    assert(listing@[1].0 == key);
                }
            }
        }
        Ok(listing)
    }
}

} // verus!
