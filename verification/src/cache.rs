//! The graph cache: the messages that are held in memory, over the store that
//! holds all of them.

use crate::id_map::IdMap;
use crate::memory_storage::MemoryStorage;
use crate::message::{Message, MessageId};
use crate::metadata::{accepted, preserves_settled, MessageMetadata};
use crate::storage::{answers, Record, RecordView, StorageBackend, StorageError};
use vstd::prelude::*;

verus! {

/// Why an operation of the cache failed.
#[derive(Clone, Copy, Debug, PartialEq, Eq, Structural)]
pub enum CacheError {
    /// The store could not be read. Nothing was changed.
    Unavailable(StorageError),
    /// The change was made in memory, but the store did not take it. The entry
    /// stays in memory until a later write of it succeeds.
    Unpersisted(StorageError),
}

/// A message in memory.
struct Vertex {
    record: Record,
    persisted: bool,
}

/// The record that has the message of `record` and the state `metadata`.
pub open spec fn with_metadata(record: RecordView, metadata: MessageMetadata) -> RecordView {
    RecordView { message: record.message, metadata }
}

/// The record that stands when the state `proposed` is to replace that of `record`.
pub open spec fn updated(record: RecordView, proposed: MessageMetadata) -> RecordView {
    with_metadata(record, accepted(record.metadata, proposed))
}

/// What is in memory once the record of `id` was brought there, if there is one.
pub open spec fn brought_in(
    resident: Map<MessageId, RecordView>,
    vertices: Map<MessageId, RecordView>,
    id: MessageId,
) -> Map<MessageId, RecordView> {
    if vertices.contains_key(id) {
        resident.insert(id, vertices[id])
    } else {
        resident
    }
}

/// Whether a cached record may leave memory: it is settled, and the store holds
/// it as it is.
pub open spec fn evictable(record: RecordView, pending: bool) -> bool {
    record.metadata.reference_timestamp is Some && !pending
}

/// Whether the record `first`, at the place `first_at` of memory, leaves memory
/// before the record `second` at the place `second_at`: it was settled earlier,
/// or at the same time and came to memory earlier.
pub open spec fn leaves_before(
    first: RecordView,
    first_at: int,
    second: RecordView,
    second_at: int,
) -> bool {
    let a = first.metadata.reference_timestamp->0;
    let b = second.metadata.reference_timestamp->0;
    a < b || (a == b && first_at < second_at)
}

/// Whether `after`, in the order `after_queue`, is what is left in memory of
/// `before`, in the order `order`, once room was made for at most `capacity`
/// entries, where the store lacks the entries in `pending`.
///
/// Only settled entries that the store holds leave, an entry never leaves before
/// one that [`leaves_before`] it, no more leave than needed, and those that stay
/// keep their order.
pub open spec fn trimmed(
    before: Map<MessageId, RecordView>,
    queue: Seq<MessageId>,
    pending: Set<MessageId>,
    capacity: nat,
    after: Map<MessageId, RecordView>,
    after_queue: Seq<MessageId>,
) -> bool {
    &&& after.submap_of(before)
    &&& forall|i: int, j: int|
        0 <= i < j < after_queue.len() ==> queue.index_of(#[trigger] after_queue[i])
            < queue.index_of(#[trigger] after_queue[j])
    &&& forall|out: MessageId| #[trigger]
        before.contains_key(out) && !after.contains_key(out) ==> {
            &&& evictable(before[out], pending.contains(out))
            &&& forall|kept: MessageId| #[trigger]
                after.contains_key(kept) && evictable(after[kept], pending.contains(kept))
                    ==> leaves_before(
                    before[out],
                    queue.index_of(out),
                    after[kept],
                    queue.index_of(kept),
                )
        }
    &&& after.len() <= capacity || forall|kept: MessageId| #[trigger]
        after.contains_key(kept) ==> !evictable(after[kept], pending.contains(kept))
    &&& before.len() <= capacity ==> after == before && after_queue == queue
    &&& before.len() > capacity ==> after.len() >= capacity
}

/// The order of memory once the record of `id` was brought there, if there is
/// one and it was not there: it comes last.
pub open spec fn brought_in_queue(
    queue: Seq<MessageId>,
    resident: Map<MessageId, RecordView>,
    vertices: Map<MessageId, RecordView>,
    id: MessageId,
) -> Seq<MessageId> {
    if vertices.contains_key(id) && !resident.contains_key(id) {
        queue.push(id)
    } else {
        queue
    }
}

/// A bounded set of messages in memory over a store of all messages.
///
/// Every write goes to memory and to the store. A read that misses memory is
/// answered from the store and brings the entry back to memory. When more than
/// `capacity` entries are in memory, settled entries that the store holds leave
/// it, those settled first going first.
pub struct GraphCache<S: StorageBackend> {
    storage: S,
    resident: IdMap<Vertex>,
    capacity: usize,
}

impl<S: StorageBackend> GraphCache<S> {
    /// The records that the store holds.
    pub closed spec fn stored(&self) -> Map<MessageId, RecordView> {
        self.storage.records()
    }

    /// The records that are in memory.
    pub closed spec fn resident(&self) -> Map<MessageId, RecordView> {
        Map::new(
            |id: MessageId| self.resident@.contains_key(id),
            |id: MessageId| self.resident@[id].record@,
        )
    }

    /// The entries in memory, in the order in which they came there.
    pub closed spec fn queue(&self) -> Seq<MessageId> {
        self.resident.keys()
    }

    /// The entries in memory whose latest state the store does not hold.
    pub closed spec fn pending(&self) -> Set<MessageId> {
        Set::new(|id: MessageId| self.resident@.contains_key(id) && !self.resident@[id].persisted)
    }

    /// The number of entries beyond which settled entries leave memory.
    pub closed spec fn capacity(&self) -> nat {
        self.capacity as nat
    }

    /// The store behind the cache.
    pub closed spec fn storage(&self) -> S {
        self.storage
    }

    /// Whether every call of the store succeeds at present.
    pub closed spec fn reliable(&self) -> bool {
        self.storage.reliable()
    }

    /// Every known message with its present state: what is in memory, and of the
    /// rest what the store holds.
    pub open spec fn vertices(&self) -> Map<MessageId, RecordView> {
        self.stored().union_prefer_right(self.resident())
    }

    /// Memory holds no more than `capacity` entries, or none that may leave.
    pub open spec fn within_capacity(&self) -> bool {
        self.resident().len() <= self.capacity() || forall|id: MessageId| #[trigger]
            self.resident().contains_key(id) ==> !evictable(
                self.resident()[id],
                self.pending().contains(id),
            )
    }

    /// What holds of a cache between calls: [`Self::consistent`] and
    /// [`Self::within_capacity`].
    pub open spec fn wf(&self) -> bool {
        self.consistent() && self.within_capacity()
    }

    /// An entry in memory that is not pending is in the store as it is in memory,
    /// and the store holds no other message under the identifier of an entry in
    /// memory.
    pub closed spec fn consistent(&self) -> bool {
        &&& self.storage.inv()
        &&& self.resident.wf()
        &&& forall|id: MessageId| #[trigger]
            self.resident@.contains_key(id) && self.resident@[id].persisted
                ==> self.storage.records().contains_key(id) && self.storage.records()[id]
                == self.resident@[id].record@
        &&& forall|id: MessageId| #[trigger]
            self.resident@.contains_key(id) && self.storage.records().contains_key(id)
                ==> self.storage.records()[id].message == self.resident@[id].record@.message
    }

    /// Finitely many messages are known, and what is pending is in memory.
    pub proof fn lemma_consistent(&self)
        requires
            self.consistent(),
        ensures
            self.storage().inv(),
            self.stored() == self.storage().records(),
            self.reliable() == self.storage().reliable(),
            self.resident().dom().finite(),
            self.queue().no_duplicates(),
            self.queue().len() == self.resident().len(),
            forall|id: MessageId|
                self.queue().contains(id) <==> #[trigger] self.resident().contains_key(id),
            self.stored().dom().finite(),
            self.vertices().dom().finite(),
            self.pending().subset_of(self.resident().dom()),
            forall|id: MessageId| #[trigger]
                self.resident().contains_key(id) && !self.pending().contains(id)
                    ==> self.stored().contains_key(id) && self.stored()[id] == self.resident()[id],
            forall|id: MessageId| #[trigger]
                self.resident().contains_key(id) && self.stored().contains_key(id)
                    ==> self.stored()[id].message == self.resident()[id].message,
    {
        self.resident.lemma_view();
        self.storage.lemma_records_finite();
        assert(self.resident().dom() =~= self.resident@.dom());
        assert(self.vertices().dom() =~= self.stored().dom().union(self.resident().dom()));
    }

    /// A cache over `storage` that keeps at most `capacity` settled entries in
    /// memory. Nothing is in memory to begin with.
    pub fn new(storage: S, capacity: usize) -> (cache: Self)
        requires
            storage.inv(),
        ensures
            cache.wf(),
            cache.storage() == storage,
            cache.reliable() == storage.reliable(),
            cache.stored() == storage.records(),
            cache.resident() == Map::<MessageId, RecordView>::empty(),
            cache.queue() == Seq::<MessageId>::empty(),
            cache.pending() == Set::<MessageId>::empty(),
            cache.capacity() == capacity,
    {
        let cache = GraphCache { storage, resident: IdMap::new(), capacity };
        assert(cache.resident() =~= Map::<MessageId, RecordView>::empty());
        assert(cache.resident().len() == 0);
        assert(cache.pending() =~= Set::<MessageId>::empty());
        cache
    }

    /// The number of entries in memory. Entries that only the store holds are not
    /// counted.
    pub fn len(&self) -> (n: usize)
        requires
            self.consistent(),
        ensures
            n == self.resident().len(),
    {
        proof {
            self.resident.lemma_view();
            assert(self.resident().dom() =~= self.resident@.dom());
        }
        self.resident.len()
    }

    /// Whether `id` is in memory.
    pub fn is_resident(&self, id: &MessageId) -> (b: bool)
        requires
            self.consistent(),
        ensures
            b == self.resident().contains_key(*id),
    {
        self.resident.contains(id)
    }

    /// The position in memory of the entry that leaves next: of the settled
    /// entries that the store holds, the one that was settled first, and of those
    /// settled at the same time the one that came to memory first.
    fn victim(&self) -> (r: Option<usize>)
        requires
            self.consistent(),
        ensures
            match r {
                Some(i) => {
                    let out = self.queue()[i as int];
                    &&& i < self.queue().len()
                    &&& self.resident().contains_key(out)
                    &&& evictable(self.resident()[out], self.pending().contains(out))
                    &&& forall|j: int|
                        0 <= j < self.queue().len() && j != i && evictable(
                            self.resident()[#[trigger] self.queue()[j]],
                            self.pending().contains(self.queue()[j]),
                        ) ==> leaves_before(
                            self.resident()[out],
                            i as int,
                            self.resident()[self.queue()[j]],
                            j,
                        )
                },
                None => forall|id: MessageId| #[trigger]
                    self.resident().contains_key(id) ==> !evictable(
                        self.resident()[id],
                        self.pending().contains(id),
                    ),
            },
    {
        proof {
            self.resident.lemma_view();
        }
        let n = self.resident.len();
        let mut best: Option<(usize, u64)> = None;
        let mut i: usize = 0;
        while i < n
            invariant
                self.consistent(),
                n == self.resident.keys().len(),
                i <= n,
                match best {
                    Some((at, stamp)) => {
                        &&& at < i
                        &&& self.resident.value_at(at as int).record.metadata.reference_timestamp
                            == Some(stamp)
                        &&& self.resident.value_at(at as int).persisted
                        &&& forall|j: int|
                            0 <= j < i && j != at && (#[trigger] self.resident.value_at(j)).persisted
                                && self.resident.value_at(j).record.metadata.reference_timestamp
                                is Some ==> leaves_before(
                                self.resident.value_at(at as int).record@,
                                at as int,
                                self.resident.value_at(j).record@,
                                j,
                            )
                    },
                    None => forall|j: int|
                        0 <= j < i ==> !((#[trigger] self.resident.value_at(j)).persisted
                            && self.resident.value_at(j).record.metadata.reference_timestamp
                            is Some),
                },
            decreases n - i,
        {
            let vertex = self.resident.value(i);
            if vertex.persisted {
                if let Some(stamp) = vertex.record.metadata.reference_timestamp {
                    let better = match best {
                        Some((_, least)) => stamp < least,
                        None => true,
                    };
                    if better {
                        best = Some((i, stamp));
                    }
                }
            }
            i += 1;
        }
        proof {
            self.resident.lemma_view();
            assert forall|id: MessageId| #[trigger] self.resident().contains_key(id) implies exists|
                j: int,
            |
                0 <= j < n && self.resident.keys()[j] == id && self.resident@[id]
                    == #[trigger] self.resident.value_at(j) by {
                let j = self.resident.keys().index_of(id);
                assert(self.resident.keys()[j] == id);
            }
            assert forall|j: int| 0 <= j < n implies self.resident@[self.resident.keys()[j]]
                == #[trigger] self.resident.value_at(j) by {}
        }
        match best {
            Some((at, _)) => Some(at),
            None => None,
        }
    }

    /// Lets settled entries that the store holds leave memory, those settled
    /// first going first, until at most `capacity` entries are left or no such
    /// entry is.
    fn make_room(&mut self)
        requires
            old(self).consistent(),
        ensures
            final(self).reliable() == old(self).reliable(),
            final(self).wf(),
            final(self).storage() == old(self).storage(),
            final(self).capacity() == old(self).capacity(),
            final(self).pending() == old(self).pending(),
            final(self).vertices() == old(self).vertices(),
            trimmed(
                old(self).resident(),
                old(self).queue(),
                old(self).pending(),
                old(self).capacity(),
                final(self).resident(),
                final(self).queue(),
            ),
    {
        let ghost before = *self;
        let ghost first = before.queue();
        proof {
            self.lemma_consistent();
            assert forall|i: int| 0 <= i < first.len() implies first.index_of(#[trigger] first[i])
                == i by {
                assert(first.contains(first[i]));
            }
        }
        loop
            invariant
                self.consistent(),
                before.consistent(),
                before == *old(self),
                first == before.queue(),
                first.no_duplicates(),
                self.storage == before.storage,
                self.capacity == before.capacity,
                self.pending() == before.pending(),
                self.vertices() == before.vertices(),
                self.resident().submap_of(before.resident()),
                forall|i: int|
                    0 <= i < self.queue().len() ==> first.contains(#[trigger] self.queue()[i]),
                forall|i: int, j: int|
                    0 <= i < j < self.queue().len() ==> first.index_of(#[trigger] self.queue()[i])
                        < first.index_of(#[trigger] self.queue()[j]),
                forall|out: MessageId| #[trigger]
                    before.resident().contains_key(out) && !self.resident().contains_key(out) ==> {
                        &&& evictable(before.resident()[out], before.pending().contains(out))
                        &&& forall|kept: MessageId| #[trigger]
                            self.resident().contains_key(kept) && evictable(
                                self.resident()[kept],
                                before.pending().contains(kept),
                            ) ==> leaves_before(
                                before.resident()[out],
                                first.index_of(out),
                                self.resident()[kept],
                                first.index_of(kept),
                            )
                    },
                before.resident().len() <= before.capacity ==> self.resident() == before.resident()
                    && self.queue() == first,
                before.resident().len() > before.capacity ==> self.resident().len()
                    >= before.capacity,
            decreases self.resident().len(),
        {
            proof {
                self.lemma_consistent();
            }
            if self.len() <= self.capacity {
                return ;
            }
            match self.victim() {
                None => {
                    return ;
                },
                Some(i) => {
                    let ghost previous = *self;
                    let ghost then = previous.queue();
                    let id = self.resident.key(i);
                    proof {
                        self.resident.lemma_view();
                        assert(then.index_of(id) == i) by {
                            assert(then.contains(then[i as int]));
                        }
                    }
                    self.resident.remove(&id);
                    proof {
                        let now = self.queue();
                        assert(now == then.remove(i as int));
                        assert(self.resident() =~= previous.resident().remove(id));
                        assert(self.pending() =~= previous.pending());
                        assert(self.vertices() =~= previous.vertices());
                        assert(previous.resident().dom().finite());
                        assert forall|k: int| 0 <= k < now.len() implies now[k] == then[if k < i {
                            k
                        } else {
                            k + 1
                        }] by {}
                        assert forall|k: int| 0 <= k < now.len() implies first.contains(
                            #[trigger] now[k],
                        ) by {
                            let at = if k < i {
                                k
                            } else {
                                k + 1
                            };
                            assert(now[k] == then[at]);
                        }
                        assert forall|a: int, b: int| 0 <= a < b < now.len() implies first.index_of(
                            #[trigger] now[a],
                        ) < first.index_of(#[trigger] now[b]) by {
                            let at_a = if a < i {
                                a
                            } else {
                                a + 1
                            };
                            let at_b = if b < i {
                                b
                            } else {
                                b + 1
                            };
                            assert(now[a] == then[at_a] && now[b] == then[at_b]);
                        }
                        assert forall|kept: MessageId| #[trigger]
                            self.resident().contains_key(kept) && evictable(
                                self.resident()[kept],
                                before.pending().contains(kept),
                            ) implies leaves_before(
                            before.resident()[id],
                            first.index_of(id),
                            self.resident()[kept],
                            first.index_of(kept),
                        ) by {
                            previous.lemma_consistent();
                            assert(previous.resident().contains_key(kept));
                            assert(then.contains(kept));
                            let j = choose|j: int| 0 <= j < then.len() && then[j] == kept;
                            assert(j != i);
                            assert(leaves_before(
                                previous.resident()[id],
                                i as int,
                                previous.resident()[then[j]],
                                j,
                            ));
                            if j < i {
                                assert(first.index_of(then[j]) < first.index_of(then[i as int]));
                            } else {
                                assert(first.index_of(then[i as int]) < first.index_of(then[j]));
                            }
                            assert(then[i as int] == id);
                            assert(previous.resident().contains_key(id));
                            assert(before.resident()[id] == previous.resident()[id]);
                            assert(self.resident()[kept] == previous.resident()[kept]);
                        }
                    }
                },
            }
        }
    }

    /// What the cache knows of `id`: the entry in memory, else the record in the
    /// store. Memory is left as it is.
    pub fn peek(&self, id: &MessageId) -> (r: Result<Option<Record>, CacheError>)
        requires
            self.wf(),
        ensures
            self.reliable() ==> r is Ok,
            match r {
                Ok(found) => answers(found, self.vertices(), *id),
                Err(e) => e is Unavailable && !self.resident().contains_key(*id),
            },
    {
        match self.resident.get(id) {
            Some(vertex) => Ok(Some(vertex.record.clone())),
            None => match self.storage.fetch(id) {
                Ok(found) => Ok(found),
                Err(e) => Err(CacheError::Unavailable(e)),
            },
        }
    }

    /// Whether `id` names a known message, in memory or in the store.
    pub fn contains(&self, id: &MessageId) -> (r: Result<bool, CacheError>)
        requires
            self.wf(),
        ensures
            self.reliable() ==> r is Ok,
            match r {
                Ok(known) => known == self.vertices().contains_key(*id),
                Err(e) => e is Unavailable && !self.resident().contains_key(*id),
            },
    {
        if self.resident.contains(id) {
            return Ok(true);
        }
        match self.storage.fetch(id) {
            Ok(found) => Ok(found.is_some()),
            Err(e) => Err(CacheError::Unavailable(e)),
        }
    }

    /// Adds a message under `id` unless one is known under it: the first writer
    /// wins.
    ///
    /// Returns `Ok(true)` when the message was added to memory and to the store,
    /// and `Ok(false)` when `id` was known and nothing was changed. When the store
    /// cannot tell whether `id` is known, nothing is changed either. When the
    /// store does not take the new record, the message is added to memory all the
    /// same and stays there, pending.
    pub fn insert(&mut self, id: MessageId, message: Message, metadata: MessageMetadata) -> (r:
        Result<bool, CacheError>)
        requires
            old(self).wf(),
        ensures
            final(self).reliable() == old(self).reliable(),
            old(self).reliable() ==> r is Ok,
            final(self).wf(),
            final(self).capacity() == old(self).capacity(),
            old(self).resident().contains_key(id) ==> r == Ok::<bool, CacheError>(false),
            match r {
                Ok(added) => {
                    &&& added == !old(self).vertices().contains_key(id)
                    &&& final(self).pending() == old(self).pending()
                    &&& if added {
                        let record = RecordView { message: message@, metadata };
                        &&& final(self).stored() == old(self).stored().insert(id, record)
                        &&& final(self).vertices() == old(self).vertices().insert(id, record)
                        &&& trimmed(
                            old(self).resident().insert(id, record),
                            old(self).queue().push(id),
                            final(self).pending(),
                            final(self).capacity(),
                            final(self).resident(),
                            final(self).queue(),
                        )
                    } else {
                        &&& final(self).stored() == old(self).stored()
                        &&& final(self).resident() == old(self).resident()
                        &&& final(self).queue() == old(self).queue()
                    }
                },
                Err(CacheError::Unavailable(_)) => {
                    &&& !old(self).resident().contains_key(id)
                    &&& final(self).stored() == old(self).stored()
                    &&& final(self).resident() == old(self).resident()
                    &&& final(self).queue() == old(self).queue()
                    &&& final(self).pending() == old(self).pending()
                },
                Err(CacheError::Unpersisted(_)) => {
                    let record = RecordView { message: message@, metadata };
                    &&& !old(self).vertices().contains_key(id)
                    &&& final(self).pending() == old(self).pending().insert(id)
                    &&& (final(self).stored() == old(self).stored() || final(self).stored()
                        == old(self).stored().insert(id, record))
                    &&& final(self).vertices() == old(self).vertices().insert(id, record)
                    &&& trimmed(
                        old(self).resident().insert(id, record),
                        old(self).queue().push(id),
                        final(self).pending(),
                        final(self).capacity(),
                        final(self).resident(),
                        final(self).queue(),
                    )
                },
            },
    {
        if self.resident.contains(&id) {
            return Ok(false);
        }
        match self.storage.fetch(&id) {
            Err(e) => {
                return Err(CacheError::Unavailable(e));
            },
            Ok(Some(_)) => {
                return Ok(false);
            },
            Ok(None) => {},
        }
        let record = Record { message, metadata };
        let written = self.storage.insert(id, &record);
        let ghost shown = record@;
        let persisted = written.is_ok();
        self.resident.insert(id, Vertex { record, persisted });
        proof {
            assert(self.resident() =~= old(self).resident().insert(id, shown));
            if persisted {
                assert(self.pending() =~= old(self).pending());
            } else {
                assert(self.pending() =~= old(self).pending().insert(id));
            }
            assert(self.vertices() =~= old(self).vertices().insert(id, shown));
        }
        self.make_room();
        match written {
            Ok(()) => Ok(true),
            Err(e) => Err(CacheError::Unpersisted(e)),
        }
    }

    /// Reads what is known of `id`, and brings the entry to memory if only the
    /// store held it.
    pub fn get_record(&mut self, id: &MessageId) -> (r: Result<Option<Record>, CacheError>)
        requires
            old(self).wf(),
        ensures
            final(self).reliable() == old(self).reliable(),
            old(self).reliable() ==> r is Ok,
            final(self).wf(),
            final(self).capacity() == old(self).capacity(),
            final(self).stored() == old(self).stored(),
            final(self).pending() == old(self).pending(),
            final(self).vertices() == old(self).vertices(),
            old(self).resident().contains_key(*id) ==> r is Ok,
            match r {
                Ok(found) => {
                    &&& answers(found, old(self).vertices(), *id)
                    &&& trimmed(
                        brought_in(old(self).resident(), old(self).vertices(), *id),
                        brought_in_queue(
                            old(self).queue(),
                            old(self).resident(),
                            old(self).vertices(),
                            *id,
                        ),
                        final(self).pending(),
                        final(self).capacity(),
                        final(self).resident(),
                        final(self).queue(),
                    )
                },
                Err(e) => e is Unavailable && final(self).resident() == old(self).resident()
                    && final(self).queue() == old(self).queue(),
            },
    {
        proof {
            self.lemma_consistent();
        }
        if let Some(vertex) = self.resident.get(id) {
            assert(brought_in(self.resident(), self.vertices(), *id) =~= self.resident());
            return Ok(Some(vertex.record.clone()));
        }
        match self.storage.fetch(id) {
            Err(e) => Err(CacheError::Unavailable(e)),
            Ok(None) => Ok(None),
            Ok(Some(record)) => {
                let copy = record.clone();
                let ghost shown = record@;
                self.resident.insert(*id, Vertex { record, persisted: true });
                proof {
                    assert(self.resident() =~= old(self).resident().insert(*id, shown));
                    assert(self.pending() =~= old(self).pending());
                    assert(self.vertices() =~= old(self).vertices());
                }
                self.make_room();
                Ok(Some(copy))
            },
        }
    }

    /// The message known under `id`, from memory or from the store.
    pub fn get(&mut self, id: &MessageId) -> (r: Result<Option<Message>, CacheError>)
        requires
            old(self).wf(),
        ensures
            final(self).reliable() == old(self).reliable(),
            old(self).reliable() ==> r is Ok,
            final(self).wf(),
            final(self).capacity() == old(self).capacity(),
            final(self).stored() == old(self).stored(),
            final(self).pending() == old(self).pending(),
            final(self).vertices() == old(self).vertices(),
            old(self).resident().contains_key(*id) ==> r is Ok,
            match r {
                Ok(found) => {
                    &&& match found {
                        Some(message) => old(self).vertices().contains_key(*id) && message@
                            == old(self).vertices()[*id].message,
                        None => !old(self).vertices().contains_key(*id),
                    }
                    &&& trimmed(
                        brought_in(old(self).resident(), old(self).vertices(), *id),
                        brought_in_queue(
                            old(self).queue(),
                            old(self).resident(),
                            old(self).vertices(),
                            *id,
                        ),
                        final(self).pending(),
                        final(self).capacity(),
                        final(self).resident(),
                        final(self).queue(),
                    )
                },
                Err(e) => e is Unavailable && final(self).resident() == old(self).resident()
                    && final(self).queue() == old(self).queue(),
            },
    {
        match self.get_record(id) {
            Ok(Some(record)) => Ok(Some(record.message)),
            Ok(None) => Ok(None),
            Err(e) => Err(e),
        }
    }

    /// The state kept about the message known under `id`, from memory or from the
    /// store.
    pub fn get_metadata(&mut self, id: &MessageId) -> (r: Result<
        Option<MessageMetadata>,
        CacheError,
    >)
        requires
            old(self).wf(),
        ensures
            final(self).reliable() == old(self).reliable(),
            old(self).reliable() ==> r is Ok,
            final(self).wf(),
            final(self).capacity() == old(self).capacity(),
            final(self).stored() == old(self).stored(),
            final(self).pending() == old(self).pending(),
            final(self).vertices() == old(self).vertices(),
            old(self).resident().contains_key(*id) ==> r is Ok,
            match r {
                Ok(found) => {
                    &&& match found {
                        Some(metadata) => old(self).vertices().contains_key(*id) && metadata
                            == old(self).vertices()[*id].metadata,
                        None => !old(self).vertices().contains_key(*id),
                    }
                    &&& trimmed(
                        brought_in(old(self).resident(), old(self).vertices(), *id),
                        brought_in_queue(
                            old(self).queue(),
                            old(self).resident(),
                            old(self).vertices(),
                            *id,
                        ),
                        final(self).pending(),
                        final(self).capacity(),
                        final(self).resident(),
                        final(self).queue(),
                    )
                },
                Err(e) => e is Unavailable && final(self).resident() == old(self).resident()
                    && final(self).queue() == old(self).queue(),
            },
    {
        proof {
            self.lemma_consistent();
        }
        if let Some(vertex) = self.resident.get(id) {
            assert(brought_in(self.resident(), self.vertices(), *id) =~= self.resident());
            return Ok(Some(vertex.record.metadata));
        }
        match self.get_record(id) {
            Ok(Some(record)) => Ok(Some(record.metadata)),
            Ok(None) => Ok(None),
            Err(e) => Err(e),
        }
    }

    /// Gives the entry at position `i` of memory the state `metadata` and writes
    /// its record to the store. The entry is pending afterwards exactly if the
    /// store did not take it.
    fn write_back(&mut self, i: usize, metadata: MessageMetadata) -> (written: Result<
        (),
        StorageError,
    >)
        requires
            old(self).consistent(),
            i < old(self).resident.keys().len(),
        ensures
            final(self).reliable() == old(self).reliable(),
            old(self).reliable() ==> written is Ok,
            final(self).consistent(),
            final(self).capacity() == old(self).capacity(),
            final(self).resident.keys() == old(self).resident.keys(),
            ({
                let id = old(self).resident.keys()[i as int];
                let record = with_metadata(old(self).resident()[id], metadata);
                &&& old(self).resident().contains_key(id)
                &&& final(self).resident() == old(self).resident().insert(id, record)
                &&& written is Ok ==> final(self).stored() == old(self).stored().insert(id, record)
                    && final(self).pending() == old(self).pending().remove(id)
                &&& written is Err ==> (final(self).stored() == old(self).stored()
                    || final(self).stored() == old(self).stored().insert(id, record))
                    && final(self).pending() == old(self).pending().insert(id)
            }),
    {
        proof {
            self.resident.lemma_view();
        }
        let id = self.resident.key(i);
        let hollow = Vertex {
            record: Record { message: Message::genesis(), metadata },
            persisted: false,
        };
        let former = self.resident.replace(i, hollow);
        let record = Record { message: former.record.message, metadata };
        let written = self.storage.insert(id, &record);
        let ghost shown = record@;
        let persisted = written.is_ok();
        self.resident.replace(i, Vertex { record, persisted });
        proof {
            self.resident.lemma_view();
            assert(self.resident() =~= old(self).resident().insert(id, shown));
            if persisted {
                assert(self.pending() =~= old(self).pending().remove(id));
            } else {
                assert(self.pending() =~= old(self).pending().insert(id));
            }
        }
        written
    }

    /// Changes the state kept about `id` by `update`, which is given the present
    /// state and returns the proposed one.
    ///
    /// A settled timestamp and a concrete conflict reason of the present state
    /// stay whatever is proposed; the rest of the proposal is taken over. Returns
    /// the state that stands, or `None` when `id` is unknown. When the store does
    /// not take the new state, it stands in memory all the same, pending.
    pub fn update_metadata<F: FnOnce(MessageMetadata) -> MessageMetadata>(
        &mut self,
        id: &MessageId,
        update: F,
    ) -> (r: Result<Option<MessageMetadata>, CacheError>)
        requires
            old(self).wf(),
            old(self).vertices().contains_key(*id) ==> call_requires(
                update,
                (old(self).vertices()[*id].metadata,),
            ),
        ensures
            final(self).reliable() == old(self).reliable(),
            old(self).reliable() ==> r is Ok,
            final(self).wf(),
            final(self).capacity() == old(self).capacity(),
            match r {
                Ok(None) => {
                    &&& !old(self).vertices().contains_key(*id)
                    &&& final(self).stored() == old(self).stored()
                    &&& final(self).resident() == old(self).resident()
                    &&& final(self).queue() == old(self).queue()
                    &&& final(self).pending() == old(self).pending()
                },
                Ok(Some(metadata)) => {
                    let record = with_metadata(old(self).vertices()[*id], metadata);
                    &&& old(self).vertices().contains_key(*id)
                    &&& exists|proposed: MessageMetadata|
                        #[trigger] call_ensures(
                            update,
                            (old(self).vertices()[*id].metadata,),
                            proposed,
                        ) && metadata == accepted(old(self).vertices()[*id].metadata, proposed)
                    &&& preserves_settled(old(self).vertices()[*id].metadata, metadata)
                    &&& final(self).vertices() == old(self).vertices().insert(*id, record)
                    &&& final(self).stored() == old(self).stored().insert(*id, record)
                    &&& final(self).pending() == old(self).pending().remove(*id)
                    &&& trimmed(
                        old(self).resident().insert(*id, record),
                        brought_in_queue(
                            old(self).queue(),
                            old(self).resident(),
                            old(self).vertices(),
                            *id,
                        ),
                        final(self).pending(),
                        final(self).capacity(),
                        final(self).resident(),
                        final(self).queue(),
                    )
                },
                Err(CacheError::Unavailable(_)) => {
                    &&& !old(self).resident().contains_key(*id)
                    &&& final(self).stored() == old(self).stored()
                    &&& final(self).resident() == old(self).resident()
                    &&& final(self).queue() == old(self).queue()
                    &&& final(self).pending() == old(self).pending()
                },
                Err(CacheError::Unpersisted(_)) => {
                    &&& old(self).vertices().contains_key(*id)
                    &&& exists|proposed: MessageMetadata|
                        {
                            &&& #[trigger] call_ensures(
                                update,
                                (old(self).vertices()[*id].metadata,),
                                proposed,
                            )
                            &&& final(self).vertices() == old(self).vertices().insert(
                                *id,
                                updated(old(self).vertices()[*id], proposed),
                            )
                            &&& trimmed(
                                old(self).resident().insert(
                                    *id,
                                    updated(old(self).vertices()[*id], proposed),
                                ),
                                brought_in_queue(
                                    old(self).queue(),
                                    old(self).resident(),
                                    old(self).vertices(),
                                    *id,
                                ),
                                final(self).pending(),
                                final(self).capacity(),
                                final(self).resident(),
                                final(self).queue(),
                            )
                        }
                    &&& final(self).pending() == old(self).pending().insert(*id)
                },
            },
    {
        proof {
            self.lemma_consistent();
            self.resident.lemma_view();
        }
        let at = match self.resident.position(id) {
            Some(i) => i,
            None => match self.storage.fetch(id) {
                Err(e) => {
                    return Err(CacheError::Unavailable(e));
                },
                Ok(None) => {
                    return Ok(None);
                },
                Ok(Some(record)) => {
                    let at = self.resident.len();
                    self.resident.insert(*id, Vertex { record, persisted: true });
                    at
                },
            },
        };
        let ghost loaded = *self;
        proof {
            self.resident.lemma_view();
            assert(loaded.resident() =~= brought_in(
                old(self).resident(),
                old(self).vertices(),
                *id,
            ));
            assert(loaded.pending() =~= old(self).pending());
            assert(loaded.vertices() =~= old(self).vertices());
        }
        let current = self.resident.value(at).record.metadata;
        let proposed = update(current);
        let metadata = current.accept(proposed);
        let written = self.write_back(at, metadata);
        proof {
            let record = with_metadata(old(self).vertices()[*id], metadata);
            assert(self.resident() =~= old(self).resident().insert(*id, record));
            assert(self.vertices() =~= old(self).vertices().insert(*id, record));
        }
        self.make_room();
        match written {
            Ok(()) => Ok(Some(metadata)),
            Err(e) => Err(CacheError::Unpersisted(e)),
        }
    }

    /// Writes every pending entry to the store, and stops at the first that the
    /// store does not take.
    pub fn flush(&mut self) -> (r: Result<(), CacheError>)
        requires
            old(self).wf(),
        ensures
            final(self).reliable() == old(self).reliable(),
            old(self).reliable() ==> r is Ok,
            final(self).wf(),
            final(self).capacity() == old(self).capacity(),
            final(self).vertices() == old(self).vertices(),
            final(self).pending().subset_of(old(self).pending()),
            trimmed(
                old(self).resident(),
                old(self).queue(),
                final(self).pending(),
                final(self).capacity(),
                final(self).resident(),
                final(self).queue(),
            ),
            exists|written: Set<MessageId>|
                {
                    &&& old(self).pending().difference(final(self).pending()).subset_of(written)
                    &&& written.subset_of(old(self).pending())
                    &&& final(self).stored() == old(self).stored().union_prefer_right(
                        #[trigger] old(self).resident().restrict(written),
                    )
                },
            match r {
                Ok(()) => {
                    &&& final(self).pending() == Set::<MessageId>::empty()
                    &&& final(self).stored() == old(self).stored().union_prefer_right(
                        old(self).resident().restrict(old(self).pending()),
                    )
                },
                Err(e) => e is Unpersisted,
            },
    {
        let ghost before = *self;
        let n = self.resident.len();
        let mut i: usize = 0;
        let mut failure: Option<StorageError> = None;
        let ghost mut written: Set<MessageId> = Set::empty();
        proof {
            assert(before.pending().difference(self.pending()) =~= Set::<MessageId>::empty());
            assert(before.resident().restrict(written) =~= Map::<MessageId, RecordView>::empty());
            assert(self.stored() =~= before.stored().union_prefer_right(
                before.resident().restrict(written),
            ));
        }
        while i < n && failure.is_none()
            invariant
                before == *old(self),
                before.consistent(),
                self.consistent(),
                self.capacity == before.capacity,
                self.reliable() == before.reliable(),
                before.reliable() ==> failure is None,
                self.resident.keys() == before.resident.keys(),
                n == self.resident.keys().len(),
                i <= n,
                self.resident() == before.resident(),
                self.vertices() == before.vertices(),
                self.pending().subset_of(before.pending()),
                failure is None ==> forall|j: int|
                    0 <= j < i ==> !self.pending().contains(#[trigger] self.resident.keys()[j]),
                failure is None ==> written == before.pending().difference(self.pending()),
                before.pending().difference(self.pending()).subset_of(written),
                written.subset_of(before.pending()),
                self.stored() == before.stored().union_prefer_right(
                    before.resident().restrict(written),
                ),
            decreases n - i + if failure is None { 1nat } else { 0nat },
        {
            proof {
                self.resident.lemma_view();
                self.lemma_consistent();
            }
            let vertex = self.resident.value(i);
            if !vertex.persisted {
                let metadata = vertex.record.metadata;
                let ghost previous = *self;
                let ghost id = self.resident.keys()[i as int];
                assert(self.pending().contains(id));
                match self.write_back(i, metadata) {
                    Ok(()) => {
                        proof {
                            assert(self.resident() =~= before.resident());
                            assert(self.vertices() =~= before.vertices());
                            written = written.insert(id);
                            assert(written =~= before.pending().difference(self.pending()));
                            assert(self.stored() =~= before.stored().union_prefer_right(
                                before.resident().restrict(written),
                            ));
                        }
                        i += 1;
                    },
                    Err(e) => {
                        proof {
                            assert(self.resident() =~= before.resident());
                            assert(self.pending() =~= previous.pending());
                            assert(self.vertices() =~= before.vertices());
                            if self.stored() != previous.stored() {
                                written = written.insert(id);
                            }
                            assert(self.stored() =~= before.stored().union_prefer_right(
                                before.resident().restrict(written),
                            ));
                        }
                        failure = Some(e);
                    },
                }
            } else {
                i += 1;
            }
        }
        proof {
            self.resident.lemma_view();
            if failure is None {
                assert forall|id: MessageId| !self.pending().contains(id) by {
                    if self.resident@.contains_key(id) {
                        let j = self.resident.keys().index_of(id);
                        assert(self.resident.keys()[j] == id);
                    }
                }
                assert(self.pending() =~= Set::<MessageId>::empty());
                assert(before.pending().difference(self.pending()) =~= before.pending());
            }
            assert(self.stored() == before.stored().union_prefer_right(
                before.resident().restrict(written),
            ));
        }
        let ghost flushed = *self;
        self.make_room();
        proof {
            flushed.lemma_consistent();
            self.lemma_consistent();
            assert(self.stored() == flushed.stored());
        }
        match failure {
            None => Ok(()),
            Some(e) => Err(CacheError::Unpersisted(e)),
        }
    }

    /// Writes every pending entry to the store and hands the store back.
    pub fn into_storage(self) -> (r: (S, Result<(), CacheError>))
        requires
            self.wf(),
        ensures
            self.reliable() ==> r.1 is Ok,
            r.0.reliable() == self.reliable(),
            r.0.inv(),
            r.1 is Ok ==> r.0.records() == self.vertices(),
            r.1 matches Err(e) ==> e is Unpersisted,
    {
        let mut cache = self;
        let flushed = cache.flush();
        proof {
            cache.lemma_consistent();
            if flushed is Ok {
                assert(cache.stored() =~= cache.vertices());
            }
        }
        (cache.storage, flushed)
    }
}

impl GraphCache<MemoryStorage> {
    /// Makes every later read of the store fail, or succeed again.
    pub fn fail_reads(&mut self, failing: bool)
        requires
            old(self).wf(),
        ensures
            final(self).wf(),
            final(self).capacity() == old(self).capacity(),
            final(self).stored() == old(self).stored(),
            final(self).resident() == old(self).resident(),
            final(self).queue() == old(self).queue(),
            final(self).pending() == old(self).pending(),
            final(self).storage().reads_fail() == failing,
            final(self).storage().writes_fail() == old(self).storage().writes_fail(),
            final(self).reliable() == final(self).storage().reliable(),
    {
        self.storage.fail_reads(failing);
    }

    /// Makes every later write to the store fail, or succeed again.
    pub fn fail_writes(&mut self, failing: bool)
        requires
            old(self).wf(),
        ensures
            final(self).wf(),
            final(self).capacity() == old(self).capacity(),
            final(self).stored() == old(self).stored(),
            final(self).resident() == old(self).resident(),
            final(self).queue() == old(self).queue(),
            final(self).pending() == old(self).pending(),
            final(self).storage().writes_fail() == failing,
            final(self).storage().reads_fail() == old(self).storage().reads_fail(),
            final(self).reliable() == final(self).storage().reliable(),
    {
        self.storage.fail_writes(failing);
    }
}

} // verus!
