//! The Tangle: the graph of all known messages, with its tips.

use crate::cache::{
    brought_in, brought_in_queue, trimmed, updated, with_metadata, CacheError, GraphCache,
};
use crate::id_map::IdMap;
use crate::memory_storage::{MemoryStorage, STORAGE_VERSION};
use crate::message::{Message, MessageId};
use crate::metadata::{accepted, preserves_settled, MessageMetadata};
use crate::storage::{lists, Record, RecordView, StorageBackend, StorageError, StorageHealth};
use crate::tip_pool::{dropped, kept, selection, StalenessPolicy, TipPool};
use vstd::prelude::*;

verus! {

/// How a [`Tangle`] is set up.
#[derive(Debug, PartialEq, Eq)]
pub struct TangleConfig {
    /// The number of entries beyond which settled messages leave memory.
    pub cache_capacity: usize,
    /// The time between two passes of the tip pool cleaner.
    pub cleaner_interval: u64,
    /// When a tip is stale.
    pub staleness: StalenessPolicy,
    /// The messages below which the graph is not walked.
    pub solid_entry_points: Vec<MessageId>,
}

/// Why a [`Tangle`] could not be started.
#[derive(Clone, Copy, Debug, PartialEq, Eq, Structural)]
pub enum StartError {
    /// The store could not be read.
    Storage(StorageError),
    /// The store reports that it was not closed in order.
    Corrupted,
    /// The store has another schema version than [`STORAGE_VERSION`]; holds the
    /// version found.
    IncompatibleVersion(u8),
}

/// Whether `child` is a known message that names `parent` as a parent.
pub open spec fn names_parent(
    vertices: Map<MessageId, RecordView>,
    child: MessageId,
    parent: MessageId,
) -> bool {
    vertices.contains_key(child) && vertices[child].message.parents.contains(parent)
}

/// The messages that some known message names as a parent.
pub open spec fn referenced_in(vertices: Map<MessageId, RecordView>) -> Set<MessageId> {
    Set::new(|parent: MessageId| exists|child: MessageId| names_parent(vertices, child, parent))
}

/// Whether the graph `after` has every message of `before`, as it was, and with
/// every settled field of its state as it was.
pub open spec fn extends(
    before: Map<MessageId, RecordView>,
    after: Map<MessageId, RecordView>,
) -> bool {
    forall|id: MessageId| #[trigger]
        before.contains_key(id) ==> after.contains_key(id) && after[id].message
            == before[id].message && preserves_settled(before[id].metadata, after[id].metadata)
}

/// The graph once `record` was inserted under `id`: the first writer wins.
pub open spec fn inserted(
    vertices: Map<MessageId, RecordView>,
    id: MessageId,
    record: RecordView,
) -> Map<MessageId, RecordView> {
    if vertices.contains_key(id) {
        vertices
    } else {
        vertices.insert(id, record)
    }
}

/// A graph extends itself.
pub proof fn lemma_extends_itself(a: Map<MessageId, RecordView>)
    ensures
        extends(a, a),
{
}

/// Extending carries over from step to step.
pub proof fn lemma_extends_in_steps(
    a: Map<MessageId, RecordView>,
    b: Map<MessageId, RecordView>,
    c: Map<MessageId, RecordView>,
)
    requires
        extends(a, b),
        extends(b, c),
    ensures
        extends(a, c),
{
    assert forall|id: MessageId| #[trigger] a.contains_key(id) implies c.contains_key(id) && c[id].message
        == a[id].message && preserves_settled(a[id].metadata, c[id].metadata) by {
        assert(b.contains_key(id));
    }
}

/// A message that was inserted is the message that is known under its
/// identifier ever after: whatever is inserted, read, updated, written back or
/// dropped from memory in between, for each of these leaves a graph that
/// [`extends`] the one before.
pub proof fn lemma_inserted_message_stays(
    before: Map<MessageId, RecordView>,
    id: MessageId,
    record: RecordView,
    later: Map<MessageId, RecordView>,
)
    requires
        !before.contains_key(id),
        extends(inserted(before, id, record), later),
    ensures
        later.contains_key(id),
        later[id].message == record.message,
{
    assert(inserted(before, id, record).contains_key(id));
}

/// Inserting twice under one identifier is inserting once: the second insert
/// finds the first and changes nothing, neither the message nor its state.
pub proof fn lemma_insert_is_idempotent(
    vertices: Map<MessageId, RecordView>,
    id: MessageId,
    first: RecordView,
    second: RecordView,
)
    ensures
        inserted(vertices, id, first).contains_key(id),
        inserted(inserted(vertices, id, first), id, second) == inserted(vertices, id, first),
        !vertices.contains_key(id) ==> inserted(inserted(vertices, id, first), id, second)[id]
            == first,
{
}

/// Once a message has a reference timestamp, a solidification timestamp or a
/// concrete conflict reason, it has the same in every later graph.
pub proof fn lemma_settled_state_stays(
    before: Map<MessageId, RecordView>,
    later: Map<MessageId, RecordView>,
    id: MessageId,
)
    requires
        before.contains_key(id),
        extends(before, later),
    ensures
        before[id].metadata.reference_timestamp is Some ==> later[id].metadata.reference_timestamp
            == before[id].metadata.reference_timestamp,
        before[id].metadata.solidification_timestamp is Some
            ==> later[id].metadata.solidification_timestamp
            == before[id].metadata.solidification_timestamp,
        before[id].metadata.conflict.is_conflicting() ==> later[id].metadata.conflict
            == before[id].metadata.conflict,
{
}

/// Whether the index `approvers` lists `child` under `parent`.
pub open spec fn approves(
    approvers: Map<MessageId, Vec<MessageId>>,
    parent: MessageId,
    child: MessageId,
) -> bool {
    approvers.contains_key(parent) && approvers[parent]@.contains(child)
}

/// The tips `ids` once each of `parents` was taken out in turn; the others keep
/// their order.
pub open spec fn unlinked(ids: Seq<MessageId>, parents: Seq<MessageId>) -> Seq<MessageId>
    decreases parents.len(),
{
    if parents.len() == 0 {
        ids
    } else {
        let rest = unlinked(ids, parents.drop_last());
        if rest.contains(parents.last()) {
            rest.remove(rest.index_of(parents.last()))
        } else {
            rest
        }
    }
}

/// Whether the message `id` with the parents `parents` becomes a tip when it is
/// added to `vertices`: no known message names it as a parent, nor does it name
/// itself.
pub open spec fn becomes_tip(
    vertices: Map<MessageId, RecordView>,
    parents: Seq<MessageId>,
    id: MessageId,
) -> bool {
    !referenced_in(vertices).contains(id) && !parents.contains(id)
}

/// The tips with their times once the message `id` with the parents `parents`
/// was added to `vertices` at `now`: its parents are tips no longer, and it is one
/// if it [`becomes_tip`].
pub open spec fn tip_times_after(
    times: Map<MessageId, u64>,
    vertices: Map<MessageId, RecordView>,
    parents: Seq<MessageId>,
    id: MessageId,
    now: u64,
) -> Map<MessageId, u64> {
    let rest = times.remove_keys(parents.to_set());
    if becomes_tip(vertices, parents, id) {
        rest.insert(id, now)
    } else {
        rest
    }
}

/// The tips in their order once the message `id` with the parents `parents` was
/// added to `vertices`: a new tip comes last.
pub open spec fn tip_ids_after(
    ids: Seq<MessageId>,
    vertices: Map<MessageId, RecordView>,
    parents: Seq<MessageId>,
    id: MessageId,
) -> Seq<MessageId> {
    let rest = unlinked(ids, parents);
    if becomes_tip(vertices, parents, id) {
        rest.push(id)
    } else {
        rest
    }
}

/// Adding a message makes its parents referenced, and changes nothing else of
/// what is referenced.
pub proof fn lemma_referenced_after_insert(
    vertices: Map<MessageId, RecordView>,
    id: MessageId,
    record: RecordView,
)
    requires
        !vertices.contains_key(id),
    ensures
        referenced_in(vertices.insert(id, record)) == referenced_in(vertices).union(
            record.message.parents.to_set(),
        ),
{
    let after = vertices.insert(id, record);
    assert forall|parent: MessageId|
        referenced_in(after).contains(parent) <==> referenced_in(vertices).union(
            record.message.parents.to_set(),
        ).contains(parent) by {
        if referenced_in(after).contains(parent) {
            let child = choose|child: MessageId| names_parent(after, child, parent);
            if child != id {
                assert(names_parent(vertices, child, parent));
            }
        }
        if referenced_in(vertices).contains(parent) {
            let child = choose|child: MessageId| names_parent(vertices, child, parent);
            assert(names_parent(after, child, parent));
        }
        if record.message.parents.to_set().contains(parent) {
            assert(names_parent(after, id, parent));
        }
    }
    assert(referenced_in(after) =~= referenced_in(vertices).union(
        record.message.parents.to_set(),
    ));
}

/// What is referenced depends on the messages alone, not on their state.
pub proof fn lemma_referenced_ignores_metadata(
    vertices: Map<MessageId, RecordView>,
    id: MessageId,
    metadata: MessageMetadata,
)
    requires
        vertices.contains_key(id),
    ensures
        referenced_in(vertices.insert(id, with_metadata(vertices[id], metadata)))
            == referenced_in(vertices),
        forall|child: MessageId, parent: MessageId|
            #![trigger names_parent(vertices, child, parent)]
            names_parent(vertices.insert(id, with_metadata(vertices[id], metadata)), child, parent)
                <==> names_parent(vertices, child, parent),
{
    let after = vertices.insert(id, with_metadata(vertices[id], metadata));
    assert forall|child: MessageId, parent: MessageId|
        names_parent(after, child, parent) <==> names_parent(vertices, child, parent) by {}
    assert forall|parent: MessageId|
        referenced_in(after).contains(parent) <==> referenced_in(vertices).contains(parent) by {
        if referenced_in(after).contains(parent) {
            let child = choose|child: MessageId| names_parent(after, child, parent);
            assert(names_parent(vertices, child, parent));
        }
        if referenced_in(vertices).contains(parent) {
            let child = choose|child: MessageId| names_parent(vertices, child, parent);
            assert(names_parent(after, child, parent));
        }
    }
    assert(referenced_in(after) =~= referenced_in(vertices));
}

/// Lists `child` under `parent` in the index `approvers`.
fn add_approver(approvers: &mut IdMap<Vec<MessageId>>, parent: MessageId, child: MessageId)
    requires
        old(approvers).wf(),
    ensures
        final(approvers).wf(),
        forall|p: MessageId, c: MessageId|
            #![trigger approves(final(approvers)@, p, c)]
            approves(final(approvers)@, p, c) <==> approves(old(approvers)@, p, c) || (p == parent
                && c == child),
{
    let ghost before = approvers@;
    match approvers.position(&parent) {
        Some(i) => {
            proof {
                approvers.lemma_view();
            }
            let mut list = approvers.replace(i, Vec::new());
            let ghost former = list@;
            list.push(child);
            let ghost grown = list@;
            approvers.replace(i, list);
            proof {
                assert(approvers@[parent]@ == grown);
                assert(grown == former.push(child));
                assert(before[parent]@ == former);
                assert forall|p: MessageId, c: MessageId|
                    #![trigger approves(approvers@, p, c)]
                    approves(approvers@, p, c) <==> approves(before, p, c) || (p == parent && c
                        == child) by {
                    if p == parent {
                        if former.contains(c) {
                            let j = choose|j: int| 0 <= j < former.len() && former[j] == c;
                            assert(grown[j] == c);
                        }
                        if c == child {
                            assert(grown[former.len() as int] == c);
                        }
                        if grown.contains(c) && c != child {
                            let j = choose|j: int| 0 <= j < grown.len() && grown[j] == c;
                            assert(former[j] == c);
                        }
                    } else {
                        assert(approvers@.contains_key(p) == before.contains_key(p));
                        if before.contains_key(p) {
                            assert(approvers@[p] == before[p]);
                        }
                    }
                }
            }
        },
        None => {
            let mut list: Vec<MessageId> = Vec::new();
            list.push(child);
            let ghost grown = list@;
            approvers.insert(parent, list);
            proof {
                assert(approvers@[parent]@ == grown);
                assert(grown[0] == child);
                assert forall|p: MessageId, c: MessageId|
                    #![trigger approves(approvers@, p, c)]
                    approves(approvers@, p, c) <==> approves(before, p, c) || (p == parent && c
                        == child) by {
                    if p != parent {
                        assert(approvers@.contains_key(p) == before.contains_key(p));
                        if before.contains_key(p) {
                            assert(approvers@[p] == before[p]);
                        }
                    }
                }
            }
        },
    }
}

/// Lists `child` under each of `parents` in the index `approvers`, and lets the
/// pool `tips` know that each of `parents` is referred to.
fn link(
    approvers: &mut IdMap<Vec<MessageId>>,
    tips: &mut TipPool,
    child: MessageId,
    parents: &Vec<MessageId>,
)
    requires
        old(approvers).wf(),
        old(tips).wf(),
    ensures
        final(approvers).wf(),
        final(tips).wf(),
        forall|p: MessageId, c: MessageId|
            #![trigger approves(final(approvers)@, p, c)]
            approves(final(approvers)@, p, c) <==> approves(old(approvers)@, p, c) || (c == child
                && parents@.contains(p)),
        final(tips).referenced() == old(tips).referenced().union(parents@.to_set()),
        final(tips).tip_times() == old(tips).tip_times().remove_keys(parents@.to_set()),
        final(tips).tip_ids() == unlinked(old(tips).tip_ids(), parents@),
{
    let ghost listed = approvers@;
    let ghost known = tips.referenced();
    let ghost times = tips.tip_times();
    let ghost ids = tips.tip_ids();
    let mut k: usize = 0;
    proof {
        assert(parents@.take(0) =~= Seq::<MessageId>::empty());
        assert(times.remove_keys(Seq::<MessageId>::empty().to_set()) =~= times);
        assert(known.union(Seq::<MessageId>::empty().to_set()) =~= known);
    }
    while k < parents.len()
        invariant
            k <= parents@.len(),
            tips.wf(),
            approvers.wf(),
            forall|p: MessageId, c: MessageId|
                #![trigger approves(approvers@, p, c)]
                approves(approvers@, p, c) <==> approves(listed, p, c) || (c == child
                    && parents@.take(k as int).contains(p)),
            tips.referenced() == known.union(parents@.take(k as int).to_set()),
            tips.tip_times() == times.remove_keys(parents@.take(k as int).to_set()),
            tips.tip_ids() == unlinked(ids, parents@.take(k as int)),
        decreases parents@.len() - k,
    {
        let parent = parents[k];
        let ghost done = parents@.take(k as int);
        let ghost next = parents@.take(k + 1);
        proof {
            assert(next.drop_last() =~= done);
            assert(next.last() == parent);
            assert(next.to_set() =~= done.to_set().insert(parent));
            tips.lemma_wf();
        }
        let ghost indexed = approvers@;
        add_approver(approvers, parent, child);
        tips.remove_tip_if_unreferenced(&parent);
        proof {
            assert(tips.referenced() =~= known.union(next.to_set()));
            assert(tips.tip_times() =~= times.remove_keys(next.to_set()));
            assert forall|p: MessageId, c: MessageId|
                #![trigger approves(approvers@, p, c)]
                approves(approvers@, p, c) <==> approves(listed, p, c) || (c == child
                    && next.contains(p)) by {
                assert(approves(approvers@, p, c) <==> approves(indexed, p, c) || (p == parent
                    && c == child));
                assert(approves(indexed, p, c) <==> approves(listed, p, c) || (c == child
                    && done.contains(p)));
                if c == child && next.contains(p) {
                    if p != parent {
                        let j = choose|j: int| 0 <= j < next.len() && next[j] == p;
                        assert(done[j] == p);
                    }
                }
                if c == child && done.contains(p) {
                    let j = choose|j: int| 0 <= j < done.len() && done[j] == p;
                    assert(next[j] == p);
                }
                if p == parent && c == child {
                    assert(next[k as int] == p);
                }
            }
        }
        k += 1;
    }
    proof {
        assert(parents@.take(k as int) =~= parents@);
    }
}

/// Whether one of the first `n` records of `listing` is that of `child` and names
/// `parent` as a parent.
pub open spec fn named_in(
    listing: Seq<(MessageId, Record)>,
    n: int,
    child: MessageId,
    parent: MessageId,
) -> bool {
    exists|j: int|
        0 <= j < n && j < listing.len() && (#[trigger] listing[j]).0 == child
            && listing[j].1@.message.parents.contains(parent)
}

/// The graph of all known messages over a store, with the pool of its tips.
pub struct Tangle<S: StorageBackend> {
    cache: GraphCache<S>,
    tips: TipPool,
    approvers: IdMap<Vec<MessageId>>,
    solid_entry_points: IdMap<()>,
    staleness: StalenessPolicy,
    cleaner_interval: u64,
}

impl<S: StorageBackend> Tangle<S> {
    /// Every known message with its present state.
    pub closed spec fn vertices(&self) -> Map<MessageId, RecordView> {
        self.cache.vertices()
    }

    /// The graph cache.
    pub closed spec fn cache(&self) -> GraphCache<S> {
        self.cache
    }

    /// The tips, in the order in which they became tips.
    pub closed spec fn tip_ids(&self) -> Seq<MessageId> {
        self.tips.tip_ids()
    }

    /// The time at which each tip became one.
    pub closed spec fn tip_times(&self) -> Map<MessageId, u64> {
        self.tips.tip_times()
    }

    /// The messages below which the graph is not walked.
    pub closed spec fn solid_entry_points(&self) -> Set<MessageId> {
        self.solid_entry_points@.dom()
    }

    /// When a tip is stale.
    pub closed spec fn staleness(&self) -> StalenessPolicy {
        self.staleness
    }

    /// Whether every call of the store succeeds at present.
    pub closed spec fn reliable(&self) -> bool {
        self.cache.reliable()
    }

    /// The time between two passes of the tip pool cleaner.
    pub closed spec fn interval(&self) -> u64 {
        self.cleaner_interval
    }

    /// What holds of a Tangle between calls.
    pub closed spec fn wf(&self) -> bool {
        &&& self.cache.wf()
        &&& self.indexes(self.cache.vertices())
    }

    /// Whether the index of approvers and the tip pool are those of the graph
    /// `vertices`: the index lists each message under each of its parents, the
    /// pool knows as referenced what some message names as a parent, and every
    /// tip is a message of the graph.
    closed spec fn indexes(&self, vertices: Map<MessageId, RecordView>) -> bool {
        &&& self.tips.wf()
        &&& self.approvers.wf()
        &&& self.solid_entry_points.wf()
        &&& forall|parent: MessageId, child: MessageId|
            #![trigger approves(self.approvers@, parent, child)]
            #![trigger names_parent(vertices, child, parent)]
            approves(self.approvers@, parent, child) <==> names_parent(vertices, child, parent)
        &&& self.tips.referenced() == referenced_in(vertices)
        &&& forall|id: MessageId| #[trigger]
            self.tips.tip_times().contains_key(id) ==> vertices.contains_key(id)
    }

    /// Every tip is a known message that no known message names as a parent, and
    /// no message is a tip twice.
    pub proof fn lemma_tips_are_unreferenced(&self)
        requires
            self.wf(),
        ensures
            self.cache().wf(),
            self.vertices() == self.cache().vertices(),
            self.reliable() == self.cache().reliable(),
            self.vertices().dom().finite(),
            referenced_in(self.vertices()).finite(),
            self.solid_entry_points().finite(),
            self.tip_ids().no_duplicates(),
            self.tip_times().dom() == self.tip_ids().to_set(),
            forall|i: int|
                0 <= i < self.tip_ids().len() ==> self.vertices().contains_key(
                    #[trigger] self.tip_ids()[i],
                ),
            forall|i: int, child: MessageId|
                0 <= i < self.tip_ids().len() ==> !#[trigger] names_parent(
                    self.vertices(),
                    child,
                    self.tip_ids()[i],
                ),
    {
        self.tips.lemma_wf();
        self.cache.lemma_consistent();
        self.solid_entry_points.lemma_view();
        assert forall|i: int, child: MessageId| 0 <= i < self.tip_ids().len() implies !#[trigger] names_parent(
            self.vertices(),
            child,
            self.tip_ids()[i],
        ) by {
            let tip = self.tip_ids()[i];
            assert(!self.tips.referenced().contains(tip));
            if names_parent(self.vertices(), child, tip) {
                assert(referenced_in(self.vertices()).contains(tip));
            }
        }
        assert forall|i: int| 0 <= i < self.tip_ids().len() implies self.vertices().contains_key(
            #[trigger] self.tip_ids()[i],
        ) by {
            let tip = self.tip_ids()[i];
            assert(self.tip_ids().contains(tip));
            assert(self.tips.tip_times().dom().contains(tip));
        }
    }

    /// Starts a Tangle over `storage`, which must be healthy and of the schema
    /// version [`STORAGE_VERSION`]. Every message of the store is known from the
    /// start; no message is a tip, and none is in memory.
    pub fn start(config: TangleConfig, storage: S) -> (r: Result<Tangle<S>, StartError>)
        requires
            storage.inv(),
        ensures
            storage.reliable() ==> !(r matches Err(StartError::Storage(_))),
            storage.reliable() ==> (r is Ok <==> storage.recorded_health() == StorageHealth::Idle
                && storage.schema_version() == STORAGE_VERSION),
            match r {
                Ok(tangle) => {
                    &&& tangle.wf()
                    &&& tangle.reliable() == storage.reliable()
                    &&& storage.recorded_health() == StorageHealth::Idle
                    &&& storage.schema_version() == STORAGE_VERSION
                    &&& tangle.vertices() == storage.records()
                    &&& tangle.cache().resident() == Map::<MessageId, RecordView>::empty()
                    &&& tangle.cache().pending() == Set::<MessageId>::empty()
                    &&& tangle.cache().capacity() == config.cache_capacity
                    &&& tangle.tip_ids() == Seq::<MessageId>::empty()
                    &&& tangle.tip_times() == Map::<MessageId, u64>::empty()
                    &&& tangle.solid_entry_points() == config.solid_entry_points@.to_set()
                    &&& tangle.staleness() == config.staleness
                    &&& tangle.interval() == config.cleaner_interval
                },
                Err(StartError::Corrupted) => storage.recorded_health() == StorageHealth::Corrupted,
                Err(StartError::IncompatibleVersion(found)) => {
                    &&& storage.recorded_health() == StorageHealth::Idle
                    &&& found == storage.schema_version()
                    &&& found != STORAGE_VERSION
                },
                Err(StartError::Storage(_)) => true,
            },
    {
        match storage.health() {
            Err(e) => {
                return Err(StartError::Storage(e));
            },
            Ok(StorageHealth::Corrupted) => {
                return Err(StartError::Corrupted);
            },
            Ok(StorageHealth::Idle) => {},
        }
        match storage.version() {
            Err(e) => {
                return Err(StartError::Storage(e));
            },
            Ok(found) => {
                if found != STORAGE_VERSION {
                    return Err(StartError::IncompatibleVersion(found));
                }
            },
        }
        let listing = match storage.iterate() {
            Err(e) => {
                return Err(StartError::Storage(e));
            },
            Ok(listing) => listing,
        };
        let ghost records = storage.records();
        let mut approvers: IdMap<Vec<MessageId>> = IdMap::new();
        let mut tips = TipPool::new();
        let mut i: usize = 0;
        proof {
            assert(Set::new(
                |p: MessageId| exists|c: MessageId| named_in(listing@, 0, c, p),
            ) =~= Set::<MessageId>::empty());
        }
        while i < listing.len()
            invariant
                i <= listing@.len(),
                approvers.wf(),
                tips.wf(),
                forall|p: MessageId, c: MessageId|
                    #![trigger approves(approvers@, p, c)]
                    approves(approvers@, p, c) <==> named_in(listing@, i as int, c, p),
                tips.referenced() == Set::new(
                    |p: MessageId| exists|c: MessageId| named_in(listing@, i as int, c, p),
                ),
                tips.tip_times() == Map::<MessageId, u64>::empty(),
            decreases listing@.len() - i,
        {
            let ghost indexed = approvers@;
            let ghost known = tips.referenced();
            let child = listing[i].0;
            let parents = listing[i].1.message.parents();
            link(&mut approvers, &mut tips, child, parents);
            proof {
                let upto: int = i + 1;
                assert forall|p: MessageId, c: MessageId|
                    named_in(listing@, upto, c, p) <==> named_in(listing@, i as int, c, p) || (c
                        == child && parents@.contains(p)) by {
                    if named_in(listing@, upto, c, p) {
                        let j = choose|j: int|
                            0 <= j < upto && j < listing@.len() && (#[trigger] listing@[j]).0 == c
                                && listing@[j].1@.message.parents.contains(p);
                        if j < i {
                            assert(named_in(listing@, i as int, c, p));
                        }
                    }
                    if c == child && parents@.contains(p) {
                        assert(listing@[i as int].0 == c);
                    }
                    if named_in(listing@, i as int, c, p) {
                        let j = choose|j: int|
                            0 <= j < i && j < listing@.len() && (#[trigger] listing@[j]).0 == c
                                && listing@[j].1@.message.parents.contains(p);
                        assert(listing@[j].0 == c);
                    }
                }
                assert forall|p: MessageId, c: MessageId|
                    #![trigger approves(approvers@, p, c)]
                    approves(approvers@, p, c) <==> named_in(listing@, upto, c, p) by {
                    assert(approves(approvers@, p, c) <==> approves(indexed, p, c) || (c == child
                        && parents@.contains(p)));
                    assert(approves(indexed, p, c) <==> named_in(listing@, i as int, c, p));
                }
                assert forall|p: MessageId|
                    tips.referenced().contains(p) <==> (exists|c: MessageId|
                        named_in(listing@, upto, c, p)) by {
                    if known.contains(p) {
                        let c = choose|c: MessageId| named_in(listing@, i as int, c, p);
                        assert(named_in(listing@, upto, c, p));
                    }
                    if parents@.to_set().contains(p) {
                        assert(named_in(listing@, upto, child, p));
                    }
                    if exists|c: MessageId| named_in(listing@, upto, c, p) {
                        let c = choose|c: MessageId| named_in(listing@, upto, c, p);
                        if named_in(listing@, i as int, c, p) {
                            assert(known.contains(p));
                        } else {
                            assert(parents@.to_set().contains(p));
                        }
                    }
                }
                assert(tips.referenced() =~= Set::new(
                    |p: MessageId| exists|c: MessageId| named_in(listing@, upto, c, p),
                ));
                assert(tips.tip_times() =~= Map::<MessageId, u64>::empty());
            }
            i += 1;
        }
        let mut solid_entry_points: IdMap<()> = IdMap::new();
        let mut k: usize = 0;
        while k < config.solid_entry_points.len()
            invariant
                k <= config.solid_entry_points@.len(),
                solid_entry_points.wf(),
                solid_entry_points@.dom() == config.solid_entry_points@.take(k as int).to_set(),
            decreases config.solid_entry_points@.len() - k,
        {
            solid_entry_points.insert(config.solid_entry_points[k], ());
            proof {
                let done = config.solid_entry_points@.take(k as int);
                let next = config.solid_entry_points@.take(k + 1);
                assert(next.drop_last() =~= done);
                assert(next.to_set() =~= done.to_set().insert(next.last()));
                assert(solid_entry_points@.dom() =~= next.to_set());
            }
            k += 1;
        }
        proof {
            assert(config.solid_entry_points@.take(k as int) =~= config.solid_entry_points@);
        }
        let cache = GraphCache::new(storage, config.cache_capacity);
        let tangle = Tangle {
            cache,
            tips,
            approvers,
            solid_entry_points,
            staleness: config.staleness,
            cleaner_interval: config.cleaner_interval,
        };
        proof {
            let vertices = tangle.cache.vertices();
            assert(vertices =~= records);
            assert forall|p: MessageId, c: MessageId|
                named_in(listing@, listing@.len() as int, c, p) <==> names_parent(
                    records,
                    c,
                    p,
                ) by {
                if named_in(listing@, listing@.len() as int, c, p) {
                    let j = choose|j: int|
                        0 <= j < listing@.len() && j < listing@.len() && (#[trigger] listing@[j]).0
                            == c && listing@[j].1@.message.parents.contains(p);
                    assert(records.contains_key(listing@[j].0));
                }
                if names_parent(records, c, p) {
                    let j = choose|j: int| 0 <= j < listing@.len() && (#[trigger] listing@[j]).0 == c;
                    assert(listing@[j].1@ == records[c]);
                }
            }
            assert forall|p: MessageId, c: MessageId|
                #![trigger approves(tangle.approvers@, p, c)]
                #![trigger names_parent(vertices, c, p)]
                approves(tangle.approvers@, p, c) <==> names_parent(vertices, c, p) by {
                assert(approves(tangle.approvers@, p, c) <==> named_in(
                    listing@,
                    listing@.len() as int,
                    c,
                    p,
                ));
            }
            assert forall|p: MessageId|
                tangle.tips.referenced().contains(p) <==> referenced_in(vertices).contains(
                    p,
                ) by {
                let all: int = listing@.len() as int;
                if tangle.tips.referenced().contains(p) {
                    let c = choose|c: MessageId| named_in(listing@, all, c, p);
                    assert(names_parent(vertices, c, p));
                }
                if referenced_in(vertices).contains(p) {
                    let c = choose|c: MessageId| names_parent(vertices, c, p);
                    assert(named_in(listing@, all, c, p));
                }
            }
            assert(tangle.tips.referenced() =~= referenced_in(vertices));
            tangle.tips.lemma_wf();
            assert(tangle.tips.tip_ids() =~= Seq::<MessageId>::empty());
        }
        Ok(tangle)
    }

    /// Stops the Tangle: writes every pending entry to the store and hands the
    /// store back. When every write succeeded, the store holds every known
    /// message with its present state.
    pub fn shutdown(self) -> (r: (S, Result<(), CacheError>))
        requires
            self.wf(),
        ensures
            self.reliable() ==> r.1 is Ok,
            r.0.reliable() == self.reliable(),
            r.0.inv(),
            r.1 is Ok ==> r.0.records() == self.vertices(),
            r.1 matches Err(e) ==> e is Unpersisted,
    {
        self.cache.into_storage()
    }

    /// The number of messages in memory. Messages that only the store holds are
    /// not counted.
    pub fn len(&self) -> (n: usize)
        requires
            self.wf(),
        ensures
            n == self.cache().resident().len(),
    {
        self.cache.len()
    }

    /// Whether `id` names a known message.
    pub fn contains(&self, id: &MessageId) -> (r: Result<bool, CacheError>)
        requires
            self.wf(),
        ensures
            self.reliable() ==> r is Ok,
            match r {
                Ok(known) => known == self.vertices().contains_key(*id),
                Err(e) => e is Unavailable && !self.cache().resident().contains_key(*id),
            },
    {
        self.cache.contains(id)
    }

    /// The time between two passes of the tip pool cleaner.
    pub fn cleaner_interval(&self) -> (interval: u64)
        ensures
            interval == self.interval(),
    {
        self.cleaner_interval
    }

    /// When a tip is stale.
    pub fn staleness_policy(&self) -> (policy: StalenessPolicy)
        ensures
            policy == self.staleness(),
    {
        self.staleness
    }

    /// Whether `id` is in memory.
    pub fn is_resident(&self, id: &MessageId) -> (b: bool)
        requires
            self.wf(),
        ensures
            b == self.cache().resident().contains_key(*id),
    {
        self.cache.is_resident(id)
    }

    /// Writes every pending entry to the store, and stops at the first that the
    /// store does not take. The messages and the tips stay as they are.
    pub fn flush(&mut self) -> (r: Result<(), CacheError>)
        requires
            old(self).wf(),
        ensures
            final(self).reliable() == old(self).reliable(),
            old(self).reliable() ==> r is Ok,
            final(self).wf(),
            final(self).vertices() == old(self).vertices(),
            final(self).tip_times() == old(self).tip_times(),
            final(self).tip_ids() == old(self).tip_ids(),
            final(self).solid_entry_points() == old(self).solid_entry_points(),
            final(self).staleness() == old(self).staleness(),
            final(self).cache().capacity() == old(self).cache().capacity(),
            final(self).cache().pending().subset_of(old(self).cache().pending()),
            trimmed(
                old(self).cache().resident(),
                old(self).cache().queue(),
                final(self).cache().pending(),
                final(self).cache().capacity(),
                final(self).cache().resident(),
                final(self).cache().queue(),
            ),
            match r {
                Ok(()) => final(self).cache().pending() == Set::<MessageId>::empty(),
                Err(e) => e is Unpersisted,
            },
    {
        self.cache.flush()
    }

    /// Whether `id` is a solid entry point.
    pub fn is_solid_entry_point(&self, id: &MessageId) -> (b: bool)
        requires
            self.wf(),
        ensures
            b == self.solid_entry_points().contains(*id),
    {
        self.solid_entry_points.contains(id)
    }

    /// What is known of `id`, from memory or from the store; memory is left as it
    /// is.
    pub fn peek(&self, id: &MessageId) -> (r: Result<Option<Record>, CacheError>)
        requires
            self.wf(),
        ensures
            self.reliable() ==> r is Ok,
            match r {
                Ok(found) => crate::storage::answers(found, self.vertices(), *id),
                Err(e) => e is Unavailable && !self.cache().resident().contains_key(*id),
            },
    {
        self.cache.peek(id)
    }

    /// The known messages that name `id` as a parent.
    pub fn children(&self, id: &MessageId) -> (r: Option<&Vec<MessageId>>)
        requires
            self.wf(),
        ensures
            match r {
                Some(list) => forall|child: MessageId|
                    list@.contains(child) <==> #[trigger] names_parent(
                        self.vertices(),
                        child,
                        *id,
                    ),
                None => forall|child: MessageId|
                    !#[trigger] names_parent(self.vertices(), child, *id),
            },
    {
        let r = self.approvers.get(id);
        proof {
            assert forall|child: MessageId|
                approves(self.approvers@, *id, child) <==> #[trigger] names_parent(
                    self.cache.vertices(),
                    child,
                    *id,
                ) by {}
        }
        r
    }

    /// Makes the index of approvers and the tip pool those of the graph with the
    /// message `id` in it, which was added at `now` and names `parents`.
    fn attach(&mut self, id: MessageId, parents: &Vec<MessageId>, now: u64)
        requires
            old(self).cache.wf(),
            old(self).cache.vertices().contains_key(id),
            old(self).cache.vertices()[id].message.parents == parents@,
            old(self).indexes(old(self).cache.vertices().remove(id)),
        ensures
            final(self).wf(),
            final(self).cache == old(self).cache,
            final(self).solid_entry_points == old(self).solid_entry_points,
            final(self).staleness == old(self).staleness,
            final(self).cleaner_interval == old(self).cleaner_interval,
            final(self).tips.tip_times() == tip_times_after(
                old(self).tips.tip_times(),
                old(self).cache.vertices().remove(id),
                parents@,
                id,
                now,
            ),
            final(self).tips.tip_ids() == tip_ids_after(
                old(self).tips.tip_ids(),
                old(self).cache.vertices().remove(id),
                parents@,
                id,
            ),
    {
        let ghost after = self.cache.vertices();
        let ghost before = after.remove(id);
        let ghost times = self.tips.tip_times();
        link(&mut self.approvers, &mut self.tips, id, parents);
        proof {
            lemma_referenced_after_insert(before, id, after[id]);
            assert(before.insert(id, after[id]) =~= after);
            self.tips.lemma_wf();
            assert(!self.tips.tip_times().contains_key(id)) by {
                if times.contains_key(id) {
                    assert(before.contains_key(id));
                }
            }
            assert(parents@.contains(id) <==> parents@.to_set().contains(id));
        }
        self.tips.insert_tip(id, now);
        proof {
            assert forall|p: MessageId, c: MessageId|
                #![trigger approves(self.approvers@, p, c)]
                #![trigger names_parent(after, c, p)]
                approves(self.approvers@, p, c) <==> names_parent(after, c, p) by {
                assert(approves(self.approvers@, p, c) <==> approves(old(self).approvers@, p, c)
                    || (c == id && parents@.contains(p)));
                assert(approves(old(self).approvers@, p, c) <==> names_parent(before, c, p));
            }
            assert forall|t: MessageId| #[trigger]
                self.tips.tip_times().contains_key(t) implies after.contains_key(t) by {
                if t != id {
                    assert(times.contains_key(t));
                    assert(before.contains_key(t));
                }
            }
        }
    }

    /// Adds a message under `id` unless one is known under it: the first writer
    /// wins.
    ///
    /// Returns `Ok(true)` when the message was added, and `Ok(false)` when `id`
    /// was known and nothing was changed. When the store cannot tell whether `id`
    /// is known, nothing is changed either. When the store does not take the new
    /// record, the message is added all the same and stays in memory, pending.
    /// With the message its parents stop being tips, and it becomes a tip as of
    /// `now` unless a known message names it as a parent already.
    pub fn insert(
        &mut self,
        id: MessageId,
        message: Message,
        metadata: MessageMetadata,
        now: u64,
    ) -> (r: Result<bool, CacheError>)
        requires
            old(self).wf(),
        ensures
            final(self).reliable() == old(self).reliable(),
            old(self).reliable() ==> r is Ok,
            final(self).wf(),
            final(self).solid_entry_points() == old(self).solid_entry_points(),
            final(self).staleness() == old(self).staleness(),
            final(self).cache().capacity() == old(self).cache().capacity(),
            old(self).cache().resident().contains_key(id) ==> r == Ok::<bool, CacheError>(false),
            r matches Ok(added) ==> added == !old(self).vertices().contains_key(id),
            r matches Err(CacheError::Unpersisted(_)) ==> !old(self).vertices().contains_key(id),
            !(r matches Err(CacheError::Unavailable(_))) ==> final(self).vertices() == inserted(
                old(self).vertices(),
                id,
                RecordView { message: message@, metadata },
            ),
            extends(old(self).vertices(), final(self).vertices()),
            if r == Ok::<bool, CacheError>(true) || r matches Err(CacheError::Unpersisted(_)) {
                let record = RecordView { message: message@, metadata };
                &&& final(self).vertices() == old(self).vertices().insert(id, record)
                &&& final(self).tip_times() == tip_times_after(
                    old(self).tip_times(),
                    old(self).vertices(),
                    message@.parents,
                    id,
                    now,
                )
                &&& final(self).tip_ids() == tip_ids_after(
                    old(self).tip_ids(),
                    old(self).vertices(),
                    message@.parents,
                    id,
                )
                &&& final(self).cache().pending() == if r is Ok {
                    old(self).cache().pending()
                } else {
                    old(self).cache().pending().insert(id)
                }
                &&& trimmed(
                    old(self).cache().resident().insert(id, record),
                    old(self).cache().queue().push(id),
                    final(self).cache().pending(),
                    final(self).cache().capacity(),
                    final(self).cache().resident(),
                    final(self).cache().queue(),
                )
            } else {
                &&& final(self).vertices() == old(self).vertices()
                &&& final(self).tip_times() == old(self).tip_times()
                &&& final(self).tip_ids() == old(self).tip_ids()
                &&& final(self).cache().resident() == old(self).cache().resident()
                &&& final(self).cache().queue() == old(self).cache().queue()
                &&& final(self).cache().pending() == old(self).cache().pending()
            },
    {
        let parents = copy_of(message.parents());
        let r = self.cache.insert(id, message, metadata);
        let linked = match r {
            Ok(added) => added,
            Err(CacheError::Unpersisted(_)) => true,
            Err(CacheError::Unavailable(_)) => false,
        };
        if linked {
            proof {
                assert(self.cache.vertices().remove(id) =~= old(self).cache.vertices());
            }
            self.attach(id, &parents, now);
        }
        r
    }

    /// The message known under `id`, from memory or from the store. What was
    /// inserted under `id` is what is returned, wherever it is held.
    pub fn get(&mut self, id: &MessageId) -> (r: Result<Option<Message>, CacheError>)
        requires
            old(self).wf(),
        ensures
            final(self).reliable() == old(self).reliable(),
            old(self).reliable() ==> r is Ok,
            final(self).wf(),
            final(self).vertices() == old(self).vertices(),
            final(self).tip_times() == old(self).tip_times(),
            final(self).tip_ids() == old(self).tip_ids(),
            final(self).solid_entry_points() == old(self).solid_entry_points(),
            final(self).staleness() == old(self).staleness(),
            final(self).cache().capacity() == old(self).cache().capacity(),
            final(self).cache().pending() == old(self).cache().pending(),
            old(self).cache().resident().contains_key(*id) ==> r is Ok,
            match r {
                Ok(found) => {
                    &&& match found {
                        Some(message) => old(self).vertices().contains_key(*id) && message@
                            == old(self).vertices()[*id].message,
                        None => !old(self).vertices().contains_key(*id),
                    }
                    &&& trimmed(
                        brought_in(old(self).cache().resident(), old(self).vertices(), *id),
                        brought_in_queue(
                            old(self).cache().queue(),
                            old(self).cache().resident(),
                            old(self).vertices(),
                            *id,
                        ),
                        final(self).cache().pending(),
                        final(self).cache().capacity(),
                        final(self).cache().resident(),
                        final(self).cache().queue(),
                    )
                },
                Err(e) => {
                    &&& e is Unavailable
                    &&& final(self).cache().resident() == old(self).cache().resident()
                    &&& final(self).cache().queue() == old(self).cache().queue()
                },
            },
    {
        self.cache.get(id)
    }

    /// The state kept about the message known under `id`.
    pub fn get_metadata(&mut self, id: &MessageId) -> (r: Result<
        Option<MessageMetadata>,
        CacheError,
    >)
        requires
            old(self).wf(),
        ensures
            final(self).reliable() == old(self).reliable(),
            old(self).reliable() ==> r is Ok,
            final(self).wf(),
            final(self).vertices() == old(self).vertices(),
            final(self).tip_times() == old(self).tip_times(),
            final(self).tip_ids() == old(self).tip_ids(),
            final(self).solid_entry_points() == old(self).solid_entry_points(),
            final(self).staleness() == old(self).staleness(),
            final(self).cache().capacity() == old(self).cache().capacity(),
            final(self).cache().pending() == old(self).cache().pending(),
            old(self).cache().resident().contains_key(*id) ==> r is Ok,
            match r {
                Ok(found) => {
                    &&& match found {
                        Some(metadata) => old(self).vertices().contains_key(*id) && metadata
                            == old(self).vertices()[*id].metadata,
                        None => !old(self).vertices().contains_key(*id),
                    }
                    &&& trimmed(
                        brought_in(old(self).cache().resident(), old(self).vertices(), *id),
                        brought_in_queue(
                            old(self).cache().queue(),
                            old(self).cache().resident(),
                            old(self).vertices(),
                            *id,
                        ),
                        final(self).cache().pending(),
                        final(self).cache().capacity(),
                        final(self).cache().resident(),
                        final(self).cache().queue(),
                    )
                },
                Err(e) => {
                    &&& e is Unavailable
                    &&& final(self).cache().resident() == old(self).cache().resident()
                    &&& final(self).cache().queue() == old(self).cache().queue()
                },
            },
    {
        self.cache.get_metadata(id)
    }

    /// Changes the state kept about `id` by `update`, which is given the present
    /// state and returns the proposed one.
    ///
    /// A settled timestamp and a concrete conflict reason of the present state
    /// stay whatever is proposed; the rest of the proposal is taken over. Returns
    /// the state that stands, or `None` when `id` is unknown. When the store does
    /// not take the new state, it stands in memory all the same, pending. The
    /// messages and the tips stay as they are.
    pub fn update_metadata<F: FnOnce(MessageMetadata) -> MessageMetadata>(
        &mut self,
        id: &MessageId,
        update: F,
    ) -> (r: Result<Option<MessageMetadata>, CacheError>)
        requires
            old(self).wf(),
            old(self).vertices().contains_key(*id) ==> call_requires(
                update,
                (old(self).vertices()[*id].metadata,),
            ),
        ensures
            final(self).reliable() == old(self).reliable(),
            old(self).reliable() ==> r is Ok,
            final(self).wf(),
            final(self).tip_times() == old(self).tip_times(),
            final(self).tip_ids() == old(self).tip_ids(),
            final(self).solid_entry_points() == old(self).solid_entry_points(),
            final(self).staleness() == old(self).staleness(),
            final(self).cache().capacity() == old(self).cache().capacity(),
            final(self).vertices().dom() == old(self).vertices().dom(),
            extends(old(self).vertices(), final(self).vertices()),
            forall|other: MessageId|
                other != *id && old(self).vertices().contains_key(other) ==> #[trigger] final(self).vertices()[other] == old(self).vertices()[other],
            old(self).vertices().contains_key(*id) ==> final(self).vertices()[*id].message == old(self).vertices()[*id].message && preserves_settled(
                old(self).vertices()[*id].metadata,
                final(self).vertices()[*id].metadata,
            ),
            match r {
                Ok(None) => {
                    &&& !old(self).vertices().contains_key(*id)
                    &&& final(self).vertices() == old(self).vertices()
                    &&& final(self).cache().resident() == old(self).cache().resident()
                    &&& final(self).cache().queue() == old(self).cache().queue()
                    &&& final(self).cache().pending() == old(self).cache().pending()
                },
                Ok(Some(metadata)) => {
                    &&& old(self).vertices().contains_key(*id)
                    &&& exists|proposed: MessageMetadata|
                        #[trigger] call_ensures(
                            update,
                            (old(self).vertices()[*id].metadata,),
                            proposed,
                        ) && metadata == accepted(old(self).vertices()[*id].metadata, proposed)
                    &&& final(self).vertices() == old(self).vertices().insert(
                        *id,
                        with_metadata(old(self).vertices()[*id], metadata),
                    )
                    &&& final(self).cache().pending() == old(self).cache().pending().remove(*id)
                    &&& trimmed(
                        old(self).cache().resident().insert(
                            *id,
                            with_metadata(old(self).vertices()[*id], metadata),
                        ),
                        brought_in_queue(
                            old(self).cache().queue(),
                            old(self).cache().resident(),
                            old(self).vertices(),
                            *id,
                        ),
                        final(self).cache().pending(),
                        final(self).cache().capacity(),
                        final(self).cache().resident(),
                        final(self).cache().queue(),
                    )
                },
                Err(CacheError::Unavailable(_)) => {
                    &&& !old(self).cache().resident().contains_key(*id)
                    &&& final(self).vertices() == old(self).vertices()
                    &&& final(self).cache().resident() == old(self).cache().resident()
                    &&& final(self).cache().queue() == old(self).cache().queue()
                    &&& final(self).cache().pending() == old(self).cache().pending()
                },
                Err(CacheError::Unpersisted(_)) => {
                    &&& old(self).vertices().contains_key(*id)
                    &&& exists|proposed: MessageMetadata|
                        #[trigger] call_ensures(
                            update,
                            (old(self).vertices()[*id].metadata,),
                            proposed,
                        ) && final(self).vertices() == old(self).vertices().insert(
                            *id,
                            updated(old(self).vertices()[*id], proposed),
                        ) && trimmed(
                            old(self).cache().resident().insert(
                                *id,
                                updated(old(self).vertices()[*id], proposed),
                            ),
                            brought_in_queue(
                                old(self).cache().queue(),
                                old(self).cache().resident(),
                                old(self).vertices(),
                                *id,
                            ),
                            final(self).cache().pending(),
                            final(self).cache().capacity(),
                            final(self).cache().resident(),
                            final(self).cache().queue(),
                        )
                    &&& final(self).cache().pending() == old(self).cache().pending().insert(*id)
                },
            },
    {
        let ghost before = self.cache.vertices();
        let r = self.cache.update_metadata(id, update);
        proof {
            let after = self.cache.vertices();
            match r {
                Ok(Some(metadata)) => {
                    lemma_referenced_ignores_metadata(before, *id, metadata);
                },
                Err(CacheError::Unpersisted(_)) => {
                    let proposed = choose|proposed: MessageMetadata|
                        #[trigger] call_ensures(update, (before[*id].metadata,), proposed) && after
                            == before.insert(*id, updated(before[*id], proposed));
                    lemma_referenced_ignores_metadata(
                        before,
                        *id,
                        accepted(before[*id].metadata, proposed),
                    );
                },
                _ => {},
            }
            assert forall|parent: MessageId, child: MessageId|
                #![trigger approves(self.approvers@, parent, child)]
                #![trigger names_parent(after, child, parent)]
                approves(self.approvers@, parent, child) <==> names_parent(
                    after,
                    child,
                    parent,
                ) by {
                assert(approves(self.approvers@, parent, child) <==> names_parent(
                    before,
                    child,
                    parent,
                ));
            }
            assert(after.dom() =~= before.dom());
        }
        r
    }

    /// The tips at present, in the order in which they became tips.
    pub fn tips(&self) -> (ids: Vec<MessageId>)
        requires
            self.wf(),
        ensures
            ids@ == self.tip_ids(),
    {
        self.tips.tips()
    }

    /// Chooses up to `count` tips by the numbers `picks`, none twice; fewer if
    /// there are fewer tips, none if there are none.
    pub fn select_tips_from(&self, count: usize, picks: &Vec<u64>) -> (chosen: Vec<MessageId>)
        requires
            self.wf(),
        ensures
            chosen@ == selection(self.tip_ids(), count as nat, picks@),
    {
        self.tips.select_tips_from(count, picks)
    }

    /// Chooses up to `count` tips at random, none twice; fewer if there are fewer
    /// tips, none if there are none.
    pub fn select_tips(&self, count: usize) -> (chosen: Vec<MessageId>)
        requires
            self.wf(),
        ensures
            exists|picks: Seq<u64>| chosen@ == #[trigger] selection(
                self.tip_ids(),
                count as nat,
                picks,
            ),
            chosen@.len() == if count <= self.tip_ids().len() {
                count as nat
            } else {
                self.tip_ids().len()
            },
            chosen@.no_duplicates(),
            forall|i: int| 0 <= i < chosen@.len() ==> self.tip_ids().contains(#[trigger] chosen@[i]),
    {
        let chosen = self.tips.select_tips(count);
        proof {
            let picks = choose|picks: Seq<u64>|
                chosen@ == #[trigger] selection(self.tips.tip_ids(), count as nat, picks);
            assert(chosen@ == selection(self.tip_ids(), count as nat, picks));
        }
        chosen
    }

    /// One pass of the tip pool cleaner at `now`: takes the stale tips out of the
    /// pool and returns them. The messages stay as they are, in memory and in the
    /// store.
    pub fn clean_tips(&mut self, now: u64) -> (removed: Vec<MessageId>)
        requires
            old(self).wf(),
        ensures
            final(self).reliable() == old(self).reliable(),
            final(self).wf(),
            final(self).cache() == old(self).cache(),
            final(self).vertices() == old(self).vertices(),
            final(self).solid_entry_points() == old(self).solid_entry_points(),
            final(self).staleness() == old(self).staleness(),
            final(self).tip_ids() == kept(
                old(self).tip_ids(),
                old(self).tip_times(),
                now,
                old(self).staleness(),
            ),
            removed@ == dropped(
                old(self).tip_ids(),
                old(self).tip_times(),
                now,
                old(self).staleness(),
            ),
            final(self).tip_times() == old(self).tip_times().restrict(
                final(self).tip_ids().to_set(),
            ),
    {
        self.tips.remove_stale(now, self.staleness)
    }
}

/// A copy of `ids`.
pub(crate) fn copy_of(ids: &Vec<MessageId>) -> (copy: Vec<MessageId>)
    ensures
        copy@ == ids@,
{
    let mut copy: Vec<MessageId> = Vec::new();
    let mut i: usize = 0;
    while i < ids.len()
        invariant
            i <= ids@.len(),
            copy@ == ids@.take(i as int),
        decreases ids@.len() - i,
    {
        copy.push(ids[i]);
        i += 1;
        assert(copy@ =~= ids@.take(i as int));
    }
    assert(copy@ =~= ids@);
    copy
}

impl Tangle<MemoryStorage> {
    /// Makes every later read of the store fail, or succeed again.
    pub fn fail_reads(&mut self, failing: bool)
        requires
            old(self).wf(),
        ensures
            final(self).wf(),
            final(self).vertices() == old(self).vertices(),
            final(self).tip_times() == old(self).tip_times(),
            final(self).tip_ids() == old(self).tip_ids(),
            final(self).solid_entry_points() == old(self).solid_entry_points(),
            final(self).staleness() == old(self).staleness(),
            final(self).cache().resident() == old(self).cache().resident(),
            final(self).cache().queue() == old(self).cache().queue(),
            final(self).cache().pending() == old(self).cache().pending(),
            final(self).cache().storage().reads_fail() == failing,
            final(self).cache().storage().writes_fail() == old(self).cache().storage().writes_fail(),
            final(self).reliable() == (!failing && !old(self).cache().storage().writes_fail()),
    {
        self.cache.fail_reads(failing);
    }

    /// Makes every later write to the store fail, or succeed again.
    pub fn fail_writes(&mut self, failing: bool)
        requires
            old(self).wf(),
        ensures
            final(self).wf(),
            final(self).vertices() == old(self).vertices(),
            final(self).tip_times() == old(self).tip_times(),
            final(self).tip_ids() == old(self).tip_ids(),
            final(self).solid_entry_points() == old(self).solid_entry_points(),
            final(self).staleness() == old(self).staleness(),
            final(self).cache().resident() == old(self).cache().resident(),
            final(self).cache().queue() == old(self).cache().queue(),
            final(self).cache().pending() == old(self).cache().pending(),
            final(self).cache().storage().writes_fail() == failing,
            final(self).cache().storage().reads_fail() == old(self).cache().storage().reads_fail(),
            final(self).reliable() == (!failing && !old(self).cache().storage().reads_fail()),
    {
        self.cache.fail_writes(failing);
    }
}

} // verus!
