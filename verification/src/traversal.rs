//! Walks over the graph: from a message to its ancestors or to its descendants.

use crate::cache::CacheError;
use crate::id_map::IdMap;
use crate::message::MessageId;
use crate::metadata::MessageMetadata;
use crate::storage::{Record, RecordView, StorageBackend};
use crate::tangle::{copy_of, names_parent, referenced_in, Tangle};
use vstd::prelude::*;

verus! {

/// The way in which a walk goes along the edges of the graph.
#[derive(Clone, Copy, Debug, PartialEq, Eq, Structural)]
pub enum Direction {
    /// From a message to its parents.
    Ancestors,
    /// From a message to the messages that name it as a parent.
    Descendants,
}

/// What a walk goes over: the known messages, the solid entry points, and the
/// direction.
pub struct Terrain {
    /// Every known message with its state.
    pub vertices: Map<MessageId, RecordView>,
    /// The solid entry points.
    pub boundary: Set<MessageId>,
    /// The direction of the walk.
    pub direction: Direction,
}

/// Whether a walk may step from `from` to `to`.
pub open spec fn edge(terrain: Terrain, from: MessageId, to: MessageId) -> bool {
    match terrain.direction {
        Direction::Ancestors => names_parent(terrain.vertices, from, to),
        Direction::Descendants => names_parent(terrain.vertices, to, from),
    }
}

/// Whether a walk may come to `id`: it is a known message, and a walk to the
/// ancestors does not come to a solid entry point.
pub open spec fn visitable(terrain: Terrain, id: MessageId) -> bool {
    terrain.vertices.contains_key(id) && !(terrain.direction == Direction::Ancestors
        && terrain.boundary.contains(id))
}

/// Whether the test `should_continue` lets a walk go on from `id` in the state
/// `metadata`.
pub open spec fn continues<F: Fn(MessageId, MessageMetadata) -> bool>(
    should_continue: F,
    id: MessageId,
    metadata: MessageMetadata,
) -> bool {
    call_ensures(should_continue, (id, metadata), true)
}

/// Whether `should_continue` can be asked of every message, and answers the same
/// whenever it is asked the same.
pub open spec fn decides<F: Fn(MessageId, MessageMetadata) -> bool>(should_continue: F) -> bool {
    &&& forall|id: MessageId, metadata: MessageMetadata| #[trigger]
        call_requires(should_continue, (id, metadata))
    &&& forall|id: MessageId, metadata: MessageMetadata|
        !(#[trigger] call_ensures(should_continue, (id, metadata), true) && call_ensures(
            should_continue,
            (id, metadata),
            false,
        ))
}

/// Whether a walk that comes to `id` goes on from it.
pub open spec fn expands<F: Fn(MessageId, MessageMetadata) -> bool>(
    terrain: Terrain,
    should_continue: F,
    id: MessageId,
) -> bool {
    visitable(terrain, id) && continues(should_continue, id, terrain.vertices[id].metadata)
}

/// Whether `route` leads a walk from `start` along edges, over messages that it
/// may come to, and on only from messages that it goes on from.
pub open spec fn is_route<F: Fn(MessageId, MessageMetadata) -> bool>(
    terrain: Terrain,
    should_continue: F,
    start: MessageId,
    route: Seq<MessageId>,
) -> bool {
    &&& route.len() > 0
    &&& route[0] == start
    &&& forall|i: int| 0 <= i < route.len() ==> visitable(terrain, #[trigger] route[i])
    &&& forall|i: int|
        0 <= i < route.len() - 1 ==> expands(terrain, should_continue, #[trigger] route[i])
            && edge(terrain, route[i], route[i + 1])
}

/// Whether a walk from `start` comes to `id`.
pub open spec fn reachable<F: Fn(MessageId, MessageMetadata) -> bool>(
    terrain: Terrain,
    should_continue: F,
    start: MessageId,
    id: MessageId,
) -> bool {
    exists|route: Seq<MessageId>| #[trigger]
        is_route(terrain, should_continue, start, route) && route.last() == id
}

/// The identifiers of what a walk found, in its order.
pub open spec fn ids_of(found: Seq<(MessageId, Record)>) -> Seq<MessageId> {
    found.map_values(|item: (MessageId, Record)| item.0)
}

/// A walk that has come to `from` and goes on from it comes to what lies one
/// step further.
pub proof fn lemma_reachable_step<F: Fn(MessageId, MessageMetadata) -> bool>(
    terrain: Terrain,
    should_continue: F,
    start: MessageId,
    from: MessageId,
    to: MessageId,
)
    requires
        reachable(terrain, should_continue, start, from),
        expands(terrain, should_continue, from),
        edge(terrain, from, to),
        visitable(terrain, to),
    ensures
        reachable(terrain, should_continue, start, to),
{
    let route = choose|route: Seq<MessageId>| #[trigger]
        is_route(terrain, should_continue, start, route) && route.last() == from;
    let longer = route.push(to);
    assert forall|i: int| 0 <= i < longer.len() implies visitable(
        terrain,
        #[trigger] longer[i],
    ) by {
        if i < route.len() {
            assert(longer[i] == route[i]);
        }
    }
    assert forall|i: int| 0 <= i < longer.len() - 1 implies expands(
        terrain,
        should_continue,
        #[trigger] longer[i],
    ) && edge(terrain, longer[i], longer[i + 1]) by {
        assert(longer[i] == route[i]);
        if i < route.len() - 1 {
            assert(longer[i + 1] == route[i + 1]);
        }
    }
    assert(is_route(terrain, should_continue, start, longer));
    assert(longer.last() == to);
}

/// A walk is at its start to begin with.
pub proof fn lemma_reachable_start<F: Fn(MessageId, MessageMetadata) -> bool>(
    terrain: Terrain,
    should_continue: F,
    start: MessageId,
)
    requires
        visitable(terrain, start),
    ensures
        reachable(terrain, should_continue, start, start),
{
    let route = seq![start];
    assert(is_route(terrain, should_continue, start, route));
    assert(route.last() == start);
}

/// Once a search from `start` has seen every message to which a step leads from
/// a message that it found and goes on from, it has found every message that a
/// walk comes to.
pub proof fn lemma_search_complete<F: Fn(MessageId, MessageMetadata) -> bool>(
    terrain: Terrain,
    should_continue: F,
    start: MessageId,
    found: Seq<MessageId>,
    seen: Set<MessageId>,
    route: Seq<MessageId>,
)
    requires
        is_route(terrain, should_continue, start, route),
        seen.contains(start),
        forall|id: MessageId| #[trigger]
            seen.contains(id) && visitable(terrain, id) ==> found.contains(id),
        forall|i: int, to: MessageId|
            0 <= i < found.len() && expands(terrain, should_continue, #[trigger] found[i])
                && #[trigger] edge(terrain, found[i], to) ==> seen.contains(to),
    ensures
        found.contains(route.last()),
    decreases route.len(),
{
    if route.len() == 1 {
        assert(visitable(terrain, route[0]));
    } else {
        let shorter = route.drop_last();
        assert forall|i: int| 0 <= i < shorter.len() implies visitable(
            terrain,
            #[trigger] shorter[i],
        ) by {
            assert(shorter[i] == route[i]);
        }
        assert forall|i: int| 0 <= i < shorter.len() - 1 implies expands(
            terrain,
            should_continue,
            #[trigger] shorter[i],
        ) && edge(terrain, shorter[i], shorter[i + 1]) by {
            assert(shorter[i] == route[i]);
            assert(shorter[i + 1] == route[i + 1]);
        }
        assert(is_route(terrain, should_continue, start, shorter));
        lemma_search_complete(terrain, should_continue, start, found, seen, shorter);
        let from = shorter.last();
        let k = route.len() - 2;
        assert(route[k] == from);
        assert(expands(terrain, should_continue, route[k]) && edge(
            terrain,
            route[k],
            route[k + 1],
        ));
        let i = choose|i: int| 0 <= i < found.len() && found[i] == from;
        assert(edge(terrain, found[i], route.last()));
        assert(seen.contains(route.last()));
        assert(visitable(terrain, route[route.len() - 1]));
    }
}

/// Whether the `i`-th of `ids` is the first of them from which a walk steps to
/// the `j`-th, and comes before it.
pub open spec fn found_from<F: Fn(MessageId, MessageMetadata) -> bool>(
    terrain: Terrain,
    should_continue: F,
    ids: Seq<MessageId>,
    j: int,
    i: int,
) -> bool {
    &&& 0 <= i < j < ids.len()
    &&& expands(terrain, should_continue, ids[i])
    &&& edge(terrain, ids[i], ids[j])
    &&& forall|k: int|
        0 <= k < i ==> !(expands(terrain, should_continue, #[trigger] ids[k]) && edge(
            terrain,
            ids[k],
            ids[j],
        ))
}

/// Whether a walk steps to the `j`-th of `ids` from one before it.
pub open spec fn stepped_to<F: Fn(MessageId, MessageMetadata) -> bool>(
    terrain: Terrain,
    should_continue: F,
    ids: Seq<MessageId>,
    j: int,
) -> bool {
    exists|i: int| #[trigger] found_from(terrain, should_continue, ids, j, i)
}

/// What holds of a search from `start` that has seen `seen`, found `found`, each
/// from the one at its place in `origin`, and looked at the steps from the first
/// `done` of `found`.
spec fn searching<F: Fn(MessageId, MessageMetadata) -> bool>(
    terrain: Terrain,
    should_continue: F,
    start: MessageId,
    seen: Set<MessageId>,
    found: Seq<(MessageId, Record)>,
    origin: Seq<int>,
    done: int,
) -> bool {
    let ids = ids_of(found);
    &&& 0 <= done <= found.len()
    &&& origin.len() == found.len()
    &&& forall|j: int|
        0 < j < ids.len() ==> #[trigger] origin[j] <= done && found_from(
            terrain,
            should_continue,
            ids,
            j,
            origin[j],
        )
    &&& forall|j1: int, j2: int|
        0 < j1 < j2 < ids.len() ==> #[trigger] origin[j1] <= #[trigger] origin[j2]
    &&& ids.no_duplicates()
    &&& seen.contains(start)
    &&& seen.finite()
    &&& seen.subset_of(universe(terrain, start))
    &&& forall|i: int|
        0 <= i < ids.len() ==> {
            &&& seen.contains(#[trigger] ids[i])
            &&& visitable(terrain, ids[i])
            &&& found[i].1@ == terrain.vertices[ids[i]]
            &&& reachable(terrain, should_continue, start, ids[i])
        }
    &&& forall|id: MessageId| #[trigger]
        seen.contains(id) && visitable(terrain, id) ==> ids.contains(id)
    &&& forall|i: int, to: MessageId|
        0 <= i < done && expands(terrain, should_continue, #[trigger] ids[i]) && #[trigger] edge(
            terrain,
            ids[i],
            to,
        ) ==> seen.contains(to)
    &&& ids.len() > 0 ==> ids[0] == start
}

/// Whether `found` is what a walk from `start` finds, breadth first: every
/// message that the walk comes to, once, with its record; `start` first, and the
/// others in the order of the messages from which they were first stepped to.
pub open spec fn walk_finds<F: Fn(MessageId, MessageMetadata) -> bool>(
    terrain: Terrain,
    should_continue: F,
    start: MessageId,
    found: Seq<(MessageId, Record)>,
) -> bool {
    let ids = ids_of(found);
    &&& ids.no_duplicates()
    &&& forall|i: int|
        0 <= i < ids.len() ==> reachable(terrain, should_continue, start, #[trigger] ids[i])
            && found[i].1@ == terrain.vertices[ids[i]]
    &&& forall|id: MessageId| #[trigger]
        reachable(terrain, should_continue, start, id) ==> ids.contains(id)
    &&& ids.len() > 0 ==> ids[0] == start
    &&& forall|j: int|
        0 < j < ids.len() ==> #[trigger] stepped_to(terrain, should_continue, ids, j)
    &&& forall|j1: int, j2: int, i1: int, i2: int|
        j1 < j2 && #[trigger] found_from(terrain, should_continue, ids, j1, i1)
            && #[trigger] found_from(terrain, should_continue, ids, j2, i2) ==> i1 <= i2
}

/// Two walks over the same graph from the same start with the same test find the
/// same messages, each once, and none of them is a solid entry point if they go
/// to the ancestors.
pub proof fn lemma_walks_agree<F: Fn(MessageId, MessageMetadata) -> bool>(
    terrain: Terrain,
    should_continue: F,
    start: MessageId,
    first: Seq<(MessageId, Record)>,
    second: Seq<(MessageId, Record)>,
)
    requires
        walk_finds(terrain, should_continue, start, first),
        walk_finds(terrain, should_continue, start, second),
    ensures
        ids_of(first).to_set() == ids_of(second).to_set(),
        first.len() == second.len(),
        forall|i: int|
            0 <= i < first.len() ==> ids_of(second).contains(#[trigger] ids_of(first)[i]),
        forall|i: int|
            0 <= i < first.len() && terrain.direction == Direction::Ancestors
                ==> !terrain.boundary.contains(#[trigger] ids_of(first)[i]),
{
    let a = ids_of(first);
    let b = ids_of(second);
    assert forall|id: MessageId| a.to_set().contains(id) <==> b.to_set().contains(id) by {
        if a.contains(id) {
            let i = choose|i: int| 0 <= i < a.len() && a[i] == id;
            assert(reachable(terrain, should_continue, start, a[i]));
        }
        if b.contains(id) {
            let i = choose|i: int| 0 <= i < b.len() && b[i] == id;
            assert(reachable(terrain, should_continue, start, b[i]));
        }
    }
    assert(a.to_set() =~= b.to_set());
    a.unique_seq_to_set();
    b.unique_seq_to_set();
    assert forall|i: int| 0 <= i < first.len() implies b.contains(#[trigger] a[i]) by {
        assert(reachable(terrain, should_continue, start, a[i]));
    }
    assert forall|i: int|
        0 <= i < first.len() && terrain.direction == Direction::Ancestors
            implies !terrain.boundary.contains(#[trigger] a[i]) by {
        assert(reachable(terrain, should_continue, start, a[i]));
        let route = choose|route: Seq<MessageId>| #[trigger]
            is_route(terrain, should_continue, start, route) && route.last() == a[i];
        assert(visitable(terrain, route[route.len() - 1]));
    }
}

/// Every message that a search from `start` can see.
spec fn universe(terrain: Terrain, start: MessageId) -> Set<MessageId> {
    terrain.vertices.dom().union(referenced_in(terrain.vertices)).insert(start)
}

impl<S: StorageBackend> Tangle<S> {
    /// What a walk in `direction` goes over.
    pub open spec fn terrain(&self, direction: Direction) -> Terrain {
        Terrain { vertices: self.vertices(), boundary: self.solid_entry_points(), direction }
    }

    /// Marks `id` as seen, and adds it to `found` with its record if it was not
    /// seen before and a walk may come to it.
    fn discover(
        &self,
        id: MessageId,
        direction: Direction,
        seen: &mut IdMap<()>,
        found: &mut Vec<(MessageId, Record)>,
    ) -> (r: Result<(), CacheError>)
        requires
            self.wf(),
            old(seen).wf(),
        ensures
            self.reliable() ==> r is Ok,
            final(seen).wf(),
            match r {
                Ok(()) => {
                    &&& final(seen)@.dom() == old(seen)@.dom().insert(id)
                    &&& if !old(seen)@.contains_key(id) && visitable(self.terrain(direction), id) {
                        &&& final(found)@.len() == old(found)@.len() + 1
                        &&& final(found)@.drop_last() == old(found)@
                        &&& final(found)@.last().0 == id
                        &&& final(found)@.last().1@ == self.vertices()[id]
                    } else {
                        final(found)@ == old(found)@
                    }
                },
                Err(e) => e is Unavailable,
            },
    {
        if seen.contains(&id) {
            assert(seen@.dom().insert(id) =~= seen@.dom());
            return Ok(());
        }
        seen.insert(id, ());
        assert(seen@.dom() =~= old(seen)@.dom().insert(id));
        let at_boundary = match direction {
            Direction::Ancestors => self.is_solid_entry_point(&id),
            Direction::Descendants => false,
        };
        if at_boundary {
            return Ok(());
        }
        match self.peek(&id) {
            Err(e) => Err(e),
            Ok(None) => Ok(()),
            Ok(Some(record)) => {
                found.push((id, record));
                assert(found@.drop_last() =~= old(found)@);
                Ok(())
            },
        }
    }

    /// Walks over the graph from `start`, breadth first: to the ancestors or to the
    /// descendants, as `direction` says.
    ///
    /// The walk goes on from a message only if `should_continue` says so of it; the
    /// message itself is found either way. A walk to the ancestors does not come to
    /// a solid entry point. Every message that the walk comes to is found, once,
    /// with its record, and each but `start` after one from which a step leads to
    /// it. The walk ends at the first failure of the store.
    pub fn walk<F: Fn(MessageId, MessageMetadata) -> bool>(
        &self,
        start: MessageId,
        direction: Direction,
        should_continue: F,
    ) -> (r: Result<Vec<(MessageId, Record)>, CacheError>)
        requires
            self.wf(),
            decides(should_continue),
        ensures
            self.reliable() ==> r is Ok,
            match r {
                Ok(found) => walk_finds(self.terrain(direction), should_continue, start, found@),
                Err(e) => e is Unavailable,
            },
    {
        let ghost terrain = self.terrain(direction);
        let ghost all = universe(terrain, start);
        proof {
            self.lemma_tips_are_unreferenced();
            assert(all.finite());
        }
        let mut seen: IdMap<()> = IdMap::new();
        let mut found: Vec<(MessageId, Record)> = Vec::new();
        match self.discover(start, direction, &mut seen, &mut found) {
            Err(e) => {
                return Err(e);
            },
            Ok(()) => {},
        }
        proof {
            seen.lemma_view();
            let ids = ids_of(found@);
            assert(seen@.dom() =~= Set::<MessageId>::empty().insert(start));
            if found@.len() == 1 {
                lemma_reachable_start(terrain, should_continue, start);
                assert(ids[0] == start);
            }
            assert forall|id: MessageId| #[trigger]
                seen@.dom().contains(id) && visitable(terrain, id) implies ids.contains(id) by {
                assert(ids[0] == id);
            }
        }
        let ghost mut origin: Seq<int> = Seq::new(found@.len(), |j: int| 0int);
        let mut head: usize = 0;
        while head < found.len()
            invariant
                self.wf(),
                seen.wf(),
                decides(should_continue),
                terrain == self.terrain(direction),
                all == universe(terrain, start),
                all.finite(),
                searching(
                    terrain,
                    should_continue,
                    start,
                    seen@.dom(),
                    found@,
                    origin,
                    head as int,
                ),
            decreases 2 * (all.len() - seen@.dom().len()) + found@.len() - head,
        {
            let ghost measure = 2 * (all.len() - seen@.dom().len()) + found@.len() - head;
            let id = found[head].0;
            let metadata = found[head].1.metadata;
            let ghost ids_before = ids_of(found@);
            assert(ids_before[head as int] == id);
            let go_on = should_continue(id, metadata);
            assert(go_on == expands(terrain, should_continue, id));
            proof {
                vstd::set_lib::lemma_len_subset(seen@.dom(), all);
            }
            if go_on {
                let next: Vec<MessageId> = match direction {
                    Direction::Ancestors => copy_of(found[head].1.message.parents()),
                    Direction::Descendants => match self.children(&id) {
                        Some(list) => copy_of(list),
                        None => Vec::new(),
                    },
                };
                assert forall|to: MessageId| #[trigger]
                    edge(terrain, id, to) implies next@.contains(to) by {}
                assert forall|k: int| 0 <= k < next@.len() implies edge(
                    terrain,
                    id,
                    #[trigger] next@[k],
                ) by {
                    assert(next@.contains(next@[k]));
                }
                let ghost budget = 2 * (all.len() - seen@.dom().len()) + found@.len();
                let mut k: usize = 0;
                while k < next.len()
                    invariant
                        self.wf(),
                        seen.wf(),
                        decides(should_continue),
                        terrain == self.terrain(direction),
                        all == universe(terrain, start),
                        all.finite(),
                        head < found@.len(),
                        k <= next@.len(),
                        ids_of(found@)[head as int] == id,
                        expands(terrain, should_continue, id),
                        forall|j: int| 0 <= j < next@.len() ==> edge(terrain, id, #[trigger] next@[j]),
                        forall|j: int| 0 <= j < k ==> seen@.dom().contains(#[trigger] next@[j]),
                        searching(
                            terrain,
                            should_continue,
                            start,
                            seen@.dom(),
                            found@,
                            origin,
                            head as int,
                        ),
                        2 * (all.len() - seen@.dom().len()) + found@.len() <= budget,
                    decreases next@.len() - k,
                {
                    let to = next[k];
                    let ghost seen_before = seen@.dom();
                    let ghost found_before = found@;
                    let ghost ids_then = ids_of(found@);
                    let ghost origin_then = origin;
                    match self.discover(to, direction, &mut seen, &mut found) {
                        Err(e) => {
                            return Err(e);
                        },
                        Ok(()) => {},
                    }
                    proof {
                        seen.lemma_view();
                        let ids = ids_of(found@);
                        assert(edge(terrain, id, to));
                        assert(all.contains(to)) by {
                            match direction {
                                Direction::Ancestors => {
                                    assert(names_parent(terrain.vertices, id, to));
                                    assert(referenced_in(terrain.vertices).contains(to));
                                },
                                Direction::Descendants => {},
                            }
                        }
                        vstd::set_lib::lemma_len_subset(seen_before, all);
                        vstd::set_lib::lemma_len_subset(seen@.dom(), all);
                        if found@.len() == found_before.len() {
                            assert(ids =~= ids_then);
                            if !seen_before.contains(to) {
                                assert(!visitable(terrain, to));
                            }
                        } else {
                            assert(ids.drop_last() =~= ids_then);
                            assert(ids.last() == to);
                            assert(ids =~= ids_then.push(to));
                            lemma_reachable_step(terrain, should_continue, start, id, to);
                            assert(!ids_then.contains(to));
                            assert forall|i: int| 0 <= i < ids.len() implies {
                                &&& seen@.dom().contains(#[trigger] ids[i])
                                &&& visitable(terrain, ids[i])
                                &&& found@[i].1@ == terrain.vertices[ids[i]]
                                &&& reachable(terrain, should_continue, start, ids[i])
                            } by {
                                if i < ids_then.len() {
                                    assert(ids[i] == ids_then[i]);
                                    assert(found@[i] == found_before[i]);
                                }
                            }
                            assert forall|a: int, b: int| 0 <= a < b < ids.len() implies ids[a]
                                != ids[b] by {
                                if b < ids_then.len() {
                                    assert(ids[a] == ids_then[a] && ids[b] == ids_then[b]);
                                } else {
                                    assert(ids[a] == ids_then[a]);
                                    assert(ids_then.contains(ids_then[a]));
                                }
                            }
                            origin = origin_then.push(head as int);
                            assert forall|j: int| 0 < j < ids.len() implies #[trigger] origin[j]
                                <= head && found_from(
                                terrain,
                                should_continue,
                                ids,
                                j,
                                origin[j],
                            ) by {
                                if j < ids_then.len() {
                                    let i = origin_then[j];
                                    assert(found_from(terrain, should_continue, ids_then, j, i));
                                    assert(ids[i] == ids_then[i] && ids[j] == ids_then[j]);
                                    assert forall|k: int| 0 <= k < i implies !(expands(
                                        terrain,
                                        should_continue,
                                        #[trigger] ids[k],
                                    ) && edge(terrain, ids[k], ids[j])) by {
                                        assert(ids[k] == ids_then[k]);
                                    }
                                } else {
                                    assert(ids[head as int] == id);
                                    assert(ids[j] == to);
                                    assert forall|k: int| 0 <= k < head implies !(expands(
                                        terrain,
                                        should_continue,
                                        #[trigger] ids[k],
                                    ) && edge(terrain, ids[k], ids[j])) by {
                                        assert(ids[k] == ids_then[k]);
                                        if expands(terrain, should_continue, ids_then[k]) && edge(
                                            terrain,
                                            ids_then[k],
                                            to,
                                        ) {
                                            assert(seen_before.contains(to));
                                        }
                                    }
                                }
                            }
                            assert forall|j1: int, j2: int| 0 < j1 < j2 < ids.len() implies #[trigger] origin[j1]
                                <= #[trigger] origin[j2] by {
                                if j2 < ids_then.len() {
                                    assert(origin_then[j1] <= origin_then[j2]);
                                } else {
                                    assert(origin_then[j1] <= head);
                                }
                            }
                        }
                        assert forall|v: MessageId| #[trigger]
                            seen@.dom().contains(v) && visitable(terrain, v) implies ids.contains(
                            v,
                        ) by {
                            if v == to && !seen_before.contains(to) {
                                assert(ids[ids.len() - 1] == to);
                            } else {
                                assert(ids_then.contains(v));
                                let i = choose|i: int| 0 <= i < ids_then.len() && ids_then[i] == v;
                                assert(ids[i] == v);
                            }
                        }
                        assert forall|i: int, t: MessageId|
                            0 <= i < head && expands(terrain, should_continue, #[trigger] ids[i])
                                && #[trigger] edge(terrain, ids[i], t) implies seen@.dom().contains(
                            t,
                        ) by {
                            assert(ids[i] == ids_then[i]);
                            assert(seen_before.contains(t));
                        }
                        assert(ids[0] == ids_then[0]);
                    }
                    k += 1;
                }
                proof {
                    let ids = ids_of(found@);
                    assert forall|i: int, t: MessageId|
                        0 <= i < head + 1 && expands(terrain, should_continue, #[trigger] ids[i])
                            && #[trigger] edge(terrain, ids[i], t) implies seen@.dom().contains(
                        t,
                    ) by {
                        if i == head {
                            assert(next@.contains(t));
                            let j = choose|j: int| 0 <= j < next@.len() && next@[j] == t;
                            assert(seen@.dom().contains(next@[j]));
                        }
                    }
                }
            }
            proof {
                seen.lemma_view();
                vstd::set_lib::lemma_len_subset(seen@.dom(), all);
                assert(2 * (all.len() - seen@.dom().len()) + found@.len() - head <= measure);
                assert(measure >= 1);
            }
            head += 1;
        }
        proof {
            let ids = ids_of(found@);
            assert forall|x: MessageId| #[trigger]
                reachable(terrain, should_continue, start, x) implies ids.contains(x) by {
                let route = choose|route: Seq<MessageId>| #[trigger]
                    is_route(terrain, should_continue, start, route) && route.last() == x;
                lemma_search_complete(terrain, should_continue, start, ids, seen@.dom(), route);
            }
            assert forall|j: int| 0 < j < ids.len() implies #[trigger] stepped_to(
                terrain,
                should_continue,
                ids,
                j,
            ) by {
                assert(found_from(terrain, should_continue, ids, j, origin[j]));
            }
            assert forall|j1: int, j2: int, i1: int, i2: int|
                j1 < j2 && #[trigger] found_from(terrain, should_continue, ids, j1, i1)
                    && #[trigger] found_from(
                    terrain,
                    should_continue,
                    ids,
                    j2,
                    i2,
                ) implies i1 <= i2 by {
                assert(found_from(terrain, should_continue, ids, j1, origin[j1]));
                assert(found_from(terrain, should_continue, ids, j2, origin[j2]));
                assert(origin[j1] <= origin[j2]);
                if i1 < origin[j1] {
                    assert(expands(terrain, should_continue, ids[i1]));
                } else if origin[j1] < i1 {
                    assert(expands(terrain, should_continue, ids[origin[j1]]));
                }
                if i2 < origin[j2] {
                    assert(expands(terrain, should_continue, ids[i2]));
                } else if origin[j2] < i2 {
                    assert(expands(terrain, should_continue, ids[origin[j2]]));
                }
            }
        }
        Ok(found)
    }
}

} // verus!
