//! A finite map keyed by message identifier that remembers the order in which its
//! keys were inserted.

use crate::message::MessageId;
use std::collections::HashMap;
use vstd::prelude::*;

verus! {

/// A map from message identifiers to values of type `V`.
///
/// Its keys are kept in the order in which they were first inserted, so that
/// walking the map visits the same entries in the same order on every run. An
/// index finds the place of a key without walking: it lists the places of the
/// keys by their [`shelf`](MessageId::shelf).
pub struct IdMap<V> {
    slots: Vec<(MessageId, V)>,
    index: HashMap<u64, Vec<usize>>,
}

/// Lists the place `at` on the shelf `shelf` of `index`.
fn list_place(index: &mut HashMap<u64, Vec<usize>>, shelf: u64, at: usize)
    ensures
        final(index)@.contains_key(shelf),
        final(index)@[shelf]@ == if old(index)@.contains_key(shelf) {
            old(index)@[shelf]@.push(at)
        } else {
            seq![at]
        },
        forall|other: u64|
            other != shelf ==> final(index)@.contains_key(other) == old(index)@.contains_key(other),
        forall|other: u64|
            other != shelf && old(index)@.contains_key(other) ==> #[trigger] final(index)@[other]
                == old(index)@[other],
{
    broadcast use vstd::std_specs::hash::group_hash_axioms;

    let mut places = match index.remove(&shelf) {
        Some(places) => places,
        None => Vec::new(),
    };
    places.push(at);
    index.insert(shelf, places);
}

impl<V> IdMap<V> {
    /// The keys, in the order in which they were inserted.
    pub closed spec fn keys(&self) -> Seq<MessageId> {
        self.slots@.map_values(|slot: (MessageId, V)| slot.0)
    }

    /// The value held at position `i` of the insertion order.
    pub closed spec fn value_at(&self, i: int) -> V {
        self.slots@[i].1
    }

    /// No key is held twice, and the index lists the place of every key on its
    /// shelf, and nothing else.
    pub closed spec fn wf(&self) -> bool {
        self.keys().no_duplicates() && self.indexed(self.slots@.len() as int)
    }

    /// Whether the index lists the place of each of the first `n` keys on its
    /// shelf, and nothing else.
    spec fn indexed(&self, n: int) -> bool {
        &&& forall|i: int|
            0 <= i < n ==> self.index@.contains_key((#[trigger] self.slots@[i]).0.shelf())
                && self.index@[self.slots@[i].0.shelf()]@.contains(i as usize)
        &&& forall|shelf: u64, j: int|
            self.index@.contains_key(shelf) && 0 <= j < self.index@[shelf]@.len() ==> (
            #[trigger] self.index@[shelf]@[j]) < n && self.slots@[self.index@[shelf]@[j] as int].0.shelf()
                == shelf
    }

    /// Makes the index anew from the keys.
    fn reindex(&mut self)
        requires
            old(self).keys().no_duplicates(),
        ensures
            final(self).wf(),
            final(self).slots == old(self).slots,
    {
        self.index = HashMap::new();
        let mut i: usize = 0;
        while i < self.slots.len()
            invariant
                i <= self.slots@.len(),
                self.slots == old(self).slots,
                self.indexed(i as int),
            decreases self.slots@.len() - i,
        {
            let ghost before = self.index@;
            let shelf = self.slots[i].0.on_shelf();
            list_place(&mut self.index, shelf, i);
            proof {
                let after = self.index@;
                assert forall|k: int| 0 <= k < i + 1 implies after.contains_key(
                    (#[trigger] self.slots@[k]).0.shelf(),
                ) && after[self.slots@[k].0.shelf()]@.contains(k as usize) by {
                    let on = self.slots@[k].0.shelf();
                    if k == i {
                        assert(after[on]@[after[on]@.len() - 1] == i);
                    } else {
                        assert(before.contains_key(on) && before[on]@.contains(k as usize));
                        let j = choose|j: int| 0 <= j < before[on]@.len() && before[on]@[j] == k;
                        if on == shelf {
                            assert(after[on]@[j] == k);
                        } else {
                            assert(after[on] == before[on]);
                        }
                    }
                }
                assert forall|on: u64, j: int|
                    after.contains_key(on) && 0 <= j < after[on]@.len() implies (
                #[trigger] after[on]@[j]) < i + 1 && self.slots@[after[on]@[j] as int].0.shelf()
                    == on by {
                    if on == shelf {
                        if before.contains_key(on) && j < before[on]@.len() {
                            assert(after[on]@[j] == before[on]@[j]);
                        }
                    } else {
                        assert(after[on] == before[on]);
                        assert(after[on]@[j] == before[on]@[j]);
                    }
                }
            }
            i += 1;
        }
    }

    /// The map from each key to its value.
    pub closed spec fn view(&self) -> Map<MessageId, V> {
        Map::new(
            |id: MessageId| self.keys().contains(id),
            |id: MessageId| self.slots@[self.keys().index_of(id)].1,
        )
    }

    /// The keys of the map are those of the insertion order, each once, and each is
    /// mapped to the value at its position.
    pub proof fn lemma_view(&self)
        requires
            self.wf(),
        ensures
            self.keys().no_duplicates(),
            self@.dom() == self.keys().to_set(),
            self@.dom().finite(),
            self@.len() == self.keys().len(),
            forall|id: MessageId| #[trigger] self@.contains_key(id) <==> self.keys().contains(id),
            forall|i: int|
                0 <= i < self.keys().len() ==> self@.contains_key(#[trigger] self.keys()[i])
                    && self@[self.keys()[i]] == self.value_at(i),
    {
        let keys = self.keys();
        assert(self@.dom() =~= keys.to_set());
        keys.unique_seq_to_set();
        vstd::seq_lib::seq_to_set_is_finite(keys);
        assert forall|i: int| 0 <= i < keys.len() implies self@.contains_key(#[trigger] keys[i])
            && self@[keys[i]] == self.value_at(i) by {
            assert(keys.contains(keys[i]));
            let j = keys.index_of(keys[i]);
            assert(keys[j] == keys[i]);
        }
    }

    /// An empty map.
    pub fn new() -> (m: Self)
        ensures
            m.wf(),
            m@ == Map::<MessageId, V>::empty(),
            m.keys() == Seq::<MessageId>::empty(),
    {
        let m = IdMap { slots: Vec::new(), index: HashMap::new() };
        assert(m.keys() =~= Seq::<MessageId>::empty());
        assert(m@ =~= Map::<MessageId, V>::empty());
        m
    }

    /// The number of entries.
    pub fn len(&self) -> (n: usize)
        requires
            self.wf(),
        ensures
            n == self@.len(),
            n == self.keys().len(),
    {
        proof {
            self.lemma_view();
        }
        self.slots.len()
    }

    /// The position of `id` in the insertion order.
    pub fn position(&self, id: &MessageId) -> (r: Option<usize>)
        requires
            self.wf(),
        ensures
            match r {
                Some(i) => i < self.keys().len() && self.keys()[i as int] == *id,
                None => !self.keys().contains(*id),
            },
            r is Some <==> self@.contains_key(*id),
    {
        broadcast use vstd::std_specs::hash::group_hash_axioms;

        proof {
            self.lemma_view();
        }
        let shelf = id.on_shelf();
        let places = match self.index.get(&shelf) {
            Some(places) => places,
            None => {
                proof {
                    if self.keys().contains(*id) {
                        let i = choose|i: int| 0 <= i < self.keys().len() && self.keys()[i] == *id;
                        assert(self.slots@[i].0 == *id);
                    }
                }
                return None;
            },
        };
        let mut j: usize = 0;
        while j < places.len()
            invariant
                self.wf(),
                j <= places@.len(),
                shelf == id.shelf(),
                self.index@.contains_key(shelf),
                self.index@[shelf] == *places,
                forall|k: int| 0 <= k < j ==> self.slots@[#[trigger] places@[k] as int].0 != *id,
            decreases places@.len() - j,
        {
            let at = places[j];
            assert(self.index@[shelf]@[j as int] == at);
            if self.slots[at].0 == *id {
                proof {
                    self.lemma_view();
                    assert(self.keys()[at as int] == *id);
                }
                return Some(at);
            }
            j += 1;
        }
        proof {
            if self.keys().contains(*id) {
                let i = choose|i: int| 0 <= i < self.keys().len() && self.keys()[i] == *id;
                assert(self.keys().len() == self.slots@.len());
                assert(i < self.slots.len());
                assert(self.slots@[i].0 == *id);
                assert(self.index@[self.slots@[i].0.shelf()]@.contains(i as usize));
                let k = choose|k: int| 0 <= k < places@.len() && places@[k] == i as usize;
                assert(self.slots@[places@[k] as int].0 != *id);
            }
        }
        None
    }

    /// Whether `id` is a key of the map.
    pub fn contains(&self, id: &MessageId) -> (b: bool)
        requires
            self.wf(),
        ensures
            b == self@.contains_key(*id),
    {
        self.position(id).is_some()
    }

    /// The value of `id`, if it has one.
    pub fn get(&self, id: &MessageId) -> (r: Option<&V>)
        requires
            self.wf(),
        ensures
            match r {
                Some(v) => self@.contains_key(*id) && *v == self@[*id],
                None => !self@.contains_key(*id),
            },
    {
        proof {
            self.lemma_view();
        }
        match self.position(id) {
            Some(i) => Some(&self.slots[i].1),
            None => None,
        }
    }

    /// The key at position `i` of the insertion order.
    pub fn key(&self, i: usize) -> (id: MessageId)
        requires
            self.wf(),
            i < self.keys().len(),
        ensures
            id == self.keys()[i as int],
            self@.contains_key(id),
    {
        proof {
            self.lemma_view();
            assert(self@.contains_key(self.keys()[i as int]));
        }
        self.slots[i].0
    }

    /// The value at position `i` of the insertion order.
    pub fn value(&self, i: usize) -> (v: &V)
        requires
            self.wf(),
            i < self.keys().len(),
        ensures
            *v == self.value_at(i as int),
            *v == self@[self.keys()[i as int]],
    {
        proof {
            self.lemma_view();
        }
        &self.slots[i].1
    }

    /// Maps `id` to `value`. A new key goes to the end of the insertion order; a
    /// key that is already held keeps its place, and its former value is returned.
    pub fn insert(&mut self, id: MessageId, value: V) -> (previous: Option<V>)
        requires
            old(self).wf(),
        ensures
            final(self).wf(),
            final(self)@ == old(self)@.insert(id, value),
            previous == if old(self)@.contains_key(id) {
                Some(old(self)@[id])
            } else {
                None
            },
            final(self).keys() == if old(self)@.contains_key(id) {
                old(self).keys()
            } else {
                old(self).keys().push(id)
            },
    {
        proof {
            self.lemma_view();
        }
        let ghost before = *self;
        match self.position(&id) {
            Some(i) => {
                let former = self.replace(i, value);
                Some(former)
            },
            None => {
                let at = self.slots.len();
                self.slots.push((id, value));
                let ghost listed = self.index@;
                list_place(&mut self.index, id.on_shelf(), at);
                proof {
                    assert(self.keys() =~= before.keys().push(id));
                    let after = self.index@;
                    let shelf = id.shelf();
                    assert forall|k: int| 0 <= k < at + 1 implies after.contains_key(
                        (#[trigger] self.slots@[k]).0.shelf(),
                    ) && after[self.slots@[k].0.shelf()]@.contains(k as usize) by {
                        let on = self.slots@[k].0.shelf();
                        if k == at {
                            assert(after[on]@[after[on]@.len() - 1] == at);
                        } else {
                            assert(self.slots@[k] == before.slots@[k]);
                            assert(listed.contains_key(on) && listed[on]@.contains(k as usize));
                            let j = choose|j: int| 0 <= j < listed[on]@.len() && listed[on]@[j] == k;
                            if on == shelf {
                                assert(after[on]@[j] == k);
                            } else {
                                assert(after[on] == listed[on]);
                            }
                        }
                    }
                    assert forall|on: u64, j: int|
                        after.contains_key(on) && 0 <= j < after[on]@.len() implies (
                    #[trigger] after[on]@[j]) < at + 1 && self.slots@[after[on]@[j] as int].0.shelf()
                        == on by {
                        if on == shelf {
                            if listed.contains_key(on) && j < listed[on]@.len() {
                                assert(after[on]@[j] == listed[on]@[j]);
                                assert(self.slots@[listed[on]@[j] as int]
                                    == before.slots@[listed[on]@[j] as int]);
                            }
                        } else {
                            assert(after[on] == listed[on]);
                            assert(after[on]@[j] == listed[on]@[j]);
                            assert(self.slots@[listed[on]@[j] as int]
                                == before.slots@[listed[on]@[j] as int]);
                        }
                    }
                    self.lemma_view();
                    assert forall|k: MessageId| #[trigger]
                        before@.insert(id, value).contains_key(k) implies self@.contains_key(k)
                        && self@[k] == before@.insert(id, value)[k] by {
                        if k != id {
                            let j = before.keys().index_of(k);
                            assert(self.keys()[j] == k);
                        } else {
                            assert(self.keys()[before.keys().len() as int] == id);
                        }
                    }
                    assert(self@ =~= before@.insert(id, value));
                }
                None
            },
        }
    }

    /// Puts `value` at position `i` of the insertion order, under the key that is
    /// there, and returns the value that was there.
    pub fn replace(&mut self, i: usize, value: V) -> (former: V)
        requires
            old(self).wf(),
            i < old(self).keys().len(),
        ensures
            final(self).wf(),
            final(self).keys() == old(self).keys(),
            final(self)@ == old(self)@.insert(old(self).keys()[i as int], value),
            former == old(self)@[old(self).keys()[i as int]],
    {
        proof {
            self.lemma_view();
        }
        let ghost before = *self;
        let ghost id = before.keys()[i as int];
        let mut former = value;
        let slot = &mut self.slots[i];
        core::mem::swap(&mut slot.1, &mut former);
        proof {
            assert(self.slots@ =~= before.slots@.update(i as int, (id, value)));
            assert(id == before.keys()[i as int]);
            assert(self.keys() =~= before.keys());
            assert forall|k: int| 0 <= k < self.slots@.len() implies (#[trigger] self.slots@[k]).0
                == before.slots@[k].0 by {
                assert(self.keys()[k] == before.keys()[k]);
            }
            assert(self.indexed(self.slots@.len() as int)) by {
                assert forall|k: int| 0 <= k < self.slots@.len() implies self.index@.contains_key(
                    (#[trigger] self.slots@[k]).0.shelf(),
                ) && self.index@[self.slots@[k].0.shelf()]@.contains(k as usize) by {
                    assert(before.index@.contains_key(before.slots@[k].0.shelf()));
                }
                assert forall|on: u64, j: int|
                    self.index@.contains_key(on) && 0 <= j < self.index@[on]@.len() implies (
                #[trigger] self.index@[on]@[j]) < self.slots@.len()
                    && self.slots@[self.index@[on]@[j] as int].0.shelf() == on by {
                    let at = before.index@[on]@[j];
                    assert(before.slots@[at as int].0.shelf() == on);
                    assert(self.slots@[at as int].0 == before.slots@[at as int].0);
                }
            }
            self.lemma_view();
            assert forall|k: MessageId| #[trigger]
                before@.insert(id, value).contains_key(k) implies self@.contains_key(k)
                && self@[k] == before@.insert(id, value)[k] by {
                let j = before.keys().index_of(k);
                assert(self.keys()[j] == k);
                assert(self.value_at(j) == if j == i {
                    value
                } else {
                    before.value_at(j)
                });
            }
            assert(self@ =~= before@.insert(id, value));
        }
        former
    }

    /// Takes the entry at position `i` of the insertion order out of the map; the
    /// other keys keep their order.
    pub fn remove_at(&mut self, i: usize) -> (removed: (MessageId, V))
        requires
            old(self).wf(),
            i < old(self).keys().len(),
        ensures
            final(self).wf(),
            removed.0 == old(self).keys()[i as int],
            removed.1 == old(self)@[removed.0],
            final(self).keys() == old(self).keys().remove(i as int),
            final(self)@ == old(self)@.remove(removed.0),
    {
        proof {
            self.lemma_view();
        }
        let ghost before = *self;
        let removed = self.slots.remove(i);
        proof {
            assert(self.keys() =~= before.keys().remove(i as int));
        }
        self.reindex();
        proof {
            let id = removed.0;
            assert(before.keys()[i as int] == id);
            assert(self.keys() =~= before.keys().remove(i as int));
            self.lemma_view();
            assert forall|k: MessageId| #[trigger]
                before@.remove(id).contains_key(k) implies self@.contains_key(k) && self@[k]
                == before@.remove(id)[k] by {
                let j = before.keys().index_of(k);
                if j < i {
                    assert(self.keys()[j] == k);
                } else {
                    assert(self.keys()[j - 1] == k);
                }
            }
            assert(self@ =~= before@.remove(id));
        }
        removed
    }

    /// Takes `id` out of the map and returns the value that it had; the other keys
    /// keep their order.
    pub fn remove(&mut self, id: &MessageId) -> (removed: Option<V>)
        requires
            old(self).wf(),
        ensures
            final(self).wf(),
            final(self)@ == old(self)@.remove(*id),
            removed == if old(self)@.contains_key(*id) {
                Some(old(self)@[*id])
            } else {
                None
            },
            final(self).keys() == if old(self)@.contains_key(*id) {
                old(self).keys().remove(old(self).keys().index_of(*id))
            } else {
                old(self).keys()
            },
    {
        proof {
            self.lemma_view();
        }
        match self.position(id) {
            Some(i) => {
                assert(self.keys().index_of(*id) == i);
                let (_, former) = self.remove_at(i);
                Some(former)
            },
            None => {
                assert(self@ =~= old(self)@.remove(*id));
                None
            },
        }
    }
}

} // verus!
