//! The tip pool: the messages that no known message refers to yet.

use crate::id_map::IdMap;
use crate::message::MessageId;
use vstd::prelude::*;

verus! {

/// When a tip is too old to be offered any longer.
#[derive(Clone, Copy, Debug, PartialEq, Eq, Structural)]
pub enum StalenessPolicy {
    /// A tip is stale once it has been one for longer than this.
    MaxAge(u64),
    /// The tips beyond this number are stale, those that became tips first going
    /// first.
    MaxCount(usize),
}

/// How long a message has been a tip at `now` that became one at `since`; zero if
/// the clock went back in between.
pub open spec fn age(since: u64, now: u64) -> nat {
    if now >= since {
        (now - since) as nat
    } else {
        0
    }
}

/// The test that tells the tips that are at most `limit` old at `now`.
pub open spec fn young(times: Map<MessageId, u64>, now: u64, limit: u64) -> spec_fn(
    MessageId,
) -> bool {
    |id: MessageId| age(times[id], now) <= limit
}

/// The test that tells the tips that are more than `limit` old at `now`.
pub open spec fn aged(times: Map<MessageId, u64>, now: u64, limit: u64) -> spec_fn(
    MessageId,
) -> bool {
    |id: MessageId| age(times[id], now) > limit
}

/// The tips that stay when the stale ones among `ids` are removed at `now`.
pub open spec fn kept(
    ids: Seq<MessageId>,
    times: Map<MessageId, u64>,
    now: u64,
    policy: StalenessPolicy,
) -> Seq<MessageId> {
    match policy {
        StalenessPolicy::MaxAge(limit) => ids.filter(young(times, now, limit)),
        StalenessPolicy::MaxCount(max) => if ids.len() > max {
            ids.skip(ids.len() - max)
        } else {
            ids
        },
    }
}

/// The stale tips among `ids` at `now`.
pub open spec fn dropped(
    ids: Seq<MessageId>,
    times: Map<MessageId, u64>,
    now: u64,
    policy: StalenessPolicy,
) -> Seq<MessageId> {
    match policy {
        StalenessPolicy::MaxAge(limit) => ids.filter(aged(times, now, limit)),
        StalenessPolicy::MaxCount(max) => if ids.len() > max {
            ids.take(ids.len() - max)
        } else {
            Seq::empty()
        },
    }
}

/// The number drawn for the `i`-th choice: `picks[i]`, or zero where `picks` has
/// run out.
pub open spec fn pick(picks: Seq<u64>, i: nat) -> nat {
    if i < picks.len() {
        picks[i as int] as nat
    } else {
        0
    }
}

/// The choice of up to `count` of `pool` that the numbers `picks` make from the
/// `from`-th on: each number chooses among what is left, and the last of them
/// takes the place of the chosen one.
pub open spec fn selection_from(
    pool: Seq<MessageId>,
    count: nat,
    picks: Seq<u64>,
    from: nat,
) -> Seq<MessageId>
    decreases count,
{
    if count == 0 || pool.len() == 0 {
        Seq::empty()
    } else {
        let k = (pick(picks, from) % pool.len()) as int;
        seq![pool[k]] + selection_from(
            pool.update(k, pool.last()).drop_last(),
            (count - 1) as nat,
            picks,
            from + 1,
        )
    }
}

/// The choice of up to `count` of `pool` that the numbers `picks` make.
pub open spec fn selection(pool: Seq<MessageId>, count: nat, picks: Seq<u64>) -> Seq<MessageId> {
    selection_from(pool, count, picks, 0)
}

/// A choice holds `count` of the pool, or all of it if that is less; it holds
/// members of the pool only, and none twice if the pool holds none twice.
pub proof fn lemma_selection(pool: Seq<MessageId>, count: nat, picks: Seq<u64>, from: nat)
    ensures
        selection_from(pool, count, picks, from).len() == if count <= pool.len() {
            count
        } else {
            pool.len()
        },
        forall|id: MessageId|
            selection_from(pool, count, picks, from).contains(id) ==> pool.contains(id),
        pool.no_duplicates() ==> selection_from(pool, count, picks, from).no_duplicates(),
    decreases count,
{
    if count == 0 || pool.len() == 0 {
    } else {
        let k = (pick(picks, from) % pool.len()) as int;
        let rest = pool.update(k, pool.last()).drop_last();
        let tail = selection_from(rest, (count - 1) as nat, picks, from + 1);
        let all = selection_from(pool, count, picks, from);
        lemma_selection(rest, (count - 1) as nat, picks, from + 1);
        assert(all == seq![pool[k]] + tail);
        assert forall|id: MessageId| rest.contains(id) implies pool.contains(id) && (
        pool.no_duplicates() ==> id != pool[k]) by {
            let j = choose|j: int| 0 <= j < rest.len() && rest[j] == id;
            if j == k {
                assert(pool[pool.len() - 1] == id);
            } else {
                assert(pool[j] == id);
            }
        }
        assert forall|id: MessageId| all.contains(id) implies pool.contains(id) by {
            let j = choose|j: int| 0 <= j < all.len() && all[j] == id;
            if j == 0 {
                assert(pool[k] == id);
            } else {
                assert(tail[j - 1] == id);
                assert(tail.contains(id));
            }
        }
        if pool.no_duplicates() {
            assert forall|a: int, b: int| 0 <= a < b < rest.len() implies rest[a] != rest[b] by {}
            assert forall|a: int, b: int| 0 <= a < b < all.len() implies all[a] != all[b] by {
                if a == 0 {
                    assert(tail[b - 1] == all[b]);
                    assert(tail.contains(all[b]));
                    assert(rest.contains(all[b]));
                } else {
                    assert(tail[a - 1] == all[a]);
                    assert(tail[b - 1] == all[b]);
                }
            }
        }
    }
}

/// Draws a number with `rand::random`, which takes it from the generator of the
/// calling thread. Nothing is claimed of the number.
#[verifier::external_body]
fn random_number() -> u64 {
    rand::random::<u64>()
}

/// The messages that may be offered as parents of a new message, each with the
/// time at which it became a tip, and the messages that are known to be referred
/// to.
pub struct TipPool {
    tips: IdMap<u64>,
    referenced: IdMap<()>,
}

impl TipPool {
    /// The tips, in the order in which they became tips.
    pub closed spec fn tip_ids(&self) -> Seq<MessageId> {
        self.tips.keys()
    }

    /// The time at which each tip became one.
    pub closed spec fn tip_times(&self) -> Map<MessageId, u64> {
        self.tips@
    }

    /// The messages that some known message names as a parent.
    pub closed spec fn referenced(&self) -> Set<MessageId> {
        self.referenced@.dom()
    }

    /// What holds of a pool between calls; among it, that no tip is referred to.
    pub closed spec fn wf(&self) -> bool {
        &&& self.tips.wf()
        &&& self.referenced.wf()
        &&& forall|id: MessageId| #[trigger]
            self.tips@.contains_key(id) ==> !self.referenced@.contains_key(id)
    }

    /// No message is a tip twice, the tips are those that have a time, and none of
    /// them is referred to.
    pub proof fn lemma_wf(&self)
        requires
            self.wf(),
        ensures
            self.tip_ids().no_duplicates(),
            self.tip_times().dom() == self.tip_ids().to_set(),
            self.tip_times().dom().finite(),
            self.tip_times().len() == self.tip_ids().len(),
            self.referenced().finite(),
            forall|id: MessageId|
                self.tip_ids().contains(id) <==> #[trigger] self.tip_times().contains_key(id),
            forall|i: int|
                0 <= i < self.tip_ids().len() ==> !self.referenced().contains(
                    #[trigger] self.tip_ids()[i],
                ),
            forall|id: MessageId| #[trigger]
                self.tip_times().contains_key(id) ==> !self.referenced().contains(id),
    {
        self.tips.lemma_view();
        self.referenced.lemma_view();
    }

    /// A pool without tips that knows of no reference.
    pub fn new() -> (pool: Self)
        ensures
            pool.wf(),
            pool.tip_ids() == Seq::<MessageId>::empty(),
            pool.tip_times() == Map::<MessageId, u64>::empty(),
            pool.referenced() == Set::<MessageId>::empty(),
    {
        let pool = TipPool { tips: IdMap::new(), referenced: IdMap::new() };
        assert(pool.referenced() =~= Set::<MessageId>::empty());
        pool
    }

    /// The number of tips.
    pub fn len(&self) -> (n: usize)
        requires
            self.wf(),
        ensures
            n == self.tip_ids().len(),
    {
        self.tips.len()
    }

    /// Whether `id` is a tip.
    pub fn is_tip(&self, id: &MessageId) -> (b: bool)
        requires
            self.wf(),
        ensures
            b == self.tip_times().contains_key(*id),
            b == self.tip_ids().contains(*id),
    {
        proof {
            self.tips.lemma_view();
        }
        self.tips.contains(id)
    }

    /// Whether some known message names `id` as a parent.
    pub fn is_referenced(&self, id: &MessageId) -> (b: bool)
        requires
            self.wf(),
        ensures
            b == self.referenced().contains(*id),
    {
        self.referenced.contains(id)
    }

    /// Makes `id` a tip as of `now`, unless a known message refers to it or it is
    /// a tip already. Returns whether it became one.
    pub fn insert_tip(&mut self, id: MessageId, now: u64) -> (added: bool)
        requires
            old(self).wf(),
        ensures
            final(self).wf(),
            final(self).referenced() == old(self).referenced(),
            added == (!old(self).referenced().contains(id) && !old(self).tip_times().contains_key(
                id,
            )),
            final(self).tip_ids() == if added {
                old(self).tip_ids().push(id)
            } else {
                old(self).tip_ids()
            },
            final(self).tip_times() == if added {
                old(self).tip_times().insert(id, now)
            } else {
                old(self).tip_times()
            },
    {
        if self.referenced.contains(&id) || self.tips.contains(&id) {
            return false;
        }
        self.tips.insert(id, now);
        true
    }

    /// Records that a known message names `parent_id` as a parent, and takes
    /// `parent_id` out of the tips if it was one. Returns whether it was.
    pub fn remove_tip_if_unreferenced(&mut self, parent_id: &MessageId) -> (removed: bool)
        requires
            old(self).wf(),
        ensures
            final(self).wf(),
            final(self).referenced() == old(self).referenced().insert(*parent_id),
            removed == old(self).tip_times().contains_key(*parent_id),
            final(self).tip_times() == old(self).tip_times().remove(*parent_id),
            final(self).tip_ids() == if removed {
                old(self).tip_ids().remove(old(self).tip_ids().index_of(*parent_id))
            } else {
                old(self).tip_ids()
            },
    {
        self.referenced.insert(*parent_id, ());
        let removed = self.tips.remove(parent_id).is_some();
        proof {
            assert(self.referenced() =~= old(self).referenced().insert(*parent_id));
            if !removed {
                assert(self.tip_times() =~= old(self).tip_times().remove(*parent_id));
            }
        }
        removed
    }

    /// The tips at present, in the order in which they became tips.
    pub fn tips(&self) -> (ids: Vec<MessageId>)
        requires
            self.wf(),
        ensures
            ids@ == self.tip_ids(),
    {
        let n = self.tips.len();
        let mut ids: Vec<MessageId> = Vec::new();
        let mut i: usize = 0;
        while i < n
            invariant
                self.wf(),
                n == self.tips.keys().len(),
                i <= n,
                ids@ == self.tips.keys().take(i as int),
            decreases n - i,
        {
            ids.push(self.tips.key(i));
            i += 1;
            assert(ids@ =~= self.tips.keys().take(i as int));
        }
        assert(ids@ =~= self.tips.keys());
        ids
    }

    /// When `id` became a tip, if it is one.
    pub fn tip_since(&self, id: &MessageId) -> (since: Option<u64>)
        requires
            self.wf(),
        ensures
            match since {
                Some(time) => self.tip_times().contains_key(*id) && self.tip_times()[*id] == time,
                None => !self.tip_times().contains_key(*id),
            },
    {
        match self.tips.get(id) {
            Some(time) => Some(*time),
            None => None,
        }
    }

    /// Chooses up to `count` tips by the numbers `picks`, none twice; fewer if
    /// there are fewer tips, none if there are none.
    pub fn select_tips_from(&self, count: usize, picks: &Vec<u64>) -> (chosen: Vec<MessageId>)
        requires
            self.wf(),
        ensures
            chosen@ == selection(self.tip_ids(), count as nat, picks@),
    {
        let mut pool = self.tips();
        let mut chosen: Vec<MessageId> = Vec::new();
        let mut taken: usize = 0;
        while taken < count && pool.len() > 0
            invariant
                taken <= count,
                chosen@ + selection_from(pool@, (count - taken) as nat, picks@, taken as nat)
                    == selection(self.tip_ids(), count as nat, picks@),
            decreases count - taken,
        {
            let number = if taken < picks.len() {
                picks[taken]
            } else {
                0
            };
            let k = (number % (pool.len() as u64)) as usize;
            let ghost before = pool@;
            let ghost so_far = chosen@;
            let id = pool.swap_remove(k);
            chosen.push(id);
            proof {
                let rest = selection_from(
                    pool@,
                    (count - taken - 1) as nat,
                    picks@,
                    (taken + 1) as nat,
                );
                assert(selection_from(before, (count - taken) as nat, picks@, taken as nat)
                    == seq![id] + rest);
                assert(chosen@ + rest =~= so_far + (seq![id] + rest));
            }
            taken += 1;
        }
        proof {
            assert(selection_from(pool@, (count - taken) as nat, picks@, taken as nat)
                =~= Seq::<MessageId>::empty());
            assert(chosen@ + Seq::<MessageId>::empty() =~= chosen@);
        }
        chosen
    }

    /// Chooses up to `count` tips at random, none twice; fewer if there are fewer
    /// tips, none if there are none. The choice is that of
    /// [`Self::select_tips_from`] for numbers drawn at random.
    pub fn select_tips(&self, count: usize) -> (chosen: Vec<MessageId>)
        requires
            self.wf(),
        ensures
            exists|picks: Seq<u64>| chosen@ == #[trigger] selection(
                self.tip_ids(),
                count as nat,
                picks,
            ),
            chosen@.len() == if count <= self.tip_ids().len() {
                count as nat
            } else {
                self.tip_ids().len()
            },
            chosen@.no_duplicates(),
            forall|i: int| 0 <= i < chosen@.len() ==> self.tip_ids().contains(#[trigger] chosen@[i]),
    {
        let available = self.tips.len();
        let wanted = if count <= available {
            count
        } else {
            available
        };
        let mut picks: Vec<u64> = Vec::new();
        let mut i: usize = 0;
        while i < wanted
            invariant
                i <= wanted,
                picks@.len() == i,
            decreases wanted - i,
        {
            picks.push(random_number());
            i += 1;
        }
        let chosen = self.select_tips_from(count, &picks);
        proof {
            self.lemma_wf();
            lemma_selection(self.tip_ids(), count as nat, picks@, 0);
            assert forall|i: int| 0 <= i < chosen@.len() implies self.tip_ids().contains(
                #[trigger] chosen@[i],
            ) by {
                assert(chosen@.contains(chosen@[i]));
            }
        }
        chosen
    }

    /// Takes the stale tips out of the pool and returns them. What is known of
    /// references stays.
    pub fn remove_stale(&mut self, now: u64, policy: StalenessPolicy) -> (removed: Vec<MessageId>)
        requires
            old(self).wf(),
        ensures
            final(self).wf(),
            final(self).referenced() == old(self).referenced(),
            final(self).tip_ids() == kept(old(self).tip_ids(), old(self).tip_times(), now, policy),
            removed@ == dropped(old(self).tip_ids(), old(self).tip_times(), now, policy),
            final(self).tip_times() == old(self).tip_times().restrict(
                final(self).tip_ids().to_set(),
            ),
    {
        let ghost ids = self.tips.keys();
        let ghost times = self.tips@;
        let mut removed: Vec<MessageId> = Vec::new();
        proof {
            self.tips.lemma_view();
        }
        match policy {
            StalenessPolicy::MaxAge(limit) => {
                let ghost mut j: int = 0;
                let mut i: usize = 0;
                proof {
                    reveal(Seq::filter);
                    assert(ids.take(0).filter(young(times, now, limit)) =~= Seq::empty());
                    assert(ids.take(0).filter(aged(times, now, limit)) =~= Seq::empty());
                    assert(ids.skip(0) =~= ids);
                }
                while i < self.tips.len()
                    invariant
                        self.wf(),
                        ids == old(self).tips.keys(),
                        times == old(self).tips@,
                        ids.no_duplicates(),
                        forall|k: int|
                            0 <= k < ids.len() ==> times.contains_key(#[trigger] ids[k]),
                        self.referenced == old(self).referenced,
                        0 <= j <= ids.len(),
                        i <= self.tips.keys().len(),
                        i == ids.take(j).filter(young(times, now, limit)).len(),
                        self.tips.keys() == ids.take(j).filter(young(times, now, limit))
                            + ids.skip(j),
                        removed@ == ids.take(j).filter(aged(times, now, limit)),
                        self.tips@.submap_of(times),
                    decreases ids.len() - j,
                {
                    proof {
                        self.tips.lemma_view();
                        reveal(Seq::filter);
                        assert(self.tips.keys()[i as int] == ids.skip(j)[0]);
                        assert(ids.take(j + 1).drop_last() =~= ids.take(j));
                        assert(ids.take(j + 1).last() == ids[j]);
                    }
                    let since = *self.tips.value(i);
                    let old_enough = now >= since && now - since > limit;
                    if old_enough {
                        let (id, _) = self.tips.remove_at(i);
                        removed.push(id);
                        proof {
                            assert(self.tips.keys() =~= ids.take(j + 1).filter(
                                young(times, now, limit),
                            ) + ids.skip(j + 1));
                        }
                    } else {
                        proof {
                            assert(self.tips.keys() =~= ids.take(j + 1).filter(
                                young(times, now, limit),
                            ) + ids.skip(j + 1));
                        }
                        i += 1;
                    }
                    proof {
                        j = j + 1;
                    }
                }
                proof {
                    assert(ids.skip(j).len() == 0);
                    assert(j == ids.len());
                    assert(ids.take(j) =~= ids);
                    assert(self.tips.keys() =~= ids.filter(young(times, now, limit)));
                }
            },
            StalenessPolicy::MaxCount(max) => {
                let n = self.tips.len();
                if n > max {
                    let excess = n - max;
                    let mut done: usize = 0;
                    while done < excess
                        invariant
                            self.wf(),
                            ids == old(self).tips.keys(),
                            times == old(self).tips@,
                            self.referenced == old(self).referenced,
                            excess <= ids.len(),
                            done <= excess,
                            self.tips.keys() == ids.skip(done as int),
                            removed@ == ids.take(done as int),
                            self.tips@.submap_of(times),
                        decreases excess - done,
                    {
                        let (id, _) = self.tips.remove_at(0);
                        removed.push(id);
                        done += 1;
                        proof {
                            assert(self.tips.keys() =~= ids.skip(done as int));
                            assert(removed@ =~= ids.take(done as int));
                        }
                    }
                } else {
                    assert(removed@ =~= Seq::<MessageId>::empty());
                }
            },
        }
        proof {
            self.tips.lemma_view();
            assert(self.tips@ =~= times.restrict(self.tips.keys().to_set()));
        }
        removed
    }
}

} // verus!
