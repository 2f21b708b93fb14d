//! Eviction: giving up one entry to bring memory back under the ceiling.

use crate::cache::cache::{slots_view, Cache, EvictionStrategy};
use crate::cache::model::{
    candidate, earlier, first_candidate, key_count, nth_key, CacheModel, StoreModel,
};
use crate::cache::scan::is_volatile;
use crate::outside::random_below;
use vstd::prelude::*;

verus! {

/// One more cluster, as a count of keys sees it.
pub proof fn lemma_key_count_step(store: StoreModel, ci: int)
    requires
        0 <= ci < store.len(),
    ensures
        key_count(store.take(ci + 1)) == key_count(store.take(ci)) + store[ci].1.len(),
{
    assert(store.take(ci + 1).drop_last() =~= store.take(ci));
}

/// The keys before a later cluster are at least those up to and including an
/// earlier one.
pub proof fn lemma_key_count_grows(store: StoreModel, ci: int, cj: int)
    requires
        0 <= ci < cj <= store.len(),
    ensures
        key_count(store.take(cj)) >= key_count(store.take(ci)) + store[ci].1.len(),
    decreases cj - ci,
{
    lemma_key_count_step(store, cj - 1);
    if ci < cj - 1 {
        lemma_key_count_grows(store, ci, cj - 1);
    }
}

/// The key that is met after `n` others has one place.
pub proof fn lemma_nth_key_unique(store: StoreModel, n: int, ci: int, si: int, cj: int, sj: int)
    requires
        nth_key(store, n, ci, si),
        nth_key(store, n, cj, sj),
    ensures
        ci == cj,
        si == sj,
{
    if ci < cj {
        lemma_key_count_grows(store, ci, cj);
    } else if cj < ci {
        lemma_key_count_grows(store, cj, ci);
    }
}

/// An eviction gives up the entry at one place only.
pub proof fn lemma_victim_unique(m: CacheModel, now: int, pick: int, ci: int, si: int)
    requires
        m.victim_at(now, pick, ci, si),
    ensures
        m.has_victim(now, pick),
        m.victim(now, pick) == (ci, si),
{
    let (cj, sj) = m.victim(now, pick);
    assert(m.victim_at(now, pick, cj, sj));
    if m.evict_type == EvictionStrategy::AllKeysRandom {
        lemma_nth_key_unique(
            m.store,
            pick % (key_count(m.store) as int),
            ci,
            si,
            cj,
            sj,
        );
    } else {
        if earlier(ci, si, cj, sj) {
            assert(!candidate(m.store, m.evict_type, now, ci, si));
        } else if earlier(cj, sj, ci, si) {
            assert(!candidate(m.store, m.evict_type, now, cj, sj));
        }
    }
}

/// A count of up to `most` clusters of up to `most` keys each fits in 128
/// bits, where `most` fits in 64.
pub proof fn lemma_count_fits(clusters: int, most: int)
    requires
        0 <= clusters < most,
        most <= 0xffff_ffff_ffff_ffff,
    ensures
        (clusters + 1) * most == clusters * most + most,
        clusters * most + most <= u128::MAX,
{
    assert((clusters + 1) * most == clusters * most + most) by (nonlinear_arith);
    assert((clusters + 1) * most <= most * most) by (nonlinear_arith)
        requires
            0 <= clusters + 1 <= most,
    ;
    assert(most * most <= 0xffff_ffff_ffff_ffff * 0xffff_ffff_ffff_ffff) by (nonlinear_arith)
        requires
            0 <= most <= 0xffff_ffff_ffff_ffff,
    ;
}

impl Cache {
    /// The number of keys, all clusters together.
    pub fn count_keys(&self) -> (total: u128)
        ensures
            total == key_count(self@.store),
    {
        let mut total: u128 = 0;
        let mut ci: usize = 0;
        assert(self@.store.take(0) =~= Seq::empty());
        while ci < self.store.len()
            invariant
                ci <= self.store.len(),
                total == key_count(self@.store.take(ci as int)),
                total <= ci * usize::MAX,
            decreases self.store.len() - ci,
        {
            proof {
                lemma_key_count_step(self@.store, ci as int);
                lemma_count_fits(ci as int, usize::MAX as int);
            }
            total = total + self.store[ci].slots.len() as u128;
            ci = ci + 1;
        }
        assert(self@.store.take(self.store.len() as int) =~= self@.store);
        total
    }

    /// The place of the key that is met after `n` others.
    pub fn locate(&self, n: u128) -> (place: (usize, usize))
        requires
            n < key_count(self@.store),
        ensures
            nth_key(self@.store, n as int, place.0 as int, place.1 as int),
    {
        let mut left: u128 = n;
        let mut ci: usize = 0;
        assert(self@.store.take(0) =~= Seq::empty());
        while ci < self.store.len()
            invariant
                ci <= self.store.len(),
                left + key_count(self@.store.take(ci as int)) == n,
                n < key_count(self@.store),
            decreases self.store.len() - ci,
        {
            let keys = self.store[ci].slots.len();
            if left < keys as u128 {
                return (ci, left as usize);
            }
            proof {
                lemma_key_count_step(self@.store, ci as int);
            }
            left = left - keys as u128;
            ci = ci + 1;
        }
        proof {
            assert(self@.store.take(self.store.len() as int) =~= self@.store);
        }
        (0, 0)
    }

    /// The place of the first entry that the strategy may give up at `now`,
    /// for the strategies that take the first they meet.
    pub fn first_to_give_up(&self, now: u64) -> (place: Option<(usize, usize)>)
        ensures
            match place {
                Some((ci, si)) => first_candidate(
                    self@.store,
                    self.evict_type,
                    now as int,
                    ci as int,
                    si as int,
                ),
                None => forall|ci: int, si: int|
                    !#[trigger] candidate(self@.store, self.evict_type, now as int, ci, si),
            },
    {
        let volatile_only = match self.evict_type {
            EvictionStrategy::VolatileLru => true,
            EvictionStrategy::VolatileTtl => true,
            _ => false,
        };
        let mut ci: usize = 0;
        while ci < self.store.len()
            invariant
                ci <= self.store.len(),
                volatile_only == self.evict_type.volatile_only(),
                forall|cj: int, sj: int|
                    cj < ci ==> !#[trigger] candidate(
                        self@.store,
                        self.evict_type,
                        now as int,
                        cj,
                        sj,
                    ),
            decreases self.store.len() - ci,
        {
            let mut si: usize = 0;
            while si < self.store[ci].slots.len()
                invariant
                    ci < self.store.len(),
                    si <= self.store[ci as int].slots.len(),
                    volatile_only == self.evict_type.volatile_only(),
                    forall|cj: int, sj: int|
                        earlier(cj, sj, ci as int, si as int) ==> !#[trigger] candidate(
                            self@.store,
                            self.evict_type,
                            now as int,
                            cj,
                            sj,
                        ),
                decreases self.store[ci as int].slots.len() - si,
            {
                if !volatile_only || is_volatile(&self.store[ci].slots[si].entry, now) {
                    return Some((ci, si));
                }
                si = si + 1;
            }
            ci = ci + 1;
        }
        None
    }

    /// The place of the entry that an eviction at `now` gives up, `pick`
    /// being the number drawn for it.
    pub fn find_victim(&self, now: u64, pick: usize) -> (place: Option<(usize, usize)>)
        ensures
            match place {
                Some((ci, si)) => self@.victim(now as int, pick as int) == (ci as int, si as int)
                    && self@.has_victim(now as int, pick as int),
                None => !self@.has_victim(now as int, pick as int),
            },
    {
        let place = match self.evict_type {
            EvictionStrategy::AllKeysRandom => {
                let total = self.count_keys();
                if total == 0 {
                    None
                } else {
                    Some(self.locate(pick as u128 % total))
                }
            },
            _ => self.first_to_give_up(now),
        };
        proof {
            match place {
                Some((ci, si)) => {
                    lemma_victim_unique(self@, now as int, pick as int, ci as int, si as int);
                },
                None => {
                    assert forall|ci: int, si: int| !self@.victim_at(
                        now as int,
                        pick as int,
                        ci,
                        si,
                    ) by {
                        if self.evict_type != EvictionStrategy::AllKeysRandom {
                            assert(!candidate(self@.store, self.evict_type, now as int, ci, si));
                        }
                    }
                },
            }
        }
        place
    }

    /// Removes the entry at `(ci, si)` and gives its bytes back to the
    /// accountant.
    pub fn drop_at(&mut self, ci: usize, si: usize)
        requires
            ci < old(self).store.len(),
            si < old(self).store[ci as int].slots.len(),
        ensures
            final(self)@ == old(self)@.dropped_at(ci as int, si as int),
    {
        let slot = self.store[ci].slots.remove(si);
        self.memory_handler.delete_memory(slot.entry.value.len());
        assert(final(self)@.store =~= old(self)@.store.update(
            ci as int,
            (old(self)@.store[ci as int].0, old(self)@.store[ci as int].1.remove(si as int)),
        )) by {
            assert(slots_view(final(self).store[ci as int].slots@) =~= old(self)@.store[ci as int].1.remove(
                si as int,
            ));
        }
    }

    /// One eviction at the moment `now`, with `pick` as the number drawn.
    /// The strategies that take the first entry they meet give up the first
    /// that qualifies. The random strategy gives up the key that is met
    /// after as many others as the remainder of `pick` by the number of
    /// keys says. The entry is removed and its bytes are given back; where
    /// none qualifies, nothing changes.
    pub fn evict_at(&mut self, now: u64, pick: usize)
        ensures
            final(self)@ == old(self)@.evict(now as int, pick as int),
            old(self).wf() ==> final(self).wf(),
    {
        proof {
            if old(self).wf() {
                crate::cache::shape::lemma_evict_well_formed(old(self)@, now as int, pick as int);
            }
        }
        match self.find_victim(now, pick) {
            Some((ci, si)) => {
                self.drop_at(ci, si);
            },
            None => {},
        }
    }

    /// A number to pick the entry of a random eviction with. Where the
    /// strategy is random and the store holds keys, it is drawn among them
    /// with equal chances, and lies below their number. Where no draw is
    /// called for, under another strategy or on a store without keys, and
    /// where the keys are more than a `usize` counts, it is zero.
    pub fn draw(&self) -> (pick: usize)
        ensures
            self@.draws() ==> pick < key_count(self@.store),
            !self@.draws() ==> pick == 0,
    {
        match self.evict_type {
            EvictionStrategy::AllKeysRandom => {
                let total = self.count_keys();
                if 0 < total && total <= usize::MAX as u128 {
                    random_below(total as usize)
                } else {
                    0
                }
            },
            _ => 0,
        }
    }

    /// One eviction at the moment the engine's clock shows, the entry of a
    /// random eviction being drawn with equal chances.
    pub fn evict_entries(&mut self)
        ensures
            exists|now: u64, pick: usize|
                old(self)@.seen <= now && final(self)@ == old(self)@.at(now as int).evict(now as int, pick as int),
            old(self).wf() ==> final(self).wf(),
    {
        let now = self.tick();
        let pick = self.draw();
        self.evict_at(now, pick);
    }

    /// What every write does first at the moment `now`: one eviction where
    /// the engine is over its limit. Tells whether the write may go on: it
    /// may not where the engine is still over its limit.
    pub fn make_room_at(&mut self, now: u64, pick: usize) -> (open: bool)
        ensures
            final(self)@ == old(self)@.make_room(now as int, pick as int),
            open == !final(self)@.over_limit(),
            old(self).wf() ==> final(self).wf(),
    {
        if self.memory_handler.is_memory_limit_finished() {
            self.evict_at(now, pick);
        }
        !self.memory_handler.is_memory_limit_finished()
    }
}

} // verus!
