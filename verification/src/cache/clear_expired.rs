//! Sweeping out every expired entry.

use crate::cache::cache::Cache;
use crate::cache::model::{store_bytes, swept, CacheModel, StoreModel};
use crate::cache::scan::{lemma_unexpired_bytes, swept_bytes};
use vstd::prelude::*;

verus! {

/// The bytes that a sweep of the whole store at `now` gives back.
pub open spec fn store_swept_bytes(store: StoreModel, now: int) -> nat {
    (store_bytes(store) - store_bytes(swept(store, now))) as nat
}

/// What is left of a store after a sweep weighs no more than the store.
pub proof fn lemma_swept_bytes(store: StoreModel, now: int)
    ensures
        store_bytes(swept(store, now)) <= store_bytes(store),
    decreases store.len(),
{
    if store.len() > 0 {
        lemma_swept_bytes(store.drop_last(), now);
        lemma_unexpired_bytes(store.last().1, now);
        assert(swept(store, now).drop_last() =~= swept(store.drop_last(), now));
    }
}

/// One more cluster, as the sweep of the store sees it.
pub proof fn lemma_store_sweep_step(store: StoreModel, ci: int, now: int)
    requires
        0 <= ci < store.len(),
    ensures
        store_swept_bytes(store.take(ci + 1), now) == store_swept_bytes(store.take(ci), now)
            + swept_bytes(store[ci].1, now),
{
    let head = store.take(ci + 1);
    assert(head.drop_last() =~= store.take(ci));
    assert(swept(head, now).drop_last() =~= swept(store.take(ci), now));
    lemma_swept_bytes(store.take(ci), now);
    lemma_swept_bytes(head, now);
    lemma_unexpired_bytes(store[ci].1, now);
}

impl CacheModel {
    /// The engine with the expired entries of every cluster removed and
    /// their bytes given back.
    pub open spec fn clear_expired(self, now: int) -> CacheModel {
        CacheModel { store: swept(self.store, now), ..self }.freed(
            store_swept_bytes(self.store, now),
        )
    }
}

/// Sweeping out every expired entry.
pub trait ClearExpired {
    /// Removes, from every cluster, the entries whose time has run out.
    fn clear_expired(&mut self);
}

impl Cache {
    /// A sweep of the whole store at the moment `now`.
    pub fn clear_expired_at(&mut self, now: u64)
        ensures
            final(self)@ == old(self)@.clear_expired(now as int),
            old(self).wf() ==> final(self).wf(),
    {
        proof {
            if old(self).wf() {
                crate::cache::shape::lemma_clear_expired_well_formed(old(self)@, now as int);
            }
        }
        let ghost before = self@;
        let mut ci: usize = 0;
        assert(before.store.take(0) =~= Seq::empty());
        while ci < self.store.len()
            invariant
                ci <= self.store.len(),
                self.store.len() == before.store.len(),
                before == old(self)@,
                self@.store == Seq::new(
                    before.store.len(),
                    |i: int|
                        if i < ci {
                            swept(before.store, now as int)[i]
                        } else {
                            before.store[i]
                        },
                ),
                self@ == (CacheModel { store: self@.store, ..before }).freed(
                    store_swept_bytes(before.store.take(ci as int), now as int),
                ),
            decreases self.store.len() - ci,
        {
            let ghost mid = self@;
            proof {
                lemma_store_sweep_step(before.store, ci as int, now as int);
            }
            self.purge_cluster(ci, now);
            proof {
                assert(mid.store[ci as int] == before.store[ci as int]);
                assert(self@.store =~= Seq::new(
                    before.store.len(),
                    |i: int|
                        if i < ci + 1 {
                            swept(before.store, now as int)[i]
                        } else {
                            before.store[i]
                        },
                ));
            }
            ci = ci + 1;
        }
        proof {
            assert(before.store.take(self.store.len() as int) =~= before.store);
            assert(self@.store =~= swept(before.store, now as int));
        }
    }
}

impl ClearExpired for Cache {
    /// A sweep of the whole store at the moment the engine's clock shows.
    fn clear_expired(&mut self)
        ensures
            exists|now: u64|
                old(self)@.seen <= now && final(self)@ == old(self)@.at(now as int).clear_expired(now as int),
            old(self).wf() ==> final(self).wf(),
    {
        let now = self.tick();
        self.clear_expired_at(now);
    }
}

} // verus!
