//! Removing everything.

use crate::cache::cache::{Cache, Cluster};
use crate::cache::clear_cluster::release;
use crate::cache::model::{cluster_bytes, store_bytes, CacheModel, StoreModel};
use crate::memory_handling::memory_handling::saturating_difference;
use crate::persistent::command::{clear_all_line, line_of, CommandModel};
use vstd::prelude::*;

verus! {

/// One more cluster, as a count of bytes sees it.
pub proof fn lemma_store_bytes_step(store: StoreModel, ci: int)
    requires
        0 <= ci < store.len(),
    ensures
        store_bytes(store.take(ci + 1)) == store_bytes(store.take(ci))
            + cluster_bytes(store[ci].1),
{
    assert(store.take(ci + 1).drop_last() =~= store.take(ci));
}

impl CacheModel {
    /// The engine with an empty store: the bytes of all entries are given
    /// back, and the removal is logged.
    pub open spec fn clear_all(self, suppress: bool) -> CacheModel {
        CacheModel { store: Seq::empty(), ..self }.freed(store_bytes(self.store)).logged(
            line_of(CommandModel::ClearAll),
            suppress,
        )
    }
}

/// Removing every cluster.
pub trait ClearAll {
    /// Removes every cluster and all their keys.
    fn clear_all(&mut self, ignore_persistent: bool);
}

impl ClearAll for Cache {
    fn clear_all(&mut self, ignore_persistent: bool)
        ensures
            final(self)@ == old(self)@.clear_all(ignore_persistent),
            final(self).wf(),
    {
        let mut ci: usize = 0;
        assert(self@.store.take(0) =~= Seq::empty());
        while ci < self.store.len()
            invariant
                ci <= self.store.len(),
                self.store == old(self).store,
                self.evict_type == old(self).evict_type,
                self.port == old(self).port,
                self.enable_log == old(self).enable_log,
                self.persistent == old(self).persistent,
                self.pending == old(self).pending,
                self.seen == old(self).seen,
                self.memory_handler.limit() == old(self).memory_handler.limit(),
                self.memory_handler.usage() == saturating_difference(
                    old(self).memory_handler.usage(),
                    store_bytes(self@.store.take(ci as int)),
                ),
            decreases self.store.len() - ci,
        {
            proof {
                lemma_store_bytes_step(self@.store, ci as int);
            }
            release(&self.store[ci].slots, &mut self.memory_handler);
            ci = ci + 1;
        }
        assert(self@.store.take(self.store.len() as int) =~= self@.store);
        let emptied: Vec<Cluster> = Vec::new();
        self.store = emptied;
        assert(self@.store =~= Seq::empty());
        if self.persistent && !ignore_persistent {
            self.log(clear_all_line());
        }
    }
}

} // verus!
