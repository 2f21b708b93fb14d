//! Removing a cluster.

use crate::assoc::{find, lemma_found, without, Name};
use crate::cache::cache::{slots_view, Cache, Slot};
use crate::cache::model::{cluster_bytes, CacheModel, ClusterModel};
use crate::cache::scan::find_cluster;
use crate::memory_handling::memory_handling::{saturating_difference, MemoryHandler};
use crate::persistent::command::{clear_cluster_line, line_of, CommandModel};
use vstd::prelude::*;

verus! {

/// One more key of a cluster, as a count of bytes sees it.
pub proof fn lemma_cluster_bytes_step(cluster: ClusterModel, k: int)
    requires
        0 <= k < cluster.len(),
    ensures
        cluster_bytes(cluster.take(k + 1)) == cluster_bytes(cluster.take(k))
            + cluster[k].1.value.len(),
{
    assert(cluster.take(k + 1).drop_last() =~= cluster.take(k));
}

/// Gives the bytes of every entry of a cluster back to the accountant.
pub fn release(slots: &Vec<Slot>, handler: &mut MemoryHandler)
    ensures
        final(handler).usage() == saturating_difference(
            old(handler).usage(),
            cluster_bytes(slots_view(slots@)),
        ),
        final(handler).limit() == old(handler).limit(),
{
    let ghost keys = slots_view(slots@);
    let mut i: usize = 0;
    assert(keys.take(0) =~= Seq::empty());
    while i < slots.len()
        invariant
            i <= slots.len(),
            keys == slots_view(slots@),
            handler.usage() == saturating_difference(
                old(handler).usage(),
                cluster_bytes(keys.take(i as int)),
            ),
            handler.limit() == old(handler).limit(),
        decreases slots.len() - i,
    {
        proof {
            lemma_cluster_bytes_step(keys, i as int);
        }
        handler.delete_memory(slots[i].entry.value.len());
        i = i + 1;
    }
    assert(keys.take(slots.len() as int) =~= keys);
}

impl CacheModel {
    /// The engine without `cluster`: where the store had it, the cluster is
    /// removed with all its keys, their bytes are given back, and the removal
    /// is logged; where it had not, nothing changes.
    pub open spec fn clear_cluster(self, cluster: Name, suppress: bool) -> CacheModel {
        match find(self.store, cluster) {
            Some(keys) => CacheModel { store: without(self.store, cluster), ..self }.freed(
                cluster_bytes(keys),
            ).logged(line_of(CommandModel::ClearCluster { cluster }), suppress),
            None => self,
        }
    }
}

/// Removing a cluster.
pub trait ClearCluster {
    /// Removes `cluster` and all its keys.
    fn clear_cluster(&mut self, cluster: &str, ignore_persistent: bool);
}

impl ClearCluster for Cache {
    fn clear_cluster(&mut self, cluster: &str, ignore_persistent: bool)
        ensures
            final(self)@ == old(self)@.clear_cluster(cluster@, ignore_persistent),
            old(self).wf() ==> final(self).wf(),
    {
        proof {
            if old(self).wf() {
                crate::cache::shape::lemma_clear_cluster_well_formed(
                    old(self)@,
                    cluster@,
                    ignore_persistent,
                );
            }
        }
        match find_cluster(&self.store, cluster) {
            None => {},
            Some(ci) => {
                proof {
                    lemma_found(self@.store, cluster@, ci as int);
                }
                let removed = self.store.remove(ci);
                assert(self@.store =~= old(self)@.store.remove(ci as int));
                release(&removed.slots, &mut self.memory_handler);
                if self.persistent && !ignore_persistent {
                    self.log(clear_cluster_line(cluster));
                }
            },
        }
    }
}

} // verus!
