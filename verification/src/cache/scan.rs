//! Walking the store: finding clusters and keys, and sweeping out what has
//! expired.

use crate::assoc::{binds, first_at, lemma_missing};
use crate::cache::cache::{slots_view, store_view, Cluster, Entry, Slot};
use crate::cache::model::{cluster_bytes, unexpired, ClusterModel};
use crate::memory_handling::memory_handling::{saturating_difference, MemoryHandler};
use crate::outside::str_eq;
use vstd::prelude::*;

verus! {

/// The place of the cluster called `name`.
pub fn find_cluster(clusters: &Vec<Cluster>, name: &str) -> (place: Option<usize>)
    ensures
        match place {
            Some(i) => first_at(store_view(clusters@), name@, i as int),
            None => !binds(store_view(clusters@), name@),
        },
{
    let mut i: usize = 0;
    while i < clusters.len()
        invariant
            i <= clusters.len(),
            forall|j: int| 0 <= j < i ==> (#[trigger] store_view(clusters@)[j]).0 != name@,
        decreases clusters.len() - i,
    {
        if str_eq(clusters[i].name.as_str(), name) {
            return Some(i);
        }
        i = i + 1;
    }
    proof {
        lemma_missing(store_view(clusters@), name@);
    }
    None
}

/// The place of `key` among the keys of a cluster.
pub fn find_slot(slots: &Vec<Slot>, key: &str) -> (place: Option<usize>)
    ensures
        match place {
            Some(i) => first_at(slots_view(slots@), key@, i as int),
            None => !binds(slots_view(slots@), key@),
        },
{
    let mut i: usize = 0;
    while i < slots.len()
        invariant
            i <= slots.len(),
            forall|j: int| 0 <= j < i ==> (#[trigger] slots_view(slots@)[j]).0 != key@,
        decreases slots.len() - i,
    {
        if str_eq(slots[i].key.as_str(), key) {
            return Some(i);
        }
        i = i + 1;
    }
    proof {
        lemma_missing(slots_view(slots@), key@);
    }
    None
}

/// Whether the entry's time has run out at `now`.
pub fn is_expired(entry: &Entry, now: u64) -> (expired: bool)
    ensures
        expired == entry@.expired(now as int),
{
    match entry.absolute_expiry {
        Some(t) => t <= now as u128,
        None => false,
    }
}

/// Whether the entry has a time to live that has not run out at `now`.
pub fn is_volatile(entry: &Entry, now: u64) -> (volatile: bool)
    ensures
        volatile == entry@.volatile(now as int),
{
    match entry.absolute_expiry {
        Some(t) => t > now as u128,
        None => false,
    }
}

/// What is left of a cluster after a sweep weighs no more than the cluster.
pub proof fn lemma_unexpired_bytes(cluster: ClusterModel, now: int)
    ensures
        cluster_bytes(unexpired(cluster, now)) <= cluster_bytes(cluster),
        unexpired(cluster, now).len() <= cluster.len(),
    decreases cluster.len(),
{
    if cluster.len() > 0 {
        lemma_unexpired_bytes(cluster.drop_last(), now);
        if !cluster.last().1.expired(now) {
            let kept = unexpired(cluster.drop_last(), now).push(cluster.last());
            assert(kept.drop_last() =~= unexpired(cluster.drop_last(), now));
        }
    }
}

/// The bytes that a sweep of `cluster` at `now` gives back.
pub open spec fn swept_bytes(cluster: ClusterModel, now: int) -> nat {
    (cluster_bytes(cluster) - cluster_bytes(unexpired(cluster, now))) as nat
}

/// One more key of a cluster, as the sweep sees it.
pub proof fn lemma_sweep_step(cluster: ClusterModel, k: int, now: int)
    requires
        0 <= k < cluster.len(),
    ensures
        unexpired(cluster.take(k + 1), now) == if cluster[k].1.expired(now) {
            unexpired(cluster.take(k), now)
        } else {
            unexpired(cluster.take(k), now).push(cluster[k])
        },
        cluster_bytes(cluster.take(k + 1)) == cluster_bytes(cluster.take(k))
            + cluster[k].1.value.len(),
        swept_bytes(cluster.take(k + 1), now) == swept_bytes(cluster.take(k), now)
            + if cluster[k].1.expired(now) {
            cluster[k].1.value.len()
        } else {
            0
        },
{
    let head = cluster.take(k + 1);
    assert(head.drop_last() =~= cluster.take(k));
    assert(head.last() == cluster[k]);
    lemma_unexpired_bytes(cluster.take(k), now);
    lemma_unexpired_bytes(head, now);
    if !cluster[k].1.expired(now) {
        let kept = unexpired(cluster.take(k), now).push(cluster[k]);
        assert(kept.drop_last() =~= unexpired(cluster.take(k), now));
    }
}

/// Sweeps the expired entries out of the keys of a cluster and gives their
/// bytes back to the accountant.
pub fn purge_slots(slots: Vec<Slot>, now: u64, handler: &mut MemoryHandler) -> (kept: Vec<Slot>)
    ensures
        slots_view(kept@) == unexpired(slots_view(slots@), now as int),
        final(handler).usage() == saturating_difference(
            old(handler).usage(),
            swept_bytes(slots_view(slots@), now as int),
        ),
        final(handler).limit() == old(handler).limit(),
{
    let ghost before = slots_view(slots@);
    let mut kept: Vec<Slot> = Vec::new();
    assert(before.take(0) =~= Seq::empty());
    assert(slots_view(kept@) =~= unexpired(before.take(0), now as int));
    for slot in it: slots.into_iter()
        invariant
            it.seq() == slots@,
            before == slots_view(slots@),
            slots_view(kept@) == unexpired(before.take(it.index() as int), now as int),
            handler.usage() == saturating_difference(
                old(handler).usage(),
                swept_bytes(before.take(it.index() as int), now as int),
            ),
            handler.limit() == old(handler).limit(),
    {
        proof {
            lemma_sweep_step(before, it.index() as int, now as int);
        }
        if is_expired(&slot.entry, now) {
            handler.delete_memory(slot.entry.value.len());
        } else {
            let ghost so_far = slots_view(kept@);
            kept.push(slot);
            assert(slots_view(kept@) =~= so_far.push((slot.key@, slot.entry@)));
        }
    }
    assert(before.take(slots@.len() as int) =~= before);
    kept
}

} // verus!
