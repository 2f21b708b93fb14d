//! The accountant and the store: how the bytes accounted for follow the
//! bytes held.

use crate::assoc::{binds, first_at, put, slot_of, Name};
use crate::cache::cache::CacheType;
use crate::cache::clear_expired::lemma_swept_bytes;
use crate::cache::model::{
    cluster_bytes, keys_or_none, lookup, store_bytes, unexpired, CacheModel, ClusterModel,
    EntryModel, StoreModel,
};
use crate::cache::scan::lemma_unexpired_bytes;
use vstd::prelude::*;

verus! {

/// The accountant holds exactly the bytes of the entries of the store.
pub open spec fn balanced(m: CacheModel) -> bool {
    m.usage == store_bytes(m.store)
}

/// The accountant holds at least the bytes of the entries of the store.
pub open spec fn covered(m: CacheModel) -> bool {
    m.usage >= store_bytes(m.store)
}

/// The bytes of a cluster with one more key.
pub proof fn lemma_cluster_bytes_push(keys: ClusterModel, key: Name, entry: EntryModel)
    ensures
        cluster_bytes(keys.push((key, entry))) == cluster_bytes(keys) + entry.value.len(),
{
    assert(keys.push((key, entry)).drop_last() =~= keys);
}

/// The bytes of a cluster with one key bound anew.
pub proof fn lemma_cluster_bytes_update(keys: ClusterModel, i: int, key: Name, entry: EntryModel)
    requires
        0 <= i < keys.len(),
    ensures
        cluster_bytes(keys.update(i, (key, entry))) == cluster_bytes(keys)
            - keys[i].1.value.len() + entry.value.len(),
        cluster_bytes(keys) >= keys[i].1.value.len(),
    decreases keys.len(),
{
    let after = keys.update(i, (key, entry));
    if i == keys.len() - 1 {
        assert(after.drop_last() =~= keys.drop_last());
    } else {
        lemma_cluster_bytes_update(keys.drop_last(), i, key, entry);
        assert(after.drop_last() =~= keys.drop_last().update(i, (key, entry)));
    }
}

/// The bytes of a cluster without one key.
pub proof fn lemma_cluster_bytes_remove(keys: ClusterModel, i: int)
    requires
        0 <= i < keys.len(),
    ensures
        cluster_bytes(keys.remove(i)) == cluster_bytes(keys) - keys[i].1.value.len(),
    decreases keys.len(),
{
    let after = keys.remove(i);
    if i == keys.len() - 1 {
        assert(after =~= keys.drop_last());
    } else {
        lemma_cluster_bytes_remove(keys.drop_last(), i);
        assert(after.drop_last() =~= keys.drop_last().remove(i));
        assert(after.last() == keys.last());
    }
}

/// The bytes of a store with one more cluster.
pub proof fn lemma_store_bytes_push(store: StoreModel, cluster: Name, keys: ClusterModel)
    ensures
        store_bytes(store.push((cluster, keys))) == store_bytes(store) + cluster_bytes(keys),
{
    assert(store.push((cluster, keys)).drop_last() =~= store);
}

/// The bytes of a store with one cluster bound anew.
pub proof fn lemma_store_bytes_update(store: StoreModel, i: int, cluster: Name, keys: ClusterModel)
    requires
        0 <= i < store.len(),
    ensures
        store_bytes(store.update(i, (cluster, keys))) == store_bytes(store) - cluster_bytes(
            store[i].1,
        ) + cluster_bytes(keys),
        store_bytes(store) >= cluster_bytes(store[i].1),
    decreases store.len(),
{
    let after = store.update(i, (cluster, keys));
    if i == store.len() - 1 {
        assert(after.drop_last() =~= store.drop_last());
    } else {
        lemma_store_bytes_update(store.drop_last(), i, cluster, keys);
        assert(after.drop_last() =~= store.drop_last().update(i, (cluster, keys)));
    }
}

/// The bytes of a store without one cluster.
pub proof fn lemma_store_bytes_remove(store: StoreModel, i: int)
    requires
        0 <= i < store.len(),
    ensures
        store_bytes(store.remove(i)) == store_bytes(store) - cluster_bytes(store[i].1),
    decreases store.len(),
{
    let after = store.remove(i);
    if i == store.len() - 1 {
        assert(after =~= store.drop_last());
    } else {
        lemma_store_bytes_remove(store.drop_last(), i);
        assert(after.drop_last() =~= store.drop_last().remove(i));
        assert(after.last() == store.last());
    }
}

/// The bytes of what a key is bound to, or none.
pub open spec fn held_bytes(entry: Option<EntryModel>) -> nat {
    match entry {
        Some(e) => e.value.len(),
        None => 0,
    }
}

/// The bytes of a store after a key was bound: those of the new entry come
/// in, those of the entry that the key was bound to go out.
pub proof fn lemma_bound_bytes(m: CacheModel, cluster: Name, key: Name, entry: EntryModel)
    ensures
        store_bytes(m.bound(cluster, key, entry).store) == store_bytes(m.store) - held_bytes(
            lookup(m.store, cluster, key),
        ) + entry.value.len(),
        store_bytes(m.store) >= held_bytes(lookup(m.store, cluster, key)),
{
    let keys = keys_or_none(m.store, cluster);
    let after = put(keys, key, entry);
    if binds(keys, key) {
        let si = slot_of(keys, key);
        assert(first_at(keys, key, si));
        lemma_cluster_bytes_update(keys, si, key, entry);
    } else {
        lemma_cluster_bytes_push(keys, key, entry);
    }
    if binds(m.store, cluster) {
        let ci = slot_of(m.store, cluster);
        assert(first_at(m.store, cluster, ci));
        lemma_store_bytes_update(m.store, ci, cluster, after);
    } else {
        lemma_store_bytes_push(m.store, cluster, after);
        assert(cluster_bytes(keys) == 0);
    }
}

/// The bytes of a store after the entry at a place was removed.
pub proof fn lemma_dropped_bytes(m: CacheModel, ci: int, si: int)
    requires
        0 <= ci < m.store.len(),
        0 <= si < m.store[ci].1.len(),
    ensures
        store_bytes(m.dropped_at(ci, si).store) == store_bytes(m.store)
            - m.store[ci].1[si].1.value.len(),
        store_bytes(m.store) >= m.store[ci].1[si].1.value.len(),
{
    let keys = m.store[ci].1;
    lemma_cluster_bytes_remove(keys, si);
    lemma_cluster_bytes_update(keys, si, keys[si].0, keys[si].1);
    lemma_store_bytes_update(m.store, ci, m.store[ci].0, keys.remove(si));
}

/// An eviction keeps the accountant in step with the store.
pub proof fn law_evict_accounting(m: CacheModel, now: int, pick: int)
    ensures
        balanced(m) ==> balanced(m.evict(now, pick)) && balanced(m.make_room(now, pick)),
        covered(m) ==> covered(m.evict(now, pick)) && covered(m.make_room(now, pick)),
{
    if m.has_victim(now, pick) {
        let (ci, si) = m.victim(now, pick);
        assert(m.victim_at(now, pick, ci, si));
        lemma_dropped_bytes(m, ci, si);
    }
}

/// A write keeps the accountant at or above the bytes of the store; and it
/// keeps the two equal where the key was not bound when the value was
/// written. A write over a key that is bound accounts for the new value and
/// gives nothing back for the old.
pub proof fn law_set_accounting(
    m: CacheModel,
    cluster: Name,
    key: Name,
    value: Seq<u8>,
    ttl: Option<int>,
    suppress: bool,
    now: int,
    pick: int,
)
    ensures
        covered(m) ==> covered(m.set(cluster, key, value, ttl, suppress, now, pick)),
        balanced(m) && m.make_room(now, pick).read(cluster, key) is None ==> balanced(
            m.set(cluster, key, value, ttl, suppress, now, pick),
        ),
{
    law_evict_accounting(m, now, pick);
    let cleared = m.make_room(now, pick);
    if !cleared.over_limit() {
        let entry = EntryModel {
            value,
            absolute_expiry: crate::cache::set::expiry_from(now, ttl),
            ttl,
            kind: CacheType::Str,
        };
        lemma_bound_bytes(cleared, cluster, key, entry);
    }
}

/// A removal keeps the accountant in step with the store.
pub proof fn law_delete_accounting(m: CacheModel, cluster: Name, key: Name, suppress: bool)
    ensures
        balanced(m) ==> balanced(m.delete(cluster, key, suppress)),
        covered(m) ==> covered(m.delete(cluster, key, suppress)),
{
    if lookup(m.store, cluster, key) is Some {
        let ci = slot_of(m.store, cluster);
        assert(first_at(m.store, cluster, ci));
        let keys = m.store[ci].1;
        let si = slot_of(keys, key);
        assert(first_at(keys, key, si));
        lemma_dropped_bytes(m, ci, si);
        assert(m.delete(cluster, key, suppress).store =~= m.dropped_at(ci, si).store);
    }
}

/// A sweep of a cluster keeps the accountant in step with the store.
pub proof fn law_purge_accounting(m: CacheModel, cluster: Name, now: int)
    ensures
        balanced(m) ==> balanced(m.purge(cluster, now)),
        covered(m) ==> covered(m.purge(cluster, now)),
{
    if binds(m.store, cluster) {
        let ci = slot_of(m.store, cluster);
        assert(first_at(m.store, cluster, ci));
        let keys = m.store[ci].1;
        lemma_unexpired_bytes(keys, now);
        lemma_store_bytes_update(m.store, ci, cluster, unexpired(keys, now));
    }
}

/// The removal of a cluster keeps the accountant in step with the store.
pub proof fn law_clear_cluster_accounting(m: CacheModel, cluster: Name, suppress: bool)
    ensures
        balanced(m) ==> balanced(m.clear_cluster(cluster, suppress)),
        covered(m) ==> covered(m.clear_cluster(cluster, suppress)),
{
    if binds(m.store, cluster) {
        let ci = slot_of(m.store, cluster);
        assert(first_at(m.store, cluster, ci));
        lemma_store_bytes_remove(m.store, ci);
        lemma_store_bytes_update(m.store, ci, cluster, m.store[ci].1);
    }
}

/// The removal of everything leaves the accountant in step with the store;
/// and it leaves nothing accounted for where the two were equal.
pub proof fn law_clear_all_accounting(m: CacheModel, suppress: bool)
    ensures
        balanced(m) ==> balanced(m.clear_all(suppress)) && m.clear_all(suppress).usage == 0,
        covered(m) ==> covered(m.clear_all(suppress)),
{
}

/// A sweep of the whole store keeps the accountant in step with the store.
pub proof fn law_clear_expired_accounting(m: CacheModel, now: int)
    ensures
        balanced(m) ==> balanced(m.clear_expired(now)),
        covered(m) ==> covered(m.clear_expired(now)),
{
    lemma_swept_bytes(m.store, now);
}

/// A counter operation keeps the accountant at or above the bytes of the
/// store. Every one accounts for four bytes more, whether or not the key was
/// bound.
pub proof fn law_counted_accounting(m: CacheModel, cluster: Name, key: Name, number: int)
    requires
        i32::MIN <= number <= i32::MAX,
    ensures
        covered(m) ==> covered(m.counted(cluster, key, number)),
        balanced(m) && m.read(cluster, key) is None ==> balanced(m.counted(cluster, key, number)),
{
    let entry = match lookup(m.store, cluster, key) {
        Some(held) => EntryModel { value: crate::convert::le_bytes(number), ..held },
        None => EntryModel {
            value: crate::convert::le_bytes(number),
            absolute_expiry: None,
            ttl: None,
            kind: CacheType::Int,
        },
    };
    lemma_bound_bytes(m, cluster, key, entry);
    crate::convert::lemma_le_signed_of_le_bytes(number);
}

/// A step of a run of writes and removals.
pub enum Step {
    /// A write of `value` under `key` of `cluster` at `now`.
    Write {
        cluster: Name,
        key: Name,
        value: Seq<u8>,
        ttl: Option<int>,
        suppress: bool,
        now: int,
        pick: int,
    },
    /// A removal of `key` from `cluster`.
    Remove { cluster: Name, key: Name, suppress: bool },
}

/// The engine after one step.
pub open spec fn step(m: CacheModel, s: Step) -> CacheModel {
    match s {
        Step::Write { cluster, key, value, ttl, suppress, now, pick } => m.set(
            cluster,
            key,
            value,
            ttl,
            suppress,
            now,
            pick,
        ),
        Step::Remove { cluster, key, suppress } => m.delete(cluster, key, suppress),
    }
}

/// The engine after a run of steps.
pub open spec fn run(m: CacheModel, steps: Seq<Step>) -> CacheModel
    decreases steps.len(),
{
    if steps.len() == 0 {
        m
    } else {
        step(run(m, steps.drop_last()), steps.last())
    }
}

/// No write of the run goes over a key that is bound when the value is
/// written.
pub open spec fn writes_fresh(m: CacheModel, steps: Seq<Step>) -> bool
    decreases steps.len(),
{
    if steps.len() == 0 {
        true
    } else {
        &&& writes_fresh(m, steps.drop_last())
        &&& match steps.last() {
            Step::Write { cluster, key, now, pick, .. } => run(m, steps.drop_last()).make_room(
                now,
                pick,
            ).read(cluster, key) is None,
            Step::Remove { .. } => true,
        }
    }
}

/// Through every run of writes and removals the accountant holds at least
/// the bytes of the entries of the store, and never less than nothing; and
/// it holds exactly those bytes where no write went over a key that was
/// bound.
pub proof fn law_accounting_of_runs(m: CacheModel, steps: Seq<Step>)
    ensures
        run(m, steps).usage >= 0,
        covered(m) ==> covered(run(m, steps)),
        balanced(m) && writes_fresh(m, steps) ==> balanced(run(m, steps)),
    decreases steps.len(),
{
    if steps.len() > 0 {
        law_accounting_of_runs(m, steps.drop_last());
        let before = run(m, steps.drop_last());
        match steps.last() {
            Step::Write { cluster, key, value, ttl, suppress, now, pick } => {
                law_set_accounting(before, cluster, key, value, ttl, suppress, now, pick);
            },
            Step::Remove { cluster, key, suppress } => {
                law_delete_accounting(before, cluster, key, suppress);
            },
        }
    }
}

} // verus!
