//! The engine as plain values, and what each operation makes of them.

use crate::assoc::{find, put, Name};
use crate::cache::cache::{CacheType, EvictionStrategy};
use crate::memory_handling::memory_handling::saturating_difference;
use vstd::prelude::*;

verus! {

/// An entry as plain values. Times are in milliseconds on the engine's clock.
#[verifier::ext_equal]
pub struct EntryModel {
    pub value: Seq<u8>,
    pub absolute_expiry: Option<int>,
    pub ttl: Option<int>,
    pub kind: CacheType,
}

/// The keys of a cluster, in the order in which they were first written,
/// each with its entry.
pub type ClusterModel = Seq<(Name, EntryModel)>;

/// The clusters of a store, in the order in which they were first written,
/// each with its keys.
pub type StoreModel = Seq<(Name, ClusterModel)>;

/// The engine as plain values.
#[verifier::ext_equal]
pub struct CacheModel {
    pub store: StoreModel,
    pub usage: nat,
    pub limit: nat,
    pub evict_type: EvictionStrategy,
    pub port: u16,
    pub enable_log: bool,
    pub persistent: bool,
    pub journal: Seq<Seq<char>>,
    pub seen: nat,
}

impl EntryModel {
    /// The entry's time has run out at `now`.
    pub open spec fn expired(self, now: int) -> bool {
        self.absolute_expiry matches Some(t) && t <= now
    }

    /// The entry has a time to live that has not run out at `now`.
    pub open spec fn volatile(self, now: int) -> bool {
        self.absolute_expiry matches Some(t) && t > now
    }
}

/// The payload bytes of a cluster.
pub open spec fn cluster_bytes(cluster: ClusterModel) -> nat
    decreases cluster.len(),
{
    if cluster.len() == 0 {
        0
    } else {
        cluster_bytes(cluster.drop_last()) + cluster.last().1.value.len()
    }
}

/// The payload bytes of a store.
pub open spec fn store_bytes(store: StoreModel) -> nat
    decreases store.len(),
{
    if store.len() == 0 {
        0
    } else {
        store_bytes(store.drop_last()) + cluster_bytes(store.last().1)
    }
}

/// The number of keys of a store, all clusters together.
pub open spec fn key_count(store: StoreModel) -> nat
    decreases store.len(),
{
    if store.len() == 0 {
        0
    } else {
        key_count(store.drop_last()) + store.last().1.len()
    }
}

/// The entries of a cluster whose time has not run out at `now`, in their
/// order.
pub open spec fn unexpired(cluster: ClusterModel, now: int) -> ClusterModel
    decreases cluster.len(),
{
    if cluster.len() == 0 {
        cluster
    } else if cluster.last().1.expired(now) {
        unexpired(cluster.drop_last(), now)
    } else {
        unexpired(cluster.drop_last(), now).push(cluster.last())
    }
}

/// Every cluster of a store with only the entries whose time has not run out
/// at `now`.
pub open spec fn swept(store: StoreModel, now: int) -> StoreModel {
    Seq::new(store.len(), |i: int| (store[i].0, unexpired(store[i].1, now)))
}

/// No cluster name occurs twice, and within a cluster no key.
pub open spec fn well_formed(store: StoreModel) -> bool {
    &&& crate::assoc::distinct(store)
    &&& forall|i: int| 0 <= i < store.len() ==> crate::assoc::distinct(#[trigger] store[i].1)
}

/// What `key` of `cluster` is bound to.
pub open spec fn lookup(store: StoreModel, cluster: Name, key: Name) -> Option<EntryModel> {
    match find(store, cluster) {
        Some(keys) => find(keys, key),
        None => None,
    }
}

/// The keys of `cluster`, or none where the store has no such cluster.
pub open spec fn keys_or_none(store: StoreModel, cluster: Name) -> ClusterModel {
    match find(store, cluster) {
        Some(keys) => keys,
        None => Seq::empty(),
    }
}

/// The place `(ci, si)` holds an entry that the strategy may give up at `now`.
pub open spec fn candidate(
    store: StoreModel,
    strategy: EvictionStrategy,
    now: int,
    ci: int,
    si: int,
) -> bool {
    &&& 0 <= ci < store.len()
    &&& 0 <= si < store[ci].1.len()
    &&& strategy.volatile_only() ==> store[ci].1[si].1.volatile(now)
}

/// The place `(ci, si)` comes before the place `(cj, sj)` when the store is
/// walked cluster by cluster and key by key.
pub open spec fn earlier(ci: int, si: int, cj: int, sj: int) -> bool {
    ci < cj || (ci == cj && si < sj)
}

/// `(ci, si)` is the first place that holds an entry which the strategy may
/// give up at `now`.
pub open spec fn first_candidate(
    store: StoreModel,
    strategy: EvictionStrategy,
    now: int,
    ci: int,
    si: int,
) -> bool {
    &&& candidate(store, strategy, now, ci, si)
    &&& forall|cj: int, sj: int|
        earlier(cj, sj, ci, si) ==> !#[trigger] candidate(store, strategy, now, cj, sj)
}

/// `(ci, si)` is the place of the key that is met after `n` others when the
/// store is walked cluster by cluster and key by key.
pub open spec fn nth_key(store: StoreModel, n: int, ci: int, si: int) -> bool {
    &&& 0 <= ci < store.len()
    &&& 0 <= si < store[ci].1.len()
    &&& key_count(store.take(ci)) + si == n
}

impl CacheModel {
    /// The engine with its clock at `now`: the latest moment that the clock
    /// has shown.
    pub open spec fn at(self, now: int) -> CacheModel {
        CacheModel { seen: now as nat, ..self }
    }

    /// More is accounted for than the ceiling allows.
    pub open spec fn over_limit(self) -> bool {
        self.usage > self.limit
    }

    /// The engine with `bytes` given back to the accountant.
    pub open spec fn freed(self, bytes: nat) -> CacheModel {
        CacheModel { usage: saturating_difference(self.usage, bytes), ..self }
    }

    /// The engine with `bytes` more accounted for.
    pub open spec fn charged(self, bytes: nat) -> CacheModel {
        CacheModel { usage: self.usage + bytes, ..self }
    }

    /// The engine with `line` added to the log, where the engine persists and
    /// the caller did not suppress it.
    pub open spec fn logged(self, line: Seq<char>, suppress: bool) -> CacheModel {
        if self.persistent && !suppress {
            CacheModel { journal: self.journal.push(line), ..self }
        } else {
            self
        }
    }

    /// The engine with `cluster` in its store: made empty, at the end, where
    /// it was missing.
    pub open spec fn with_cluster(self, cluster: Name) -> CacheModel {
        CacheModel {
            store: put(self.store, cluster, keys_or_none(self.store, cluster)),
            ..self
        }
    }

    /// The engine with `key` of `cluster` bound to `entry`; the cluster is
    /// made where it was missing.
    pub open spec fn bound(self, cluster: Name, key: Name, entry: EntryModel) -> CacheModel {
        CacheModel {
            store: put(self.store, cluster, put(keys_or_none(self.store, cluster), key, entry)),
            ..self
        }
    }

    /// An eviction calls for a draw: the strategy is random, and the store
    /// holds keys, no more of them than a `usize` counts.
    pub open spec fn draws(self) -> bool {
        self.evict_type == EvictionStrategy::AllKeysRandom && 0 < key_count(self.store)
            <= usize::MAX
    }

    /// `(ci, si)` is the place of the entry that an eviction at `now` gives
    /// up, `pick` being the number drawn for it.
    pub open spec fn victim_at(self, now: int, pick: int, ci: int, si: int) -> bool {
        if self.evict_type == EvictionStrategy::AllKeysRandom {
            key_count(self.store) > 0 && nth_key(
                self.store,
                pick % (key_count(self.store) as int),
                ci,
                si,
            )
        } else {
            first_candidate(self.store, self.evict_type, now, ci, si)
        }
    }

    /// An eviction at `now` finds an entry to give up.
    pub open spec fn has_victim(self, now: int, pick: int) -> bool {
        exists|ci: int, si: int| self.victim_at(now, pick, ci, si)
    }

    /// The place of the entry that an eviction at `now` gives up.
    pub open spec fn victim(self, now: int, pick: int) -> (int, int) {
        choose|ci: int, si: int| self.victim_at(now, pick, ci, si)
    }

    /// The engine without the entry at `(ci, si)`, its bytes given back.
    pub open spec fn dropped_at(self, ci: int, si: int) -> CacheModel {
        CacheModel {
            store: self.store.update(ci, (self.store[ci].0, self.store[ci].1.remove(si))),
            ..self
        }.freed(self.store[ci].1[si].1.value.len())
    }

    /// One eviction at `now`: the entry that the strategy picks is removed and
    /// its bytes are given back; where it picks none, nothing changes.
    pub open spec fn evict(self, now: int, pick: int) -> CacheModel {
        if self.has_victim(now, pick) {
            self.dropped_at(self.victim(now, pick).0, self.victim(now, pick).1)
        } else {
            self
        }
    }

    /// What every write does first: one eviction where the engine is over its
    /// limit.
    pub open spec fn make_room(self, now: int, pick: int) -> CacheModel {
        if self.over_limit() {
            self.evict(now, pick)
        } else {
            self
        }
    }

    /// The engine with the expired entries of `cluster` removed and their
    /// bytes given back.
    pub open spec fn purge(self, cluster: Name, now: int) -> CacheModel {
        match find(self.store, cluster) {
            Some(keys) => CacheModel {
                store: put(self.store, cluster, unexpired(keys, now)),
                ..self
            }.freed((cluster_bytes(keys) - cluster_bytes(unexpired(keys, now))) as nat),
            None => self,
        }
    }
}

} // verus!
