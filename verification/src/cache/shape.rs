//! Well-formedness: no operation makes a cluster name or a key occur
//! twice.

use crate::assoc::{
    binds, distinct, first_at, lemma_put_distinct, lemma_without_distinct, put, slot_of, without,
    Name,
};
use crate::cache::cache::CacheType;
use crate::cache::incr::step_of;
use crate::cache::model::{
    keys_or_none, lookup, swept, unexpired, well_formed, CacheModel, ClusterModel, EntryModel,
    StoreModel,
};
use crate::cache::set::expiry_from;
use crate::convert::le_bytes;
use crate::laws::reading::lemma_sweep_from;
use crate::persistent::command::CommandModel;
use crate::persistent::parse::parsed;
use vstd::prelude::*;

verus! {

/// A sweep keeps a cluster free of repeated keys.
pub proof fn lemma_sweep_distinct(keys: ClusterModel, now: int)
    requires
        distinct(keys),
    ensures
        distinct(unexpired(keys, now)),
    decreases keys.len(),
{
    if keys.len() > 0 {
        let rest = keys.drop_last();
        assert(distinct(rest)) by {
            assert forall|i: int, j: int| 0 <= i < j < rest.len() implies (#[trigger] rest[i]).0 != (
            #[trigger] rest[j]).0 by {
                assert(keys[i].0 != keys[j].0);
            }
        }
        lemma_sweep_distinct(rest, now);
        if !keys.last().1.expired(now) {
            let kept = unexpired(rest, now);
            let all = kept.push(keys.last());
            assert forall|i: int, j: int| 0 <= i < j < all.len() implies (#[trigger] all[i]).0 != (
            #[trigger] all[j]).0 by {
                if j == kept.len() {
                    lemma_sweep_from(rest, now, i);
                    let o = choose|o: int| 0 <= o < rest.len() && #[trigger] rest[o] == kept[i];
                    assert(keys[o].0 != keys[keys.len() - 1].0);
                } else {
                    assert(kept[i].0 != kept[j].0);
                }
            }
        }
    }
}

/// The keys of a cluster of a well-formed store do not repeat.
pub proof fn lemma_keys_distinct(store: StoreModel, cluster: Name)
    requires
        well_formed(store),
    ensures
        distinct(keys_or_none(store, cluster)),
{
    if binds(store, cluster) {
        let i = slot_of(store, cluster);
        assert(first_at(store, cluster, i));
        assert(distinct(store[i].1));
    }
}

/// Binding a cluster of a well-formed store to keys that do not repeat
/// leaves the store well formed.
pub proof fn lemma_put_well_formed(store: StoreModel, cluster: Name, keys: ClusterModel)
    requires
        well_formed(store),
        distinct(keys),
    ensures
        well_formed(put(store, cluster, keys)),
{
    lemma_put_distinct(store, cluster, keys);
    let after = put(store, cluster, keys);
    assert forall|i: int| 0 <= i < after.len() implies distinct(#[trigger] after[i].1) by {
        if i < store.len() {
            assert(distinct(store[i].1));
        }
    }
}

/// Binding a key leaves the store well formed.
pub proof fn lemma_bound_well_formed(m: CacheModel, cluster: Name, key: Name, entry: EntryModel)
    requires
        well_formed(m.store),
    ensures
        well_formed(m.bound(cluster, key, entry).store),
{
    lemma_keys_distinct(m.store, cluster);
    lemma_put_distinct(keys_or_none(m.store, cluster), key, entry);
    lemma_put_well_formed(m.store, cluster, put(keys_or_none(m.store, cluster), key, entry));
}

/// Making a cluster leaves the store well formed.
pub proof fn lemma_with_cluster_well_formed(m: CacheModel, cluster: Name)
    requires
        well_formed(m.store),
    ensures
        well_formed(m.with_cluster(cluster).store),
{
    lemma_keys_distinct(m.store, cluster);
    lemma_put_well_formed(m.store, cluster, keys_or_none(m.store, cluster));
}

/// Removing the entry at a place leaves the store well formed.
pub proof fn lemma_dropped_well_formed(m: CacheModel, ci: int, si: int)
    requires
        well_formed(m.store),
        0 <= ci < m.store.len(),
        0 <= si < m.store[ci].1.len(),
    ensures
        well_formed(m.dropped_at(ci, si).store),
{
    let keys = m.store[ci].1;
    let after = m.dropped_at(ci, si).store;
    assert(distinct(keys));
    assert(distinct(keys.remove(si))) by {
        let left = keys.remove(si);
        assert forall|i: int, j: int| 0 <= i < j < left.len() implies (#[trigger] left[i]).0 != (
        #[trigger] left[j]).0 by {
            let oi = if i < si {
                i
            } else {
                i + 1
            };
            let oj = if j < si {
                j
            } else {
                j + 1
            };
            assert(left[i] == keys[oi]);
            assert(left[j] == keys[oj]);
            assert(keys[oi].0 != keys[oj].0);
        }
    }
    assert forall|i: int, j: int| 0 <= i < j < after.len() implies (#[trigger] after[i]).0 != (
    #[trigger] after[j]).0 by {
        assert(m.store[i].0 != m.store[j].0);
    }
    assert forall|i: int| 0 <= i < after.len() implies distinct(#[trigger] after[i].1) by {
        if i != ci {
            assert(distinct(m.store[i].1));
        }
    }
}

/// An eviction leaves the store well formed.
pub proof fn lemma_evict_well_formed(m: CacheModel, now: int, pick: int)
    requires
        well_formed(m.store),
    ensures
        well_formed(m.evict(now, pick).store),
        well_formed(m.make_room(now, pick).store),
{
    if m.has_victim(now, pick) {
        let (ci, si) = m.victim(now, pick);
        assert(m.victim_at(now, pick, ci, si));
        lemma_dropped_well_formed(m, ci, si);
    }
}

/// A sweep of a cluster leaves the store well formed.
pub proof fn lemma_purge_well_formed(m: CacheModel, cluster: Name, now: int)
    requires
        well_formed(m.store),
    ensures
        well_formed(m.purge(cluster, now).store),
{
    if binds(m.store, cluster) {
        lemma_keys_distinct(m.store, cluster);
        lemma_sweep_distinct(keys_or_none(m.store, cluster), now);
        lemma_put_well_formed(m.store, cluster, unexpired(keys_or_none(m.store, cluster), now));
    }
}

/// A write leaves the store well formed.
pub proof fn lemma_set_well_formed(
    m: CacheModel,
    cluster: Name,
    key: Name,
    value: Seq<u8>,
    ttl: Option<int>,
    suppress: bool,
    now: int,
    pick: int,
)
    requires
        well_formed(m.store),
    ensures
        well_formed(m.set(cluster, key, value, ttl, suppress, now, pick).store),
{
    lemma_evict_well_formed(m, now, pick);
    let cleared = m.make_room(now, pick);
    if !cleared.over_limit() {
        lemma_bound_well_formed(
            cleared,
            cluster,
            key,
            EntryModel {
                value,
                absolute_expiry: expiry_from(now, ttl),
                ttl,
                kind: CacheType::Str,
            },
        );
    }
}

/// A removal leaves the store well formed.
pub proof fn lemma_delete_well_formed(m: CacheModel, cluster: Name, key: Name, suppress: bool)
    requires
        well_formed(m.store),
    ensures
        well_formed(m.delete(cluster, key, suppress).store),
{
    if lookup(m.store, cluster, key) is Some {
        lemma_keys_distinct(m.store, cluster);
        lemma_without_distinct(keys_or_none(m.store, cluster), key);
        lemma_put_well_formed(m.store, cluster, without(keys_or_none(m.store, cluster), key));
    }
}

/// The removal of a cluster leaves the store well formed.
pub proof fn lemma_clear_cluster_well_formed(m: CacheModel, cluster: Name, suppress: bool)
    requires
        well_formed(m.store),
    ensures
        well_formed(m.clear_cluster(cluster, suppress).store),
{
    if binds(m.store, cluster) {
        lemma_without_distinct(m.store, cluster);
        let k = slot_of(m.store, cluster);
        assert(first_at(m.store, cluster, k));
        let after = without(m.store, cluster);
        assert forall|i: int| 0 <= i < after.len() implies distinct(#[trigger] after[i].1) by {
            let origin = if i < k {
                i
            } else {
                i + 1
            };
            assert(after[i] == m.store[origin]);
            assert(distinct(m.store[origin].1));
        }
    }
}

/// A sweep of the whole store leaves it well formed.
pub proof fn lemma_clear_expired_well_formed(m: CacheModel, now: int)
    requires
        well_formed(m.store),
    ensures
        well_formed(m.clear_expired(now).store),
{
    let after = swept(m.store, now);
    assert forall|i: int, j: int| 0 <= i < j < after.len() implies (#[trigger] after[i]).0 != (
    #[trigger] after[j]).0 by {
        assert(m.store[i].0 != m.store[j].0);
    }
    assert forall|i: int| 0 <= i < after.len() implies distinct(#[trigger] after[i].1) by {
        assert(distinct(m.store[i].1));
        lemma_sweep_distinct(m.store[i].1, now);
    }
}

/// Making a key hold a number leaves the store well formed.
pub proof fn lemma_counted_well_formed(m: CacheModel, cluster: Name, key: Name, number: int)
    requires
        well_formed(m.store),
    ensures
        well_formed(m.counted(cluster, key, number).store),
{
    let entry = match lookup(m.store, cluster, key) {
        Some(held) => EntryModel {
            value: le_bytes(number),
            ..held
        },
        None => EntryModel {
            value: le_bytes(number),
            absolute_expiry: None,
            ttl: None,
            kind: CacheType::Int,
        },
    };
    lemma_bound_well_formed(m, cluster, key, entry);
}

/// The raising of a counter leaves the store well formed.
pub proof fn lemma_incr_well_formed(
    m: CacheModel,
    cluster: Name,
    key: Name,
    value: Option<i32>,
    suppress: bool,
    now: int,
    pick: int,
)
    requires
        well_formed(m.store),
    ensures
        well_formed(m.incr(cluster, key, value, suppress, now, pick).store),
{
    lemma_evict_well_formed(m, now, pick);
    let cleared = m.make_room(now, pick);
    match cleared.raised(cluster, key, step_of(value)) {
        Some(number) => {
            lemma_counted_well_formed(cleared, cluster, key, number);
        },
        None => {},
    }
}

/// The lowering of a counter leaves the store well formed.
pub proof fn lemma_decr_well_formed(
    m: CacheModel,
    cluster: Name,
    key: Name,
    value: Option<i32>,
    suppress: bool,
    now: int,
    pick: int,
)
    requires
        well_formed(m.store),
    ensures
        well_formed(m.decr(cluster, key, value, suppress, now, pick).store),
{
    lemma_evict_well_formed(m, now, pick);
    let cleared = m.make_room(now, pick);
    lemma_purge_well_formed(cleared, cluster, now);
    let swept = cleared.purge(cluster, now);
    match swept.lowered(cluster, key, step_of(value)) {
        Some(number) => {
            lemma_counted_well_formed(swept, cluster, key, number);
        },
        None => {},
    }
}

/// Putting a counter back leaves the store well formed.
pub proof fn lemma_restore_well_formed(
    m: CacheModel,
    cluster: Name,
    key: Name,
    number: int,
    now: int,
    pick: int,
)
    requires
        well_formed(m.store),
    ensures
        well_formed(m.restore(cluster, key, number, now, pick).store),
{
    lemma_evict_well_formed(m, now, pick);
    lemma_counted_well_formed(m.make_room(now, pick), cluster, key, number);
}

/// A new time to live leaves the store well formed.
pub proof fn lemma_expire_key_well_formed(
    m: CacheModel,
    cluster: Name,
    key: Name,
    new_ttl: int,
    now: int,
)
    requires
        well_formed(m.store),
    ensures
        well_formed(m.expire_key(cluster, key, new_ttl, now).store),
{
    lemma_with_cluster_well_formed(m, cluster);
    let made = m.with_cluster(cluster);
    match lookup(made.store, cluster, key) {
        Some(entry) => {
            lemma_bound_well_formed(
                made,
                cluster,
                key,
                EntryModel {
                    absolute_expiry: Some(now + new_ttl),
                    ttl: Some(new_ttl),
                    ..entry
                },
            );
        },
        None => {},
    }
}

/// A copy of pairs into a cluster leaves the store well formed.
pub proof fn lemma_copy_into_well_formed(
    m: CacheModel,
    pairs: Seq<(Name, Seq<u8>)>,
    dst: Name,
    now: int,
    pick: int,
)
    requires
        well_formed(m.store),
    ensures
        well_formed(m.copy_into(pairs, dst, now, pick).store),
    decreases pairs.len(),
{
    if pairs.len() > 0 {
        lemma_copy_into_well_formed(m, pairs.drop_last(), dst, now, pick);
        lemma_set_well_formed(
            m.copy_into(pairs.drop_last(), dst, now, pick),
            dst,
            pairs.last().0,
            pairs.last().1,
            None,
            true,
            now,
            pick,
        );
    }
}

/// A command that is carried out leaves the store well formed.
pub proof fn lemma_apply_well_formed(m: CacheModel, command: CommandModel, now: int, pick: int)
    requires
        well_formed(m.store),
    ensures
        well_formed(m.apply(command, now, pick).store),
{
    match command {
        CommandModel::SetValue { cluster, key, value } => {
            lemma_set_well_formed(m, cluster, key, value, None, true, now, pick);
        },
        CommandModel::Incr { cluster, key, result } => {
            lemma_restore_well_formed(m, cluster, key, result, now, pick);
        },
        CommandModel::Decr { cluster, key, result } => {
            lemma_restore_well_formed(m, cluster, key, result, now, pick);
        },
        CommandModel::Del { cluster, key } => {
            lemma_delete_well_formed(m, cluster, key, true);
        },
        CommandModel::ClearCluster { cluster } => {
            lemma_clear_cluster_well_formed(m, cluster, true);
        },
        CommandModel::ClearAll => {},
    }
}

/// A replay leaves the store well formed.
pub proof fn lemma_replay_well_formed(m: CacheModel, lines: Seq<Seq<char>>, now: int, pick: int)
    requires
        well_formed(m.store),
    ensures
        well_formed(m.replay(lines, now, pick).store),
    decreases lines.len(),
{
    if lines.len() > 0 {
        lemma_replay_well_formed(m, lines.drop_last(), now, pick);
        let before = m.replay(lines.drop_last(), now, pick);
        match parsed(lines.last()) {
            Some(command) => {
                lemma_apply_well_formed(before, command, now, pick);
            },
            None => {},
        }
    }
}

} // verus!
