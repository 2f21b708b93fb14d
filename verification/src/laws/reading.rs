//! Reading what was written: what a lookup finds after a key was bound, and
//! what a sweep leaves of it.

use crate::assoc::{
    binds, distinct, find, first_at, lemma_find_put_other, lemma_find_put_same, lemma_found,
    lemma_missing, lemma_occurs, names_of, put, slot_of, Name,
};
use crate::cache::cache::CacheType;
use crate::cache::model::{
    keys_or_none, lookup, unexpired, well_formed, CacheModel, ClusterModel, EntryModel,
};
use crate::cache::shape::{
    lemma_bound_well_formed, lemma_keys_distinct, lemma_set_well_formed,
    lemma_with_cluster_well_formed,
};
use vstd::prelude::*;

verus! {

/// After a key was bound, a lookup of the key finds what it was bound to.
pub proof fn lemma_lookup_bound_same(m: CacheModel, cluster: Name, key: Name, entry: EntryModel)
    ensures
        lookup(m.bound(cluster, key, entry).store, cluster, key) == Some(entry),
{
    let keys = keys_or_none(m.store, cluster);
    lemma_find_put_same(m.store, cluster, put(keys, key, entry));
    lemma_find_put_same(keys, key, entry);
}

/// After a key was bound, a lookup of another key finds what it found
/// before.
pub proof fn lemma_lookup_bound_other(
    m: CacheModel,
    cluster: Name,
    key: Name,
    entry: EntryModel,
    other_cluster: Name,
    other_key: Name,
)
    requires
        other_cluster != cluster || other_key != key,
    ensures
        lookup(m.bound(cluster, key, entry).store, other_cluster, other_key) == lookup(
            m.store,
            other_cluster,
            other_key,
        ),
{
    let keys = keys_or_none(m.store, cluster);
    if other_cluster != cluster {
        lemma_find_put_other(m.store, cluster, put(keys, key, entry), other_cluster);
    } else {
        lemma_find_put_same(m.store, cluster, put(keys, key, entry));
        lemma_find_put_other(keys, key, entry, other_key);
        if !binds(m.store, cluster) {
            lemma_missing::<EntryModel>(Seq::empty(), other_key);
        }
    }
}

/// What a sweep leaves was there before, and had not expired.
pub proof fn lemma_sweep_from(keys: ClusterModel, now: int, j: int)
    requires
        0 <= j < unexpired(keys, now).len(),
    ensures
        exists|o: int| 0 <= o < keys.len() && #[trigger] keys[o] == unexpired(keys, now)[j],
        !unexpired(keys, now)[j].1.expired(now),
    decreases keys.len(),
{
    let rest = keys.drop_last();
    if keys.last().1.expired(now) {
        lemma_sweep_from(rest, now, j);
        let o = choose|o: int| 0 <= o < rest.len() && #[trigger] rest[o] == unexpired(rest, now)[j];
        assert(keys[o] == unexpired(keys, now)[j]);
    } else if j < unexpired(rest, now).len() {
        lemma_sweep_from(rest, now, j);
        let o = choose|o: int| 0 <= o < rest.len() && #[trigger] rest[o] == unexpired(rest, now)[j];
        assert(keys[o] == unexpired(keys, now)[j]);
    } else {
        assert(keys[keys.len() - 1] == unexpired(keys, now)[j]);
    }
}

/// A sweep leaves a key whose first entry has not expired bound as it was.
pub proof fn lemma_sweep_keeps(keys: ClusterModel, key: Name, now: int)
    requires
        find(keys, key) matches Some(entry) && !entry.expired(now),
    ensures
        find(unexpired(keys, now), key) == find(keys, key),
    decreases keys.len(),
{
    let i = slot_of(keys, key);
    assert(first_at(keys, key, i));
    let rest = keys.drop_last();
    if i == keys.len() - 1 {
        let kept = unexpired(rest, now);
        assert forall|j: int| 0 <= j < kept.len() implies (#[trigger] kept[j]).0 != key by {
            lemma_sweep_from(rest, now, j);
            let origin = choose|o: int| 0 <= o < rest.len() && rest[o] == kept[j];
            assert(keys[origin].0 != key);
        }
        lemma_found(unexpired(keys, now), key, kept.len() as int);
    } else {
        assert(first_at(rest, key, i)) by {
            assert forall|j: int| 0 <= j < i implies (#[trigger] rest[j]).0 != key by {
                assert(keys[j].0 != key);
            }
        }
        lemma_found(rest, key, i);
        lemma_sweep_keeps(rest, key, now);
        let kept = unexpired(rest, now);
        let at = slot_of(kept, key);
        assert(first_at(kept, key, at));
        if keys.last().1.expired(now) {
        } else {
            let all = kept.push(keys.last());
            assert(first_at(all, key, at)) by {
                assert forall|j: int| 0 <= j < at implies (#[trigger] all[j]).0 != key by {
                    assert(kept[j].0 != key);
                }
            }
            lemma_found(all, key, at);
        }
    }
}

/// A sweep of one cluster leaves a key whose entry has not expired bound as
/// it was, and leaves the keys of every other cluster bound as they were.
pub proof fn lemma_lookup_purge(m: CacheModel, cluster: Name, now: int, other: Name, key: Name)
    requires
        other == cluster ==> (lookup(m.store, other, key) matches Some(entry) && !entry.expired(
            now,
        )),
    ensures
        lookup(m.purge(cluster, now).store, other, key) == lookup(m.store, other, key),
{
    if binds(m.store, cluster) {
        let keys = find(m.store, cluster)->0;
        if other == cluster {
            lemma_find_put_same(m.store, cluster, unexpired(keys, now));
            lemma_sweep_keeps(keys, key, now);
        } else {
            lemma_find_put_other(m.store, cluster, unexpired(keys, now), other);
        }
    }
}

/// A value that was written without a time to live is what a read of its
/// key hands back, with the text kind, whenever the read takes place.
///
/// The write must have been accepted: one that finds the engine over its
/// limit, and still over it after an eviction, writes nothing.
pub proof fn law_read_after_write(
    m: CacheModel,
    cluster: Name,
    key: Name,
    value: Seq<u8>,
    suppress: bool,
    now: int,
    pick: int,
    later: int,
)
    requires
        m.accepts(now, pick),
    ensures
        m.set(cluster, key, value, None, suppress, now, pick).purge(cluster, later).read(
            cluster,
            key,
        ) == Some(
            EntryModel { value, absolute_expiry: None, ttl: None, kind: CacheType::Str },
        ),
{
    let entry = EntryModel { value, absolute_expiry: None, ttl: None, kind: CacheType::Str };
    let cleared = m.make_room(now, pick);
    let written = m.set(cluster, key, value, None, suppress, now, pick);
    lemma_lookup_bound_same(cleared, cluster, key, entry);
    assert(written.store == cleared.bound(cluster, key, entry).store);
    lemma_lookup_purge(written, cluster, later, cluster, key);
}

/// In a cluster without repeated keys, a sweep leaves no entry under a key
/// whose entry has expired.
pub proof fn lemma_sweep_drops(keys: ClusterModel, key: Name, now: int)
    requires
        distinct(keys),
        find(keys, key) matches Some(entry) && entry.expired(now),
    ensures
        forall|j: int|
            0 <= j < unexpired(keys, now).len() ==> (#[trigger] unexpired(keys, now)[j]).0 != key,
        find(unexpired(keys, now), key) is None,
{
    let kept = unexpired(keys, now);
    let i = slot_of(keys, key);
    assert(first_at(keys, key, i));
    assert forall|j: int| 0 <= j < kept.len() implies (#[trigger] kept[j]).0 != key by {
        lemma_sweep_from(keys, now, j);
        let o = choose|o: int| 0 <= o < keys.len() && #[trigger] keys[o] == kept[j];
        if o < i {
            assert(keys[o].0 != keys[i].0);
        } else if i < o {
            assert(keys[i].0 != keys[o].0);
        }
    }
    lemma_missing(kept, key);
}

/// A value that was written with a time to live is gone for a read that
/// takes place once that time has passed, and the cluster then lists its
/// key no more.
///
/// The write must have been accepted, and the store must be well formed.
pub proof fn law_expired_is_gone(
    m: CacheModel,
    cluster: Name,
    key: Name,
    value: Seq<u8>,
    ttl: int,
    suppress: bool,
    now: int,
    pick: int,
    later: int,
)
    requires
        well_formed(m.store),
        m.accepts(now, pick),
        later >= now + ttl,
    ensures
        m.set(cluster, key, value, Some(ttl), suppress, now, pick).purge(cluster, later).read(
            cluster,
            key,
        ) is None,
        !names_of(
            keys_or_none(
                m.set(cluster, key, value, Some(ttl), suppress, now, pick).purge(
                    cluster,
                    later,
                ).store,
                cluster,
            ),
        ).contains(key),
{
    let entry = EntryModel {
        value,
        absolute_expiry: Some(now + ttl),
        ttl: Some(ttl),
        kind: CacheType::Str,
    };
    let cleared = m.make_room(now, pick);
    let written = m.set(cluster, key, value, Some(ttl), suppress, now, pick);
    lemma_lookup_bound_same(cleared, cluster, key, entry);
    assert(written.store == cleared.bound(cluster, key, entry).store);
    lemma_set_well_formed(m, cluster, key, value, Some(ttl), suppress, now, pick);
    let keys = keys_or_none(written.store, cluster);
    lemma_keys_distinct(written.store, cluster);
    lemma_sweep_drops(keys, key, later);
    lemma_find_put_same(written.store, cluster, unexpired(keys, later));
    let after = written.purge(cluster, later);
    let left = keys_or_none(after.store, cluster);
    assert(left == unexpired(keys, later));
    if names_of(left).contains(key) {
        let j = choose|j: int| 0 <= j < names_of(left).len() && names_of(left)[j] == key;
        assert(left[j].0 == key);
    }
}

/// A sweep binds no key that was not bound.
pub proof fn lemma_sweep_binds_nothing(keys: ClusterModel, key: Name, now: int)
    requires
        find(keys, key) is None,
    ensures
        find(unexpired(keys, now), key) is None,
{
    let kept = unexpired(keys, now);
    assert forall|j: int| 0 <= j < kept.len() implies (#[trigger] kept[j]).0 != key by {
        lemma_sweep_from(keys, now, j);
        let o = choose|o: int| 0 <= o < keys.len() && #[trigger] keys[o] == kept[j];
        if keys[o].0 == key {
            lemma_occurs(keys, key, o);
        }
    }
    lemma_missing(kept, key);
}

/// A key that was given a time to live is gone for a read that takes place
/// once that time has passed; with no time to live left, for the next
/// read.
///
/// The store must be well formed.
pub proof fn law_expire_then_read(
    m: CacheModel,
    cluster: Name,
    key: Name,
    new_ttl: int,
    now: int,
    later: int,
)
    requires
        well_formed(m.store),
        later >= now + new_ttl,
    ensures
        m.expire_key(cluster, key, new_ttl, now).purge(cluster, later).read(cluster, key) is None,
{
    let made = m.with_cluster(cluster);
    lemma_with_cluster_well_formed(m, cluster);
    lemma_find_put_same(m.store, cluster, keys_or_none(m.store, cluster));
    let after = m.expire_key(cluster, key, new_ttl, now);
    match lookup(made.store, cluster, key) {
        Some(entry) => {
            let renewed = EntryModel {
                absolute_expiry: Some(now + new_ttl),
                ttl: Some(new_ttl),
                ..entry
            };
            lemma_lookup_bound_same(made, cluster, key, renewed);
            lemma_bound_well_formed(made, cluster, key, renewed);
            lemma_keys_distinct(after.store, cluster);
            lemma_sweep_drops(keys_or_none(after.store, cluster), key, later);
        },
        None => {
            lemma_sweep_binds_nothing(keys_or_none(after.store, cluster), key, later);
        },
    }
    lemma_find_put_same(after.store, cluster, unexpired(keys_or_none(after.store, cluster), later));
}

/// On the engine's clock, a key that was given no time to live is gone for
/// the next read, and one that was given some is gone for every read that
/// the clock puts that much later: the clock never shows less than it has
/// shown.
///
/// The store must be well formed.
pub proof fn law_expire_then_read_on_the_clock(
    m: CacheModel,
    cluster: Name,
    key: Name,
    new_ttl: int,
    now: int,
    later: int,
)
    requires
        well_formed(m.store),
        m.seen <= now,
        now + new_ttl <= later,
    ensures
        m.at(now).expire_key(cluster, key, new_ttl, now).seen == now,
        m.at(now).expire_key(cluster, key, new_ttl, now).at(later).purge(cluster, later).read(
            cluster,
            key,
        ) is None,
{
    law_expire_then_read(m.at(now), cluster, key, new_ttl, now, later);
}

/// On the engine's clock, a value that was written with a time to live is
/// gone for every read that the clock puts that much later.
///
/// The write must have been accepted, and the store must be well formed.
pub proof fn law_expired_is_gone_on_the_clock(
    m: CacheModel,
    cluster: Name,
    key: Name,
    value: Seq<u8>,
    ttl: int,
    suppress: bool,
    now: int,
    pick: int,
    later: int,
)
    requires
        well_formed(m.store),
        m.seen <= now,
        m.at(now).accepts(now, pick),
        now + ttl <= later,
    ensures
        m.at(now).set(cluster, key, value, Some(ttl), suppress, now, pick).seen == now,
        m.at(now).set(cluster, key, value, Some(ttl), suppress, now, pick).at(later).purge(
            cluster,
            later,
        ).read(cluster, key) is None,
{
    law_expired_is_gone(m.at(now), cluster, key, value, ttl, suppress, now, pick, later);
}

} // verus!
