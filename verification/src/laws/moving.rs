//! Copying and moving clusters: what the destination holds afterwards.

use crate::assoc::{
    distinct, find, first_at, lemma_find_put_other, lemma_find_without_other,
    lemma_find_without_same, lemma_occurs, names_of, slot_of, Name,
};
use crate::cache::cache::CacheType;
use crate::cache::model::{keys_or_none, lookup, well_formed, CacheModel, ClusterModel, EntryModel};
use crate::cache::move_cluster::payloads;
use crate::cache::shape::lemma_bound_well_formed;
use crate::laws::reading::{lemma_lookup_bound_other, lemma_lookup_bound_same};
use vstd::prelude::*;

verus! {

/// No write of the copy of `pairs` into `dst` finds the engine over its
/// limit, so that none evicts anything.
pub open spec fn copies_unpressed(
    m: CacheModel,
    pairs: Seq<(Name, Seq<u8>)>,
    dst: Name,
    now: int,
    pick: int,
) -> bool
    decreases pairs.len(),
{
    if pairs.len() == 0 {
        true
    } else {
        &&& copies_unpressed(m, pairs.drop_last(), dst, now, pick)
        &&& !m.copy_into(pairs.drop_last(), dst, now, pick).over_limit()
    }
}

/// The key is bound, and to these bytes.
pub open spec fn holds_bytes(entry: Option<EntryModel>, value: Seq<u8>) -> bool {
    entry matches Some(e) && e.value == value
}

/// The entry that a copied value is written as.
pub open spec fn copied_entry(value: Seq<u8>) -> EntryModel {
    EntryModel { value, absolute_expiry: None, ttl: None, kind: CacheType::Str }
}

/// What a copy without evictions leaves: every write is accepted, the store
/// stays well formed, the other clusters are as they were, and the
/// destination binds every key copied to its value.
pub proof fn lemma_copy_into(m: CacheModel, pairs: Seq<(Name, Seq<u8>)>, dst: Name, now: int, pick: int)
    requires
        well_formed(m.store),
        distinct(pairs),
        copies_unpressed(m, pairs, dst, now, pick),
    ensures
        m.copies_accepted(pairs, dst, now, pick),
        well_formed(m.copy_into(pairs, dst, now, pick).store),
        forall|other: Name|
            other != dst ==> #[trigger] find(m.copy_into(pairs, dst, now, pick).store, other)
                == find(m.store, other),
        forall|i: int|
            0 <= i < pairs.len() ==> lookup(
                m.copy_into(pairs, dst, now, pick).store,
                dst,
                (#[trigger] pairs[i]).0,
            ) == Some(copied_entry(pairs[i].1)),
    decreases pairs.len(),
{
    if pairs.len() > 0 {
        let head = pairs.drop_last();
        assert(distinct(head)) by {
            assert forall|i: int, j: int| 0 <= i < j < head.len() implies (#[trigger] head[i]).0 != (
            #[trigger] head[j]).0 by {
                assert(pairs[i].0 != pairs[j].0);
            }
        }
        lemma_copy_into(m, head, dst, now, pick);
        let before = m.copy_into(head, dst, now, pick);
        let after = m.copy_into(pairs, dst, now, pick);
        let key = pairs.last().0;
        let entry = copied_entry(pairs.last().1);
        assert(before.make_room(now, pick) == before);
        assert(after.store == before.bound(dst, key, entry).store);
        lemma_bound_well_formed(before, dst, key, entry);
        assert forall|other: Name| other != dst implies #[trigger] find(after.store, other)
            == find(m.store, other) by {
            lemma_find_put_other(
                before.store,
                dst,
                crate::assoc::put(keys_or_none(before.store, dst), key, entry),
                other,
            );
        }
        assert forall|i: int| 0 <= i < pairs.len() implies lookup(
            after.store,
            dst,
            (#[trigger] pairs[i]).0,
        ) == Some(copied_entry(pairs[i].1)) by {
            if i == pairs.len() - 1 {
                lemma_lookup_bound_same(before, dst, key, entry);
            } else {
                assert(pairs[i].0 != pairs[pairs.len() - 1].0);
                assert(head[i] == pairs[i]);
                lemma_lookup_bound_other(before, dst, key, entry, dst, pairs[i].0);
            }
        }
    }
}

/// The keys of a cluster without repeated keys, with their bytes, do not
/// repeat.
pub proof fn lemma_payloads_distinct(keys: ClusterModel)
    requires
        distinct(keys),
    ensures
        distinct(payloads(keys)),
{
    let pairs = payloads(keys);
    assert forall|i: int, j: int| 0 <= i < j < pairs.len() implies (#[trigger] pairs[i]).0 != (
    #[trigger] pairs[j]).0 by {
        assert(keys[i].0 != keys[j].0);
    }
}

/// A copy of a cluster into another leaves the destination holding every
/// key that the source held when the copy began, with the same bytes, and
/// leaves the source as it was.
///
/// The store must be well formed, the two clusters must differ, and no write
/// of the copy may find the engine over its limit: a write that does evicts
/// an entry, which may be one that was copied a moment before.
pub proof fn law_copy_cluster(m: CacheModel, src: Name, dst: Name, now: int, pick: int)
    requires
        well_formed(m.store),
        src != dst,
        find(m.store, src) is Some,
        copies_unpressed(m, payloads(find(m.store, src)->0), dst, now, pick),
    ensures
        m.copy_done(src, dst, now, pick),
        find(m.move_cluster_value(src, dst, now, pick).store, src) == find(m.store, src),
        forall|i: int|
            0 <= i < find(m.store, src)->0.len() ==> holds_bytes(
                lookup(
                    m.move_cluster_value(src, dst, now, pick).store,
                    dst,
                    (#[trigger] find(m.store, src)->0[i]).0,
                ),
                find(m.store, src)->0[i].1.value,
            ),
{
    let keys = find(m.store, src)->0;
    let pairs = payloads(keys);
    let ci = slot_of(m.store, src);
    assert(first_at(m.store, src, ci));
    assert(distinct(m.store[ci].1));
    lemma_payloads_distinct(keys);
    lemma_copy_into(m, pairs, dst, now, pick);
    let copied = m.move_cluster_value(src, dst, now, pick);
    assert forall|i: int| 0 <= i < keys.len() implies holds_bytes(
        lookup(copied.store, dst, (#[trigger] keys[i]).0),
        keys[i].1.value,
    ) by {
        assert(pairs[i].0 == keys[i].0);
    }
}

/// A move of a cluster into another leaves the store without the source,
/// and leaves the destination holding every key that the source held when
/// the move began, with the same bytes.
///
/// The store must be well formed, the two clusters must differ, and no write
/// of the move may find the engine over its limit: a write that does evicts
/// an entry, which may be one that was copied a moment before.
pub proof fn law_move_cluster(m: CacheModel, src: Name, dst: Name, now: int, pick: int)
    requires
        well_formed(m.store),
        src != dst,
        find(m.store, src) is Some,
        copies_unpressed(m, payloads(find(m.store, src)->0), dst, now, pick),
    ensures
        m.copy_done(src, dst, now, pick),
        find(m.move_cluster(src, dst, now, pick).store, src) is None,
        !names_of(m.move_cluster(src, dst, now, pick).store).contains(src),
        forall|i: int|
            0 <= i < find(m.store, src)->0.len() ==> holds_bytes(
                lookup(
                    m.move_cluster(src, dst, now, pick).store,
                    dst,
                    (#[trigger] find(m.store, src)->0[i]).0,
                ),
                find(m.store, src)->0[i].1.value,
            ),
{
    let keys = find(m.store, src)->0;
    law_copy_cluster(m, src, dst, now, pick);
    let ci = slot_of(m.store, src);
    assert(first_at(m.store, src, ci));
    assert(distinct(m.store[ci].1));
    lemma_payloads_distinct(keys);
    lemma_copy_into(m, payloads(keys), dst, now, pick);
    let copied = m.move_cluster_value(src, dst, now, pick);
    let moved = m.move_cluster(src, dst, now, pick);
    assert(moved.store == crate::assoc::without(copied.store, src));
    lemma_find_without_same(copied.store, src);
    lemma_find_without_other(copied.store, src, dst);
    if names_of(moved.store).contains(src) {
        let j = choose|j: int| 0 <= j < names_of(moved.store).len() && names_of(moved.store)[j]
            == src;
        lemma_occurs(moved.store, src, j);
    }
    assert forall|i: int| 0 <= i < keys.len() implies holds_bytes(
        lookup(moved.store, dst, (#[trigger] keys[i]).0),
        keys[i].1.value,
    ) by {
        assert(holds_bytes(lookup(copied.store, dst, keys[i].0), keys[i].1.value));
    }
}

} // verus!
