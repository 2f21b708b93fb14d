//! Counters: what a key holds after it was raised or lowered.

use crate::assoc::Name;
use crate::cache::cache::CacheType;
use crate::cache::incr::{counter_of, step_of};
use crate::cache::model::{lookup, CacheModel, EntryModel};
use crate::convert::{le_bytes, lemma_le_signed_of_le_bytes};
use crate::laws::reading::lemma_lookup_bound_same;
use vstd::prelude::*;

verus! {

/// A counter holds the number that was written into it.
pub proof fn lemma_counter_of_bytes(entry: EntryModel, number: int)
    requires
        i32::MIN <= number <= i32::MAX,
        entry.value == le_bytes(number),
    ensures
        counter_of(entry) == Some(number),
{
    lemma_le_signed_of_le_bytes(number);
    assert(entry.value.take(4) =~= entry.value);
}

/// What a key holds after it was made to hold a number.
pub proof fn lemma_read_counted(m: CacheModel, cluster: Name, key: Name, number: int)
    requires
        i32::MIN <= number <= i32::MAX,
    ensures
        m.counted(cluster, key, number).read(cluster, key) matches Some(entry)
            && counter_of(entry) == Some(number) && entry.value
            == le_bytes(number) && (match m.read(cluster, key) {
            Some(held) => entry.kind == held.kind && entry.absolute_expiry
                == held.absolute_expiry && entry.ttl == held.ttl,
            None => entry.kind == CacheType::Int && entry.absolute_expiry is None && entry.ttl
                is None,
        }),
{
    let entry = match lookup(m.store, cluster, key) {
        Some(held) => EntryModel { value: le_bytes(number), ..held },
        None => EntryModel {
            value: le_bytes(number),
            absolute_expiry: None,
            ttl: None,
            kind: CacheType::Int,
        },
    };
    lemma_lookup_bound_same(m, cluster, key, entry);
    lemma_counter_of_bytes(entry, number);
}

/// Raising a key that is not bound makes it a counter that holds the step
/// and never expires: one, where no step is given.
///
/// The write must have been accepted.
pub proof fn law_incr_creates(
    m: CacheModel,
    cluster: Name,
    key: Name,
    value: Option<i32>,
    suppress: bool,
    now: int,
    pick: int,
)
    requires
        m.accepts(now, pick),
        m.make_room(now, pick).read(cluster, key) is None,
    ensures
        m.incr_done(cluster, key, value, now, pick),
        m.incr(cluster, key, value, suppress, now, pick).read(cluster, key) == Some(
            EntryModel {
                value: le_bytes(step_of(value)),
                absolute_expiry: None,
                ttl: None,
                kind: CacheType::Int,
            },
        ),
        counter_of(
            m.incr(cluster, key, value, suppress, now, pick).read(cluster, key)->0,
        ) == Some(step_of(value)),
{
    let cleared = m.make_room(now, pick);
    let step = step_of(value);
    lemma_read_counted(cleared, cluster, key, step);
    assert(m.incr(cluster, key, value, suppress, now, pick).store == cleared.counted(
        cluster,
        key,
        step,
    ).store);
}

/// Raising a counter that holds a number makes it hold the sum, where the
/// sum is a 32-bit number; the entry keeps its kind and its expiry.
///
/// The write must have been accepted.
pub proof fn law_incr_adds(
    m: CacheModel,
    cluster: Name,
    key: Name,
    value: Option<i32>,
    suppress: bool,
    now: int,
    pick: int,
    held: int,
)
    requires
        m.accepts(now, pick),
        m.make_room(now, pick).read(cluster, key) matches Some(entry)
            && counter_of(entry) == Some(held),
        i32::MIN <= held + step_of(value) <= i32::MAX,
    ensures
        m.incr_done(cluster, key, value, now, pick),
        m.incr(cluster, key, value, suppress, now, pick).read(cluster, key) matches Some(entry)
            && counter_of(entry) == Some(
            held + step_of(value),
        ) && entry.kind == m.make_room(now, pick).read(cluster, key)->0.kind
            && entry.absolute_expiry == m.make_room(now, pick).read(
            cluster,
            key,
        )->0.absolute_expiry,
{
    let cleared = m.make_room(now, pick);
    let sum = held + step_of(value);
    lemma_read_counted(cleared, cluster, key, sum);
    assert(m.incr(cluster, key, value, suppress, now, pick).store == cleared.counted(
        cluster,
        key,
        sum,
    ).store);
}

/// Lowering a counter makes it hold the difference, or zero where the
/// difference is less: a counter that was lowered never holds a negative
/// number.
pub proof fn law_decr_clamps(
    m: CacheModel,
    cluster: Name,
    key: Name,
    value: Option<i32>,
    suppress: bool,
    now: int,
    pick: int,
)
    requires
        m.decr_done(cluster, key, value, now, pick),
    ensures
        m.make_room(now, pick).purge(cluster, now).read(cluster, key) matches Some(before)
            && counter_of(before) matches Some(held) && m.decr(
            cluster,
            key,
            value,
            suppress,
            now,
            pick,
        ).read(cluster, key) matches Some(entry) && counter_of(entry)
            == Some(
            if held - step_of(value) <= 0 {
                0
            } else {
                held - step_of(value)
            },
        ),
        counter_of(
            m.decr(cluster, key, value, suppress, now, pick).read(cluster, key)->0,
        )->0 >= 0,
{
    let swept = m.make_room(now, pick).purge(cluster, now);
    let step = step_of(value);
    let number = swept.lowered(cluster, key, step)->0;
    lemma_read_counted(swept, cluster, key, number);
    assert(m.decr(cluster, key, value, suppress, now, pick).store == swept.counted(
        cluster,
        key,
        number,
    ).store);
}

} // verus!
