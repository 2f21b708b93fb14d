//! Raising a counter.

use crate::assoc::Name;
use crate::cache::cache::{Cache, CacheType, Entry};
use crate::cache::model::{lookup, CacheModel, EntryModel};
use crate::convert::{i32_to_vec, le_bytes, le_signed, leading_i32};
use crate::persistent::command::{incr_line, line_of, CommandModel};
use vstd::prelude::*;

verus! {

/// The number that an entry holds as a counter: the one that its first four
/// bytes spell. An entry of fewer bytes holds none.
pub open spec fn counter_of(entry: EntryModel) -> Option<int> {
    if entry.value.len() >= 4 {
        Some(le_signed(entry.value.take(4)))
    } else {
        None
    }
}

/// The step of a counter operation: the number given, or one.
pub open spec fn step_of(value: Option<i32>) -> int {
    match value {
        Some(v) => v as int,
        None => 1,
    }
}

impl CacheModel {
    /// The number that `key` of `cluster` holds once raised by `step`: the
    /// step itself where the key is not bound, and none where the entry
    /// holds no counter or the sum is no 32-bit number.
    pub open spec fn raised(self, cluster: Name, key: Name, step: int) -> Option<int> {
        match lookup(self.store, cluster, key) {
            None => Some(step),
            Some(entry) => match counter_of(entry) {
                Some(held) => if i32::MIN <= held + step <= i32::MAX {
                    Some(held + step)
                } else {
                    None
                },
                None => None,
            },
        }
    }

    /// The engine with `key` of `cluster` holding `number`: an entry that was
    /// there keeps its expiry and its kind, a new one is a counter that never
    /// expires. Four bytes more are accounted for.
    pub open spec fn counted(self, cluster: Name, key: Name, number: int) -> CacheModel {
        self.bound(
            cluster,
            key,
            match lookup(self.store, cluster, key) {
                Some(entry) => EntryModel { value: le_bytes(number), ..entry },
                None => EntryModel {
                    value: le_bytes(number),
                    absolute_expiry: None,
                    ttl: None,
                    kind: CacheType::Int,
                },
            },
        ).charged(4)
    }

    /// Whether raising `key` of `cluster` at `now` is done: the write must be
    /// accepted, and the counter must be able to hold the sum.
    pub open spec fn incr_done(
        self,
        cluster: Name,
        key: Name,
        value: Option<i32>,
        now: int,
        pick: int,
    ) -> bool {
        self.accepts(now, pick) && self.make_room(now, pick).raised(cluster, key, step_of(value))
            is Some
    }

    /// The engine after `key` of `cluster` was raised at `now`.
    ///
    /// The write begins by making room. Where it is done, the key holds the
    /// sum, and the line that is logged carries the sum. Where it is not,
    /// nothing more happened.
    pub open spec fn incr(
        self,
        cluster: Name,
        key: Name,
        value: Option<i32>,
        suppress: bool,
        now: int,
        pick: int,
    ) -> CacheModel {
        let cleared = self.make_room(now, pick);
        if cleared.over_limit() {
            cleared
        } else {
            match cleared.raised(cluster, key, step_of(value)) {
                Some(number) => cleared.counted(cluster, key, number).logged(
                    line_of(CommandModel::Incr { cluster, key, result: number }),
                    suppress,
                ),
                None => cleared,
            }
        }
    }
}

/// Raising a counter.
pub trait INCR {
    /// Raises the counter `key` of `cluster` by `value`, or by one; a key
    /// that is not bound becomes a counter that holds the step. Tells
    /// whether it was done.
    fn incr(
        &mut self,
        cluster: String,
        key: String,
        value: Option<i32>,
        ignore_persistent: bool,
    ) -> bool;
}

impl Cache {
    /// Makes `key` of `cluster` hold `number`, and accounts for four bytes
    /// more.
    pub fn count(&mut self, cluster: String, key: String, number: i32)
        requires
            !old(self)@.over_limit(),
        ensures
            final(self)@ == old(self)@.counted(cluster@, key@, number as int),
    {
        let entry = match self.peek(cluster.as_str(), key.as_str()) {
            Some(held) => Entry {
                value: i32_to_vec(number),
                absolute_expiry: held.absolute_expiry,
                ttl: held.ttl,
                kind: held.kind,
            },
            None => Entry {
                value: i32_to_vec(number),
                absolute_expiry: None,
                ttl: None,
                kind: CacheType::Int,
            },
        };
        self.bind(cluster, key, entry);
        self.charge(4);
    }

    /// The number that `key` of `cluster` holds once raised by `step`.
    pub fn raise(&self, cluster: &str, key: &str, step: i32) -> (number: Option<i32>)
        ensures
            match self@.raised(cluster@, key@, step as int) {
                Some(n) => number == Some(n as i32) && i32::MIN <= n <= i32::MAX,
                None => number is None,
            },
    {
        match self.peek(cluster, key) {
            None => Some(step),
            Some(held) => match leading_i32(&held.value) {
                None => None,
                Some(current) => {
                    let sum: i64 = current as i64 + step as i64;
                    if -2147483648 <= sum && sum <= 2147483647 {
                        Some(sum as i32)
                    } else {
                        None
                    }
                },
            },
        }
    }

    /// Raising a counter at the moment `now`, with `pick` as the number drawn
    /// for a random eviction.
    pub fn incr_at(
        &mut self,
        cluster: String,
        key: String,
        value: Option<i32>,
        ignore_persistent: bool,
        now: u64,
        pick: usize,
    ) -> (done: bool)
        ensures
            done == old(self)@.incr_done(cluster@, key@, value, now as int, pick as int),
            final(self)@ == old(self)@.incr(
                cluster@,
                key@,
                value,
                ignore_persistent,
                now as int,
                pick as int,
            ),
            old(self).wf() ==> final(self).wf(),
    {
        proof {
            if old(self).wf() {
                crate::cache::shape::lemma_incr_well_formed(
                    old(self)@,
                    cluster@,
                    key@,
                    value,
                    ignore_persistent,
                    now as int,
                    pick as int,
                );
            }
        }
        if !self.make_room_at(now, pick) {
            return false;
        }
        let step: i32 = match value {
            Some(v) => v,
            None => 1,
        };
        match self.raise(cluster.as_str(), key.as_str(), step) {
            None => false,
            Some(number) => {
                let line: Option<String> = if self.persistent && !ignore_persistent {
                    Some(incr_line(cluster.as_str(), key.as_str(), number))
                } else {
                    None
                };
                self.count(cluster, key, number);
                match line {
                    Some(text) => {
                        self.log(text);
                    },
                    None => {},
                }
                true
            },
        }
    }
}

impl INCR for Cache {
    /// Raising a counter at the moment the engine's clock shows.
    fn incr(
        &mut self,
        cluster: String,
        key: String,
        value: Option<i32>,
        ignore_persistent: bool,
    ) -> (done: bool)
        ensures
            exists|now: u64, pick: usize|
                {
                    &&& old(self)@.seen <= now
                    &&& done == old(self)@.at(now as int).incr_done(
                        cluster@,
                        key@,
                        value,
                        now as int,
                        pick as int,
                    )
                    &&& final(self)@ == old(self)@.at(now as int).incr(
                        cluster@,
                        key@,
                        value,
                        ignore_persistent,
                        now as int,
                        pick as int,
                    )
                },
            old(self).wf() ==> final(self).wf(),
    {
        let now = self.tick();
        let pick = self.draw();
        self.incr_at(cluster, key, value, ignore_persistent, now, pick)
    }
}

} // verus!
