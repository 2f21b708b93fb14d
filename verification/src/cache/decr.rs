//! Lowering a counter.

use crate::assoc::Name;
use crate::cache::cache::Cache;
use crate::cache::incr::{counter_of, step_of};
use crate::cache::model::{lookup, CacheModel};
use crate::convert::leading_i32;
use crate::persistent::command::{decr_line, line_of, CommandModel};
use vstd::prelude::*;

verus! {

impl CacheModel {
    /// The number that `key` of `cluster` holds once lowered by `step`: never
    /// less than zero. There is none where the key is not bound, where the
    /// entry holds no counter, or where the difference is too large for a
    /// 32-bit number.
    pub open spec fn lowered(self, cluster: Name, key: Name, step: int) -> Option<int> {
        match lookup(self.store, cluster, key) {
            None => None,
            Some(entry) => match counter_of(entry) {
                Some(held) => if held - step <= 0 {
                    Some(0)
                } else if held - step <= i32::MAX {
                    Some(held - step)
                } else {
                    None
                },
                None => None,
            },
        }
    }

    /// Whether lowering `key` of `cluster` at `now` is done: the write must
    /// be accepted, and the key must hold a counter after the sweep of its
    /// cluster.
    pub open spec fn decr_done(
        self,
        cluster: Name,
        key: Name,
        value: Option<i32>,
        now: int,
        pick: int,
    ) -> bool {
        self.accepts(now, pick) && self.make_room(now, pick).purge(cluster, now).lowered(
            cluster,
            key,
            step_of(value),
        ) is Some
    }

    /// The engine after `key` of `cluster` was lowered at `now`.
    ///
    /// The write begins by making room. Where it is accepted, the expired
    /// entries of the cluster are swept out; and where the key then holds a
    /// counter, it comes to hold the difference, or zero where the
    /// difference is less, and the line that is logged carries that number.
    pub open spec fn decr(
        self,
        cluster: Name,
        key: Name,
        value: Option<i32>,
        suppress: bool,
        now: int,
        pick: int,
    ) -> CacheModel {
        let cleared = self.make_room(now, pick);
        if cleared.over_limit() {
            cleared
        } else {
            let swept = cleared.purge(cluster, now);
            match swept.lowered(cluster, key, step_of(value)) {
                Some(number) => swept.counted(cluster, key, number).logged(
                    line_of(CommandModel::Decr { cluster, key, result: number }),
                    suppress,
                ),
                None => swept,
            }
        }
    }
}

/// Lowering a counter.
pub trait Decr {
    /// Lowers the counter `key` of `cluster` by `value`, or by one, and not
    /// below zero. Tells whether it was done; it is not where the key is not
    /// bound.
    fn decr(
        &mut self,
        cluster: String,
        key: String,
        value: Option<i32>,
        ignore_persistent: bool,
    ) -> bool;
}

impl Cache {
    /// The number that `key` of `cluster` holds once lowered by `step`.
    pub fn lower(&self, cluster: &str, key: &str, step: i32) -> (number: Option<i32>)
        ensures
            match self@.lowered(cluster@, key@, step as int) {
                Some(n) => number == Some(n as i32) && 0 <= n <= i32::MAX,
                None => number is None,
            },
    {
        match self.peek(cluster, key) {
            None => None,
            Some(held) => match leading_i32(&held.value) {
                None => None,
                Some(current) => {
                    let difference: i64 = current as i64 - step as i64;
                    if difference <= 0 {
                        Some(0)
                    } else if difference <= 2147483647 {
                        Some(difference as i32)
                    } else {
                        None
                    }
                },
            },
        }
    }

    /// Lowering a counter at the moment `now`, with `pick` as the number
    /// drawn for a random eviction.
    pub fn decr_at(
        &mut self,
        cluster: String,
        key: String,
        value: Option<i32>,
        ignore_persistent: bool,
        now: u64,
        pick: usize,
    ) -> (done: bool)
        ensures
            done == old(self)@.decr_done(cluster@, key@, value, now as int, pick as int),
            final(self)@ == old(self)@.decr(
                cluster@,
                key@,
                value,
                ignore_persistent,
                now as int,
                pick as int,
            ),
            old(self).wf() ==> final(self).wf(),
    {
        proof {
            if old(self).wf() {
                crate::cache::shape::lemma_decr_well_formed(
                    old(self)@,
                    cluster@,
                    key@,
                    value,
                    ignore_persistent,
                    now as int,
                    pick as int,
                );
            }
        }
        if !self.make_room_at(now, pick) {
            return false;
        }
        self.purge_at(cluster.as_str(), now);
        let step: i32 = match value {
            Some(v) => v,
            None => 1,
        };
        match self.lower(cluster.as_str(), key.as_str(), step) {
            None => false,
            Some(number) => {
                let line: Option<String> = if self.persistent && !ignore_persistent {
                    Some(decr_line(cluster.as_str(), key.as_str(), number))
                } else {
                    None
                };
                proof {
                    lemma_purge_keeps_limit(
                        old(self)@.make_room(now as int, pick as int),
                        cluster@,
                        now as int,
                    );
                }
                self.count(cluster, key, number);
                match line {
                    Some(text) => {
                        self.log(text);
                    },
                    None => {},
                }
                true
            },
        }
    }
}

/// A sweep does not bring an engine over its limit.
pub proof fn lemma_purge_keeps_limit(m: CacheModel, cluster: Name, now: int)
    requires
        !m.over_limit(),
    ensures
        !m.purge(cluster, now).over_limit(),
{
}

impl Decr for Cache {
    /// Lowering a counter at the moment the engine's clock shows.
    fn decr(
        &mut self,
        cluster: String,
        key: String,
        value: Option<i32>,
        ignore_persistent: bool,
    ) -> (done: bool)
        ensures
            exists|now: u64, pick: usize|
                {
                    &&& old(self)@.seen <= now
                    &&& done == old(self)@.at(now as int).decr_done(
                        cluster@,
                        key@,
                        value,
                        now as int,
                        pick as int,
                    )
                    &&& final(self)@ == old(self)@.at(now as int).decr(
                        cluster@,
                        key@,
                        value,
                        ignore_persistent,
                        now as int,
                        pick as int,
                    )
                },
            old(self).wf() ==> final(self).wf(),
    {
        let now = self.tick();
        let pick = self.draw();
        self.decr_at(cluster, key, value, ignore_persistent, now, pick)
    }
}

} // verus!
