//! Writing a value.

use crate::assoc::Name;
use crate::cache::cache::{lines_view, Cache, CacheType, Entry};
use crate::cache::model::{CacheModel, EntryModel};
use crate::persistent::command::{line_of, set_line, CommandModel};
use vstd::prelude::*;

verus! {

/// The moment at which a time to live that starts at `now` runs out.
pub open spec fn expiry_from(now: int, ttl: Option<int>) -> Option<int> {
    match ttl {
        Some(t) => Some(now + t),
        None => None,
    }
}

/// A time to live as the model has it.
pub open spec fn ttl_model(ttl: Option<u64>) -> Option<int> {
    match ttl {
        Some(t) => Some(t as int),
        None => None,
    }
}

impl CacheModel {
    /// Whether a write at `now` is accepted: it is unless the engine is over
    /// its limit and still is after one eviction.
    pub open spec fn accepts(self, now: int, pick: int) -> bool {
        !self.make_room(now, pick).over_limit()
    }

    /// The engine after the write of `value` under `key` of `cluster` at
    /// `now`.
    ///
    /// The write begins by making room. Where it is not accepted, nothing
    /// more happens. Where it is, the key is bound to a text entry that
    /// expires `ttl` after `now`, or never; the bytes of the value are
    /// accounted for; and a write without a time to live is logged.
    pub open spec fn set(
        self,
        cluster: Name,
        key: Name,
        value: Seq<u8>,
        ttl: Option<int>,
        suppress: bool,
        now: int,
        pick: int,
    ) -> CacheModel {
        let cleared = self.make_room(now, pick);
        if cleared.over_limit() {
            cleared
        } else {
            let written = cleared.bound(
                cluster,
                key,
                EntryModel {
                    value,
                    absolute_expiry: expiry_from(now, ttl),
                    ttl,
                    kind: CacheType::Str,
                },
            ).charged(value.len());
            if ttl is None {
                written.logged(
                    line_of(CommandModel::SetValue { cluster, key, value }),
                    suppress,
                )
            } else {
                written
            }
        }
    }
}

/// Writing a value under a cluster and a key.
pub trait SetValue {
    /// Binds `key` of `cluster` to `value`, to expire after `ttl`
    /// milliseconds where one is given. Tells whether the write was accepted.
    fn set(
        &mut self,
        cluster: String,
        key: String,
        value: Vec<u8>,
        ttl: Option<u64>,
        ignore_persistent: bool,
    ) -> bool;
}

impl Cache {
    /// Adds `line` to the log lines that wait to be written out.
    pub fn log(&mut self, line: String)
        ensures
            final(self)@ == (CacheModel { journal: old(self)@.journal.push(line@), ..old(self)@ }),
    {
        self.pending.push(line);
        assert(lines_view(self.pending@) =~= lines_view(old(self).pending@).push(line@));
    }

    /// Accounts for `bytes` more, on an engine that is not over its limit.
    pub fn charge(&mut self, bytes: usize)
        requires
            !old(self)@.over_limit(),
        ensures
            final(self)@ == old(self)@.charged(bytes as nat),
    {
        let limit = self.memory_handler.memory_size_limit();
        assert(usize::MAX * 1_048_576 + usize::MAX <= u128::MAX) by (nonlinear_arith);
        self.memory_handler.add_memory(bytes);
    }

    /// A write at the moment `now`, with `pick` as the number drawn for a
    /// random eviction.
    pub fn set_at(
        &mut self,
        cluster: String,
        key: String,
        value: Vec<u8>,
        ttl: Option<u64>,
        ignore_persistent: bool,
        now: u64,
        pick: usize,
    ) -> (done: bool)
        ensures
            done == old(self)@.accepts(now as int, pick as int),
            final(self)@ == old(self)@.set(
                cluster@,
                key@,
                value@,
                ttl_model(ttl),
                ignore_persistent,
                now as int,
                pick as int,
            ),
            old(self).wf() ==> final(self).wf(),
    {
        proof {
            if old(self).wf() {
                crate::cache::shape::lemma_set_well_formed(
                    old(self)@,
                    cluster@,
                    key@,
                    value@,
                    ttl_model(ttl),
                    ignore_persistent,
                    now as int,
                    pick as int,
                );
            }
        }
        if !self.make_room_at(now, pick) {
            return false;
        }
        let size = value.len();
        let line: Option<String> = if self.persistent && !ignore_persistent && ttl.is_none() {
            Some(set_line(cluster.as_str(), key.as_str(), &value))
        } else {
            None
        };
        let absolute_expiry: Option<u128> = match ttl {
            Some(t) => Some(now as u128 + t as u128),
            None => None,
        };
        self.bind(cluster, key, Entry { value, absolute_expiry, ttl, kind: CacheType::Str });
        self.charge(size);
        match line {
            Some(text) => {
                self.log(text);
            },
            None => {},
        }
        true
    }
}

impl SetValue for Cache {
    /// A write at the moment the engine's clock shows.
    fn set(
        &mut self,
        cluster: String,
        key: String,
        value: Vec<u8>,
        ttl: Option<u64>,
        ignore_persistent: bool,
    ) -> (done: bool)
        ensures
            exists|now: u64, pick: usize|
                {
                    &&& old(self)@.seen <= now
                    &&& done == old(self)@.at(now as int).accepts(now as int, pick as int)
                    &&& final(self)@ == old(self)@.at(now as int).set(
                        cluster@,
                        key@,
                        value@,
                        ttl_model(ttl),
                        ignore_persistent,
                        now as int,
                        pick as int,
                    )
                },
            old(self).wf() ==> final(self).wf(),
    {
        let now = self.tick();
        let pick = self.draw();
        self.set_at(cluster, key, value, ttl, ignore_persistent, now, pick)
    }
}

} // verus!
