//! Reading a value and removing it, as one step.

use crate::assoc::Name;
use crate::cache::cache::{Cache, ResultValue};
use crate::cache::delete::Delete;
use crate::cache::model::CacheModel;
use vstd::prelude::*;

verus! {

impl CacheModel {
    /// The engine after `key` of `cluster` was read at `now` and, where it
    /// was found, removed. The removal is logged like any other.
    pub open spec fn get_del(self, cluster: Name, key: Name, now: int) -> CacheModel {
        let swept = self.purge(cluster, now);
        if swept.read(cluster, key) is Some {
            swept.delete(cluster, key, false)
        } else {
            swept
        }
    }
}

/// Reading a value and removing it.
pub trait GetDel {
    /// Hands back what `key` of `cluster` is bound to, and removes it.
    fn get_del(&mut self, cluster: &str, key: &str) -> ResultValue;
}

impl Cache {
    /// A read and removal at the moment `now`: the result is that of a read
    /// at `now`, and what was found is removed before anything else can
    /// happen to the engine.
    pub fn get_del_at(&mut self, cluster: &str, key: &str, now: u64) -> (result: ResultValue)
        ensures
            result.shows(old(self)@.purge(cluster@, now as int).read(cluster@, key@)),
            final(self)@ == old(self)@.get_del(cluster@, key@, now as int),
            old(self).wf() ==> final(self).wf(),
    {
        let result = self.get_at(cluster, key, now);
        if result.value.is_some() {
            self.delete(cluster, key, false);
        }
        result
    }
}

impl GetDel for Cache {
    /// A read and removal at the moment the engine's clock shows.
    fn get_del(&mut self, cluster: &str, key: &str) -> (result: ResultValue)
        ensures
            exists|now: u64|
                {
                    &&& old(self)@.seen <= now
                    &&& result.shows(
                        old(self)@.at(now as int).purge(cluster@, now as int).read(cluster@, key@),
                    )
                    &&& final(self)@ == old(self)@.at(now as int).get_del(cluster@, key@, now as int)
                },
            old(self).wf() ==> final(self).wf(),
    {
        let now = self.tick();
        self.get_del_at(cluster, key, now)
    }
}

} // verus!
