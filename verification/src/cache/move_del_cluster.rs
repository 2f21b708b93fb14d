//! Moving a cluster into another.

use crate::assoc::Name;
use crate::cache::cache::Cache;
use crate::cache::clear_cluster::ClearCluster;
use crate::cache::model::CacheModel;
use vstd::prelude::*;

verus! {

impl CacheModel {
    /// The engine after `src` was moved into `dst`: the values of `src` are
    /// copied into `dst`, and where the copy succeeds, `src` is removed with
    /// all it then holds and its bytes are given back. Nothing of this is
    /// logged.
    pub open spec fn move_cluster(self, src: Name, dst: Name, now: int, pick: int) -> CacheModel {
        if self.copy_done(src, dst, now, pick) {
            self.move_cluster_value(src, dst, now, pick).clear_cluster(src, true)
        } else {
            self.move_cluster_value(src, dst, now, pick)
        }
    }
}

/// Moving a cluster into another.
pub trait MoveCluster {
    /// Writes every key of `src_cluster`, with its bytes, into
    /// `desc_cluster`, and then removes `src_cluster`. Tells whether the
    /// store had the source and every write was accepted; the source is
    /// removed only then.
    fn move_cluster(&mut self, src_cluster: &str, desc_cluster: &str) -> bool;
}

impl Cache {
    /// A move of `src_cluster` into `desc_cluster` at the moment `now`, with
    /// `pick` as the number drawn for a random eviction.
    pub fn move_cluster_at(&mut self, src_cluster: &str, desc_cluster: &str, now: u64, pick: usize) -> (done:
        bool)
        ensures
            done == old(self)@.copy_done(src_cluster@, desc_cluster@, now as int, pick as int),
            final(self)@ == old(self)@.move_cluster(
                src_cluster@,
                desc_cluster@,
                now as int,
                pick as int,
            ),
            old(self).wf() ==> final(self).wf(),
    {
        let done = self.move_cluster_value_at(src_cluster, desc_cluster, now, pick);
        if done {
            self.clear_cluster(src_cluster, true);
        }
        done
    }
}

impl MoveCluster for Cache {
    /// A move at the moment the engine's clock shows.
    fn move_cluster(&mut self, src_cluster: &str, desc_cluster: &str) -> (done: bool)
        ensures
            exists|now: u64, pick: usize|
                {
                    &&& old(self)@.seen <= now
                    &&& done == old(self)@.at(now as int).copy_done(
                        src_cluster@,
                        desc_cluster@,
                        now as int,
                        pick as int,
                    )
                    &&& final(self)@ == old(self)@.at(now as int).move_cluster(
                        src_cluster@,
                        desc_cluster@,
                        now as int,
                        pick as int,
                    )
                },
            old(self).wf() ==> final(self).wf(),
    {
        let now = self.tick();
        let pick = self.draw();
        self.move_cluster_at(src_cluster, desc_cluster, now, pick)
    }
}

} // verus!
