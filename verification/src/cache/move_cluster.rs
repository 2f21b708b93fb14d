//! Copying the values of a cluster into another.

use crate::assoc::{find, lemma_found, Name};
use crate::cache::cache::{slots_view, Cache, Slot};
use crate::cache::get::copy_bytes;
use crate::cache::model::{CacheModel, ClusterModel};
use crate::cache::scan::find_cluster;
use vstd::prelude::*;
use vstd::string::*;

verus! {

/// The keys of a cluster with the bytes of their values.
pub open spec fn pairs_view(pairs: Seq<(String, Vec<u8>)>) -> Seq<(Name, Seq<u8>)> {
    Seq::new(pairs.len(), |i: int| (pairs[i].0@, pairs[i].1@))
}

/// The keys of a cluster with the bytes of their values, without the rest of
/// their entries.
pub open spec fn payloads(keys: ClusterModel) -> Seq<(Name, Seq<u8>)> {
    Seq::new(keys.len(), |i: int| (keys[i].0, keys[i].1.value))
}

/// A copy of the keys of a cluster with the bytes of their values.
pub fn snapshot(slots: &Vec<Slot>) -> (pairs: Vec<(String, Vec<u8>)>)
    ensures
        pairs_view(pairs@) == payloads(slots_view(slots@)),
{
    let mut pairs: Vec<(String, Vec<u8>)> = Vec::new();
    let mut i: usize = 0;
    while i < slots.len()
        invariant
            i <= slots.len(),
            pairs_view(pairs@) == payloads(slots_view(slots@)).take(i as int),
        decreases slots.len() - i,
    {
        let ghost so_far = pairs_view(pairs@);
        let key = slots[i].key.clone();
        let bytes = copy_bytes(&slots[i].entry.value);
        pairs.push((key, bytes));
        assert(pairs_view(pairs@) =~= so_far.push((key@, bytes@)));
        assert(pairs_view(pairs@) =~= payloads(slots_view(slots@)).take(i + 1));
        i = i + 1;
    }
    assert(payloads(slots_view(slots@)).take(slots.len() as int) =~= payloads(
        slots_view(slots@),
    ));
    pairs
}

impl CacheModel {
    /// The engine after each of `pairs` was written into `dst` in turn: each
    /// write is one without a time to live that is not logged.
    pub open spec fn copy_into(
        self,
        pairs: Seq<(Name, Seq<u8>)>,
        dst: Name,
        now: int,
        pick: int,
    ) -> CacheModel
        decreases pairs.len(),
    {
        if pairs.len() == 0 {
            self
        } else {
            self.copy_into(pairs.drop_last(), dst, now, pick).set(
                dst,
                pairs.last().0,
                pairs.last().1,
                None,
                true,
                now,
                pick,
            )
        }
    }

    /// Whether each of the writes of `pairs` into `dst` was accepted.
    pub open spec fn copies_accepted(
        self,
        pairs: Seq<(Name, Seq<u8>)>,
        dst: Name,
        now: int,
        pick: int,
    ) -> bool
        decreases pairs.len(),
    {
        if pairs.len() == 0 {
            true
        } else {
            &&& self.copies_accepted(pairs.drop_last(), dst, now, pick)
            &&& self.copy_into(pairs.drop_last(), dst, now, pick).accepts(now, pick)
        }
    }

    /// Whether the copy of `src` into `dst` succeeds: the store must have
    /// `src`, and every write must be accepted.
    pub open spec fn copy_done(self, src: Name, dst: Name, now: int, pick: int) -> bool {
        match find(self.store, src) {
            Some(keys) => self.copies_accepted(payloads(keys), dst, now, pick),
            None => false,
        }
    }

    /// The engine after the values of `src` were copied into `dst`: the keys
    /// that `src` held when the copy began are written into `dst`, one after
    /// the other, in their order. A write that is not accepted does not undo
    /// those before it nor stop those after it.
    pub open spec fn move_cluster_value(self, src: Name, dst: Name, now: int, pick: int) -> CacheModel {
        match find(self.store, src) {
            Some(keys) => self.copy_into(payloads(keys), dst, now, pick),
            None => self,
        }
    }
}

/// Copying the values of a cluster into another.
pub trait MoveClusterValues {
    /// Writes every key of `src_cluster`, with its bytes, into
    /// `desc_cluster`. Tells whether the store had the source and every
    /// write was accepted.
    fn move_cluster_value(&mut self, src_cluster: &str, desc_cluster: &str) -> bool;
}

impl Cache {
    /// Writes each of `pairs` into `dst` in turn, at the moment `now`.
    pub fn copy_pairs(&mut self, pairs: Vec<(String, Vec<u8>)>, dst: &str, now: u64, pick: usize) -> (done:
        bool)
        ensures
            done == old(self)@.copies_accepted(pairs_view(pairs@), dst@, now as int, pick as int),
            final(self)@ == old(self)@.copy_into(
                pairs_view(pairs@),
                dst@,
                now as int,
                pick as int,
            ),
            old(self).wf() ==> final(self).wf(),
    {
        proof {
            if old(self).wf() {
                crate::cache::shape::lemma_copy_into_well_formed(
                    old(self)@,
                    pairs_view(pairs@),
                    dst@,
                    now as int,
                    pick as int,
                );
            }
        }
        let ghost all = pairs_view(pairs@);
        let mut done = true;
        assert(all.take(0) =~= Seq::empty());
        for pair in it: pairs.into_iter()
            invariant
                it.seq() == pairs@,
                all == pairs_view(pairs@),
                done == old(self)@.copies_accepted(
                    all.take(it.index() as int),
                    dst@,
                    now as int,
                    pick as int,
                ),
                self@ == old(self)@.copy_into(
                    all.take(it.index() as int),
                    dst@,
                    now as int,
                    pick as int,
                ),
        {
            proof {
                let head = all.take(it.index() + 1);
                assert(head.drop_last() =~= all.take(it.index() as int));
                assert(head.last() == all[it.index() as int]);
            }
            let (key, bytes) = pair;
            let written = self.set_at(String::from_str(dst), key, bytes, None, true, now, pick);
            if !written {
                done = false;
            }
        }
        assert(all.take(pairs@.len() as int) =~= all);
        done
    }

    /// A copy of the values of `src_cluster` into `desc_cluster` at the
    /// moment `now`, with `pick` as the number drawn for a random eviction.
    pub fn move_cluster_value_at(
        &mut self,
        src_cluster: &str,
        desc_cluster: &str,
        now: u64,
        pick: usize,
    ) -> (done: bool)
        ensures
            done == old(self)@.copy_done(src_cluster@, desc_cluster@, now as int, pick as int),
            final(self)@ == old(self)@.move_cluster_value(
                src_cluster@,
                desc_cluster@,
                now as int,
                pick as int,
            ),
            old(self).wf() ==> final(self).wf(),
    {
        match find_cluster(&self.store, src_cluster) {
            None => false,
            Some(ci) => {
                proof {
                    lemma_found(self@.store, src_cluster@, ci as int);
                }
                let pairs = snapshot(&self.store[ci].slots);
                self.copy_pairs(pairs, desc_cluster, now, pick)
            },
        }
    }
}

impl MoveClusterValues for Cache {
    /// A copy at the moment the engine's clock shows.
    fn move_cluster_value(&mut self, src_cluster: &str, desc_cluster: &str) -> (done: bool)
        ensures
            exists|now: u64, pick: usize|
                {
                    &&& old(self)@.seen <= now
                    &&& done == old(self)@.at(now as int).copy_done(
                        src_cluster@,
                        desc_cluster@,
                        now as int,
                        pick as int,
                    )
                    &&& final(self)@ == old(self)@.at(now as int).move_cluster_value(
                        src_cluster@,
                        desc_cluster@,
                        now as int,
                        pick as int,
                    )
                },
            old(self).wf() ==> final(self).wf(),
    {
        let now = self.tick();
        let pick = self.draw();
        self.move_cluster_value_at(src_cluster, desc_cluster, now, pick)
    }
}

} // verus!
