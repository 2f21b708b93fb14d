//! Reading a value.

use crate::assoc::lemma_found;
use crate::cache::cache::{Cache, Entry, ResultValue};
use crate::cache::model::{lookup, CacheModel, EntryModel};
use crate::cache::scan::{find_cluster, find_slot};
use crate::cache::shape::lemma_purge_well_formed;
use vstd::prelude::*;

verus! {

impl ResultValue {
    /// The result shows `entry`: its bytes and its kind, or neither where
    /// there is no entry.
    pub open spec fn shows(&self, entry: Option<EntryModel>) -> bool {
        match entry {
            Some(e) => {
                &&& self.value matches Some(bytes)
                &&& bytes@ == e.value
                &&& self.value_type == Some(e.kind)
            },
            None => self.value is None && self.value_type is None,
        }
    }

    /// The result of a read that found nothing.
    pub fn absent() -> (result: ResultValue)
        ensures
            result.shows(None),
    {
        ResultValue { value: None, value_type: None }
    }
}

/// A copy of the bytes.
pub fn copy_bytes(bytes: &Vec<u8>) -> (copy: Vec<u8>)
    ensures
        copy@ == bytes@,
{
    let mut copy: Vec<u8> = Vec::new();
    let mut i: usize = 0;
    while i < bytes.len()
        invariant
            i <= bytes.len(),
            copy@ == bytes@.take(i as int),
        decreases bytes.len() - i,
    {
        copy.push(bytes[i]);
        assert(copy@ =~= bytes@.take(i + 1));
        i = i + 1;
    }
    assert(bytes@.take(bytes.len() as int) =~= bytes@);
    copy
}

impl CacheModel {
    /// What a read of `key` in `cluster` finds.
    pub open spec fn read(self, cluster: Seq<char>, key: Seq<char>) -> Option<EntryModel> {
        lookup(self.store, cluster, key)
    }
}

/// Reading a value by cluster and key.
pub trait Get {
    /// Sweeps the expired entries out of `cluster`, then hands back what `key`
    /// is bound to.
    fn get(&mut self, cluster: &str, key: &str) -> ResultValue;
}

impl Cache {
    /// A sweep of `cluster` at the moment `now`: its expired entries are
    /// removed and their bytes are given back to the accountant.
    pub fn purge_at(&mut self, cluster: &str, now: u64)
        ensures
            final(self)@ == old(self)@.purge(cluster@, now as int),
            old(self).wf() ==> final(self).wf(),
    {
        proof {
            if old(self).wf() {
                lemma_purge_well_formed(old(self)@, cluster@, now as int);
            }
        }
        match find_cluster(&self.store, cluster) {
            None => {},
            Some(ci) => {
                proof {
                    lemma_found(old(self)@.store, cluster@, ci as int);
                }
                self.purge_cluster(ci, now);
            },
        }
    }

    /// The entry that `key` of `cluster` is bound to.
    pub fn peek(&self, cluster: &str, key: &str) -> (entry: Option<&Entry>)
        ensures
            match lookup(self@.store, cluster@, key@) {
                Some(held) => entry matches Some(found) && found@ == held,
                None => entry is None,
            },
    {
        match find_cluster(&self.store, cluster) {
            None => None,
            Some(ci) => {
                proof {
                    lemma_found(self@.store, cluster@, ci as int);
                }
                match find_slot(&self.store[ci].slots, key) {
                    None => None,
                    Some(si) => {
                        proof {
                            lemma_found(self@.store[ci as int].1, key@, si as int);
                        }
                        Some(&self.store[ci].slots[si].entry)
                    },
                }
            },
        }
    }

    /// A read at the moment `now`: the expired entries of `cluster` are swept
    /// out and their bytes given back to the accountant, and what is then
    /// bound to `key` comes back with its kind.
    pub fn get_at(&mut self, cluster: &str, key: &str, now: u64) -> (result: ResultValue)
        ensures
            final(self)@ == old(self)@.purge(cluster@, now as int),
            result.shows(final(self)@.read(cluster@, key@)),
            old(self).wf() ==> final(self).wf(),
    {
        self.purge_at(cluster, now);
        match self.peek(cluster, key) {
            Some(entry) => ResultValue {
                value: Some(copy_bytes(&entry.value)),
                value_type: Some(entry.kind),
            },
            None => ResultValue::absent(),
        }
    }
}

impl Get for Cache {
    /// A read at the moment the engine's clock shows.
    fn get(&mut self, cluster: &str, key: &str) -> (result: ResultValue)
        ensures
            exists|now: u64|
                {
                    &&& old(self)@.seen <= now
                    &&& final(self)@ == old(self)@.at(now as int).purge(cluster@, now as int)
                    &&& result.shows(final(self)@.read(cluster@, key@))
                },
            old(self).wf() ==> final(self).wf(),
    {
        let now = self.tick();
        self.get_at(cluster, key, now)
    }
}

} // verus!
