//! Giving a key a new time to live.

use crate::assoc::{lemma_found, put, Name};
use crate::cache::cache::{lemma_bound_by_place, slots_view, Cache};
use crate::cache::model::{keys_or_none, lookup, CacheModel, EntryModel};
use crate::cache::scan::find_slot;
use vstd::prelude::*;

verus! {

impl CacheModel {
    /// The engine after `key` of `cluster` was given `new_ttl` milliseconds to
    /// live from `now`. The cluster is made where it was missing. Where the
    /// key is bound, its expiry is computed anew; its bytes and its kind stay.
    pub open spec fn expire_key(self, cluster: Name, key: Name, new_ttl: int, now: int) -> CacheModel {
        let made = self.with_cluster(cluster);
        match lookup(made.store, cluster, key) {
            Some(entry) => made.bound(
                cluster,
                key,
                EntryModel { absolute_expiry: Some(now + new_ttl), ttl: Some(new_ttl), ..entry },
            ),
            None => made,
        }
    }
}

/// Giving a key a new time to live.
pub trait ExpireKey {
    /// Gives `key` of `cluster` `new_ttl` milliseconds to live from now, and
    /// tells whether the key was bound.
    fn expire_key(&mut self, cluster: &String, key: &String, new_ttl: &u64) -> bool;
}

impl Cache {
    /// A new time to live that starts at the moment `now`.
    pub fn expire_key_at(&mut self, cluster: &String, key: &String, new_ttl: &u64, now: u64) -> (found:
        bool)
        ensures
            found == lookup(old(self)@.store, cluster@, key@) is Some,
            final(self)@ == old(self)@.expire_key(cluster@, key@, *new_ttl as int, now as int),
            old(self).wf() ==> final(self).wf(),
    {
        proof {
            if old(self).wf() {
                crate::cache::shape::lemma_expire_key_well_formed(
                    old(self)@,
                    cluster@,
                    key@,
                    *new_ttl as int,
                    now as int,
                );
            }
        }
        let ci = self.ensure_cluster(cluster.clone());
        let ghost made = self@;
        proof {
            lemma_found(made.store, cluster@, ci as int);
            lemma_bound_by_place(
                old(self)@.store,
                cluster@,
                keys_or_none(old(self)@.store, cluster@),
            );
        }
        match find_slot(&self.store[ci].slots, key.as_str()) {
            None => false,
            Some(si) => {
                proof {
                    lemma_found(made.store[ci as int].1, key@, si as int);
                }
                self.store[ci].slots[si].entry.absolute_expiry = Some(now as u128 + *new_ttl as u128);
                self.store[ci].slots[si].entry.ttl = Some(*new_ttl);
                proof {
                    let entry = made.store[ci as int].1[si as int].1;
                    let renewed = EntryModel {
                        absolute_expiry: Some(now as int + *new_ttl as int),
                        ttl: Some(*new_ttl as int),
                        ..entry
                    };
                    assert(self.store[ci as int].slots[si as int].entry@ == renewed);
                    assert(slots_view(self.store[ci as int].slots@) =~= made.store[ci as int].1.update(
                        si as int,
                        (key@, renewed),
                    ));
                    assert(self@.store =~= made.store.update(
                        ci as int,
                        (cluster@, put(made.store[ci as int].1, key@, renewed)),
                    ));
                }
                true
            },
        }
    }
}

impl ExpireKey for Cache {
    /// A new time to live that starts at the moment the engine's clock shows.
    fn expire_key(&mut self, cluster: &String, key: &String, new_ttl: &u64) -> (found: bool)
        ensures
            found == lookup(old(self)@.store, cluster@, key@) is Some,
            exists|now: u64|
                old(self)@.seen <= now && final(self)@ == old(self)@.at(now as int).expire_key(
                    cluster@,
                    key@,
                    *new_ttl as int,
                    now as int,
                ),
            old(self).wf() ==> final(self).wf(),
    {
        let now = self.tick();
        self.expire_key_at(cluster, key, new_ttl, now)
    }
}

} // verus!
