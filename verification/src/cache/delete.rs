//! Removing a key.

use crate::assoc::{lemma_found, put, without, Name};
use crate::cache::cache::Cache;
use crate::cache::model::{keys_or_none, lookup, CacheModel};
use crate::cache::scan::{find_cluster, find_slot};
use crate::persistent::command::{del_line, line_of, CommandModel};
use vstd::prelude::*;

verus! {

impl CacheModel {
    /// The engine without `key` of `cluster`: where the key was bound, its
    /// entry is removed, its bytes are given back, and the removal is logged;
    /// where it was not, nothing changes.
    pub open spec fn delete(self, cluster: Name, key: Name, suppress: bool) -> CacheModel {
        match lookup(self.store, cluster, key) {
            Some(entry) => CacheModel {
                store: put(self.store, cluster, without(keys_or_none(self.store, cluster), key)),
                ..self
            }.freed(entry.value.len()).logged(
                line_of(CommandModel::Del { cluster, key }),
                suppress,
            ),
            None => self,
        }
    }
}

/// Removing a key of a cluster.
pub trait Delete {
    /// Removes `key` from `cluster`, where it is bound.
    fn delete(&mut self, cluster: &str, key: &str, ignore_persistent: bool);
}

impl Delete for Cache {
    fn delete(&mut self, cluster: &str, key: &str, ignore_persistent: bool)
        ensures
            final(self)@ == old(self)@.delete(cluster@, key@, ignore_persistent),
            old(self).wf() ==> final(self).wf(),
    {
        proof {
            if old(self).wf() {
                crate::cache::shape::lemma_delete_well_formed(
                    old(self)@,
                    cluster@,
                    key@,
                    ignore_persistent,
                );
            }
        }
        match find_cluster(&self.store, cluster) {
            None => {},
            Some(ci) => {
                proof {
                    lemma_found(self@.store, cluster@, ci as int);
                }
                match find_slot(&self.store[ci].slots, key) {
                    None => {},
                    Some(si) => {
                        proof {
                            lemma_found(self@.store[ci as int].1, key@, si as int);
                        }
                        self.drop_at(ci, si);
                        if self.persistent && !ignore_persistent {
                            self.log(del_line(cluster, key));
                        }
                    },
                }
            },
        }
    }
}

} // verus!
