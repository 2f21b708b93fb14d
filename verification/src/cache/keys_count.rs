//! Counting the keys of a cluster.

use crate::assoc::{find, lemma_found};
use crate::cache::cache::Cache;
use crate::cache::model::StoreModel;
use crate::cache::scan::find_cluster;
use vstd::prelude::*;

verus! {

/// The number of keys of `cluster`, or -1 where the store has no such
/// cluster. The count stops at the largest number an `i64` holds.
pub open spec fn keys_counted(store: StoreModel, cluster: Seq<char>) -> int {
    match find(store, cluster) {
        Some(keys) => if keys.len() <= i64::MAX {
            keys.len() as int
        } else {
            i64::MAX as int
        },
        None => -1,
    }
}

/// Counting the keys of a cluster.
pub trait KeysCount {
    /// The number of keys of `cluster`, or -1 where the store has no such
    /// cluster. Nothing is swept first.
    fn keys_count(&self, cluster: &str) -> i64;
}

impl KeysCount for Cache {
    fn keys_count(&self, cluster: &str) -> (count: i64)
        ensures
            count == keys_counted(self@.store, cluster@),
    {
        match find_cluster(&self.store, cluster) {
            None => -1,
            Some(ci) => {
                proof {
                    lemma_found(self@.store, cluster@, ci as int);
                }
                let keys = self.store[ci].slots.len();
                if keys as u128 <= i64::MAX as u128 {
                    keys as i64
                } else {
                    i64::MAX
                }
            },
        }
    }
}

} // verus!
