//! Asking whether a key is bound.

use crate::cache::cache::Cache;
use crate::cache::model::lookup;
use vstd::prelude::*;

verus! {

/// Asking whether a key of a cluster is bound.
pub trait KeyExists {
    /// Whether `key` of `cluster` is bound. Nothing is swept first: an entry
    /// whose time has run out and that no read has swept yet still counts.
    fn key_exists(&self, cluster: &String, key: &String) -> bool;
}

impl KeyExists for Cache {
    fn key_exists(&self, cluster: &String, key: &String) -> (found: bool)
        ensures
            found == lookup(self@.store, cluster@, key@) is Some,
    {
        self.peek(cluster.as_str(), key.as_str()).is_some()
    }
}

} // verus!
