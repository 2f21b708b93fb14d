//! Asking for the kind of a key.

use crate::cache::cache::{Cache, CacheType};
use crate::cache::model::lookup;
use vstd::prelude::*;

verus! {

/// Asking for the kind of what a key is bound to.
pub trait TypeOfKey {
    /// The kind of what `key` of `cluster` is bound to. Nothing is swept
    /// first.
    fn get_type(&self, cluster: &String, key: &String) -> Option<CacheType>;
}

impl TypeOfKey for Cache {
    fn get_type(&self, cluster: &String, key: &String) -> (kind: Option<CacheType>)
        ensures
            kind == (match lookup(self@.store, cluster@, key@) {
                Some(entry) => Some(entry.kind),
                None => None,
            }),
    {
        match self.peek(cluster.as_str(), key.as_str()) {
            Some(entry) => Some(entry.kind),
            None => None,
        }
    }
}

} // verus!
