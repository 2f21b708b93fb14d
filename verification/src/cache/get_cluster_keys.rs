//! Listing the keys of a cluster.

use crate::assoc::{find, lemma_found, names_of};
use crate::cache::cache::{lines_view, slots_view, Cache, Slot};
use crate::cache::scan::find_cluster;
use vstd::prelude::*;

verus! {

/// The keys of a cluster, in its order.
pub fn keys_of(slots: &Vec<Slot>) -> (keys: Vec<String>)
    ensures
        lines_view(keys@) == names_of(slots_view(slots@)),
{
    let mut keys: Vec<String> = Vec::new();
    let mut i: usize = 0;
    while i < slots.len()
        invariant
            i <= slots.len(),
            lines_view(keys@) == names_of(slots_view(slots@)).take(i as int),
        decreases slots.len() - i,
    {
        let ghost so_far = lines_view(keys@);
        keys.push(slots[i].key.clone());
        assert(lines_view(keys@) =~= so_far.push(slots[i as int].key@));
        assert(lines_view(keys@) =~= names_of(slots_view(slots@)).take(i + 1));
        i = i + 1;
    }
    assert(names_of(slots_view(slots@)).take(slots.len() as int) =~= names_of(
        slots_view(slots@),
    ));
    keys
}

/// Listing the keys of a cluster.
pub trait GetClusterKeys {
    /// The keys of `cluster`, in the order in which they were first written,
    /// or nothing where the store has no such cluster. Nothing is swept
    /// first.
    fn get_keys_of_cluster(&self, cluster: &str) -> Option<Vec<String>>;
}

impl GetClusterKeys for Cache {
    fn get_keys_of_cluster(&self, cluster: &str) -> (keys: Option<Vec<String>>)
        ensures
            match find(self@.store, cluster@) {
                Some(held) => keys matches Some(listed) && lines_view(listed@) == names_of(held),
                None => keys is None,
            },
    {
        match find_cluster(&self.store, cluster) {
            None => None,
            Some(ci) => {
                proof {
                    lemma_found(self@.store, cluster@, ci as int);
                }
                Some(keys_of(&self.store[ci].slots))
            },
        }
    }
}

} // verus!
