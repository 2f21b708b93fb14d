//! Listing the clusters.

use crate::assoc::names_of;
use crate::cache::cache::{lines_view, Cache};
use vstd::prelude::*;

verus! {

/// Listing the clusters of the store.
pub trait GetAllClusters {
    /// The names of the clusters, in the order in which they were first
    /// written.
    fn get_all_clusters(&self) -> Vec<String>;
}

impl GetAllClusters for Cache {
    fn get_all_clusters(&self) -> (names: Vec<String>)
        ensures
            lines_view(names@) == names_of(self@.store),
    {
        let mut names: Vec<String> = Vec::new();
        let mut i: usize = 0;
        while i < self.store.len()
            invariant
                i <= self.store.len(),
                lines_view(names@) == names_of(self@.store).take(i as int),
            decreases self.store.len() - i,
        {
            let ghost so_far = lines_view(names@);
            names.push(self.store[i].name.clone());
            assert(lines_view(names@) =~= so_far.push(self.store[i as int].name@));
            assert(lines_view(names@) =~= names_of(self@.store).take(i + 1));
            i = i + 1;
        }
        assert(names_of(self@.store).take(self.store.len() as int) =~= names_of(self@.store));
        names
    }
}

} // verus!
