//! Making a cluster.

use crate::cache::cache::Cache;
use vstd::prelude::*;

verus! {

/// Making a cluster.
pub trait SetCluster {
    /// Makes sure that `cluster` is in the store: a missing cluster is made
    /// empty, a present one is left as it is.
    fn set_cluster(&mut self, cluster: String);
}

impl SetCluster for Cache {
    fn set_cluster(&mut self, cluster: String)
        ensures
            final(self)@ == old(self)@.with_cluster(cluster@),
            old(self).wf() ==> final(self).wf(),
    {
        proof {
            if old(self).wf() {
                crate::cache::shape::lemma_with_cluster_well_formed(old(self)@, cluster@);
            }
        }
        let _ = self.ensure_cluster(cluster);
    }
}

} // verus!
