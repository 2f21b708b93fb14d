//! The engine's state: entries, clusters, the store, and what surrounds it.

use crate::assoc::{
    binds, first_at, lemma_find_put_same, lemma_found, lemma_occurs, put, slot_of, Name,
};
use crate::cache::model::{
    keys_or_none, unexpired, well_formed, CacheModel, ClusterModel, EntryModel, StoreModel,
};
use crate::cache::scan::{find_cluster, find_slot, purge_slots, swept_bytes};
use crate::memory_handling::memory_handling::MemoryHandler;
use std::time::Instant;
use vstd::prelude::*;

verus! {

/// What an entry's bytes are: text, or a 32-bit counter.
#[derive(Clone, Copy, Debug, PartialEq, Eq, Structural)]
pub enum CacheType {
    Str,
    Int,
}

impl CacheType {
    /// The code of the kind: 1 for a counter, 2 for text.
    pub fn as_i32(&self) -> (code: &i32)
        ensures
            *code == (match *self {
                CacheType::Int => 1i32,
                CacheType::Str => 2i32,
            }),
    {
        match self {
            CacheType::Int => &1,
            CacheType::Str => &2,
        }
    }

    /// The name of the kind: `integer` or `string`.
    pub fn as_str(&self) -> (name: &'static str)
        ensures
            name@ == (match *self {
                CacheType::Int => "integer"@,
                CacheType::Str => "string"@,
            }),
    {
        match self {
            CacheType::Int => "integer",
            CacheType::Str => "string",
        }
    }
}

/// How the engine picks the entry to give up when memory runs out.
#[derive(Clone, Copy, Debug, PartialEq, Eq, Structural)]
pub enum EvictionStrategy {
    /// The first entry met that has a time to live and has not yet expired.
    VolatileLru,
    /// As `VolatileLru`: the first entry met that has a time to live and has
    /// not yet expired.
    VolatileTtl,
    /// The first entry met.
    AllKeysLru,
    /// One entry among all, drawn with equal chances.
    AllKeysRandom,
}

impl EvictionStrategy {
    /// The strategy that a configured code stands for: 0 to 3, in the order of
    /// the variants. Any other code stands for none.
    pub fn from_i32(value: i32) -> (strategy: Option<EvictionStrategy>)
        ensures
            strategy == (if value == 0 {
                Some(EvictionStrategy::VolatileLru)
            } else if value == 1 {
                Some(EvictionStrategy::VolatileTtl)
            } else if value == 2 {
                Some(EvictionStrategy::AllKeysLru)
            } else if value == 3 {
                Some(EvictionStrategy::AllKeysRandom)
            } else {
                None
            }),
    {
        match value {
            0 => Some(EvictionStrategy::VolatileLru),
            1 => Some(EvictionStrategy::VolatileTtl),
            2 => Some(EvictionStrategy::AllKeysLru),
            3 => Some(EvictionStrategy::AllKeysRandom),
            _ => None,
        }
    }

    /// Whether only entries with a time to live may be given up.
    pub open spec fn volatile_only(self) -> bool {
        self == EvictionStrategy::VolatileLru || self == EvictionStrategy::VolatileTtl
    }
}

/// What a read hands back: the bytes and their kind, or neither.
#[derive(Clone, Debug)]
pub struct ResultValue {
    pub value: Option<Vec<u8>>,
    pub value_type: Option<CacheType>,
}

/// A stored value with its kind and its expiry.
///
/// Times are in milliseconds on the engine's clock. The moment of expiry is
/// fixed when the time to live is set and never computed again.
#[derive(Debug)]
pub struct Entry {
    pub value: Vec<u8>,
    pub absolute_expiry: Option<u128>,
    pub ttl: Option<u64>,
    pub kind: CacheType,
}

impl View for Entry {
    type V = EntryModel;

    open spec fn view(&self) -> EntryModel {
        EntryModel {
            value: self.value@,
            absolute_expiry: match self.absolute_expiry {
                Some(t) => Some(t as int),
                None => None,
            },
            ttl: match self.ttl {
                Some(t) => Some(t as int),
                None => None,
            },
            kind: self.kind,
        }
    }
}

/// A key of a cluster and what it is bound to.
#[derive(Debug)]
pub struct Slot {
    pub key: String,
    pub entry: Entry,
}

/// A named group of keys, in the order in which they were first written.
#[derive(Debug)]
pub struct Cluster {
    pub name: String,
    pub slots: Vec<Slot>,
}

/// The keys of a cluster with what they are bound to.
pub open spec fn slots_view(slots: Seq<Slot>) -> ClusterModel {
    Seq::new(slots.len(), |i: int| (slots[i].key@, slots[i].entry@))
}

/// The clusters of a store with what they hold.
pub open spec fn store_view(clusters: Seq<Cluster>) -> StoreModel {
    Seq::new(clusters.len(), |i: int| (clusters[i].name@, slots_view(clusters[i].slots@)))
}

/// The lines of a list of texts.
pub open spec fn lines_view(lines: Seq<String>) -> Seq<Seq<char>> {
    Seq::new(lines.len(), |i: int| lines[i]@)
}

/// The cache engine: the store, its memory accountant, its settings, and the
/// log lines that wait to be written out.
#[derive(Debug)]
pub struct Cache {
    /// How the entry to give up is picked when memory runs out.
    pub evict_type: EvictionStrategy,
    /// The clusters, in the order in which they were first written.
    pub store: Vec<Cluster>,
    /// The port the engine is served on.
    pub port: u16,
    /// The accountant of the bytes that the store holds.
    pub memory_handler: MemoryHandler,
    /// Whether what is done is reported to the service's log.
    pub enable_log: bool,
    /// Whether mutations are recorded in the command log.
    pub persistent: bool,
    /// The lines of the command log that wait to be written out.
    pub pending: Vec<String>,
    /// The moment at which the engine was made: the start of its clock.
    pub started: Instant,
    /// The latest moment that the engine's clock has shown, in milliseconds.
    pub seen: u64,
}

impl View for Cache {
    type V = CacheModel;

    open spec fn view(&self) -> CacheModel {
        CacheModel {
            store: store_view(self.store@),
            usage: self.memory_handler.usage(),
            limit: self.memory_handler.limit(),
            evict_type: self.evict_type,
            port: self.port,
            enable_log: self.enable_log,
            persistent: self.persistent,
            journal: lines_view(self.pending@),
            seen: self.seen as nat,
        }
    }
}

/// Binding a cluster to new keys comes to the same whether or not the
/// cluster was made first; and once the cluster is made, it is bound in
/// place.
pub proof fn lemma_bound_by_place(store: StoreModel, cluster: Name, keys: ClusterModel)
    ensures
        binds(put(store, cluster, keys_or_none(store, cluster)), cluster),
        put(store, cluster, keys) == put(
            put(store, cluster, keys_or_none(store, cluster)),
            cluster,
            keys,
        ),
        put(store, cluster, keys) == put(store, cluster, keys_or_none(store, cluster)).update(
            slot_of(put(store, cluster, keys_or_none(store, cluster)), cluster),
            (cluster, keys),
        ),
{
    let made = put(store, cluster, keys_or_none(store, cluster));
    lemma_find_put_same(store, cluster, keys_or_none(store, cluster));
    if binds(store, cluster) {
        assert(made =~= store);
    } else {
        let at = store.len() as int;
        assert forall|j: int| 0 <= j < at implies (#[trigger] made[j]).0 != cluster by {
            if store[j].0 == cluster {
                lemma_occurs(store, cluster, j);
            }
        }
        lemma_found(made, cluster, at);
        assert(made.update(at, (cluster, keys)) =~= store.push((cluster, keys)));
    }
}

impl Cache {
    /// No cluster name occurs twice in the store, and within a cluster no
    /// key. An engine is made so, and every operation keeps it so.
    pub open spec fn wf(&self) -> bool {
        well_formed(self@.store)
    }

    /// An empty engine.
    pub fn new(
        port_number: u16,
        memory_handler: MemoryHandler,
        evict_type: EvictionStrategy,
        enable_logs: bool,
        persistent: bool,
    ) -> (cache: Self)
        ensures
            cache@ == (CacheModel {
                store: Seq::empty(),
                usage: memory_handler.usage(),
                limit: memory_handler.limit(),
                evict_type,
                port: port_number,
                enable_log: enable_logs,
                persistent,
                journal: Seq::empty(),
                seen: 0,
            }),
            cache.wf(),
    {
        let cache = Cache {
            evict_type,
            store: Vec::new(),
            port: port_number,
            memory_handler,
            enable_log: enable_logs,
            persistent,
            pending: Vec::new(),
            started: Instant::now(),
            seen: 0,
        };
        assert(cache@.store =~= Seq::empty());
        assert(cache@.journal =~= Seq::empty());
        cache
    }

    /// Sets the port the engine is served on.
    pub fn configure_default_port(&mut self, port: u16)
        ensures
            final(self)@ == (CacheModel { port, ..old(self)@ }),
            old(self).wf() ==> final(self).wf(),
    {
        self.port = port;
    }

    /// The port the engine is served on.
    pub fn get_default_port(&self) -> (port: u16)
        ensures
            port == self@.port,
    {
        self.port
    }

    /// The milliseconds that the engine's clock shows: the time since the
    /// engine was made, and never less than the clock has shown before.
    pub fn clock(&self) -> (now: u64)
        ensures
            self@.seen <= now,
    {
        let millis: u128 = Instant::now().duration_since(self.started).as_millis();
        if millis > u64::MAX as u128 {
            u64::MAX
        } else if millis < self.seen as u128 {
            self.seen
        } else {
            millis as u64
        }
    }

    /// Reads the engine's clock and keeps what it shows.
    pub fn tick(&mut self) -> (now: u64)
        ensures
            old(self)@.seen <= now,
            final(self)@ == old(self)@.at(now as int),
            old(self).wf() ==> final(self).wf(),
    {
        let now = self.clock();
        self.seen = now;
        now
    }

    /// Sweeps the expired entries out of the cluster at place `ci`.
    pub fn purge_cluster(&mut self, ci: usize, now: u64)
        requires
            ci < old(self).store.len(),
        ensures
            final(self).store.len() == old(self).store.len(),
            final(self)@ == (CacheModel {
                store: old(self)@.store.update(
                    ci as int,
                    (old(self)@.store[ci as int].0, unexpired(old(self)@.store[ci as int].1, now as int)),
                ),
                ..old(self)@
            }).freed(swept_bytes(old(self)@.store[ci as int].1, now as int)),
    {
        let mut slots: Vec<Slot> = Vec::new();
        std::mem::swap(&mut slots, &mut self.store[ci].slots);
        let kept = purge_slots(slots, now, &mut self.memory_handler);
        self.store[ci].slots = kept;
        assert(final(self)@.store =~= old(self)@.store.update(
            ci as int,
            (old(self)@.store[ci as int].0, unexpired(old(self)@.store[ci as int].1, now as int)),
        ));
    }

    /// Makes sure that the store has `cluster`, and tells its place: a missing
    /// cluster is made empty, at the end.
    pub fn ensure_cluster(&mut self, cluster: String) -> (ci: usize)
        ensures
            final(self)@ == old(self)@.with_cluster(cluster@),
            first_at(final(self)@.store, cluster@, ci as int),
            ci < final(self).store.len(),
            final(self)@.store[ci as int].1 == keys_or_none(old(self)@.store, cluster@),
    {
        match find_cluster(&self.store, cluster.as_str()) {
            Some(ci) => {
                proof {
                    lemma_found(self@.store, cluster@, ci as int);
                    assert(self@.store =~= old(self)@.with_cluster(cluster@).store);
                }
                ci
            },
            None => {
                let slots: Vec<Slot> = Vec::new();
                assert(slots_view(slots@) =~= Seq::empty());
                self.store.push(Cluster { name: cluster, slots });
                proof {
                    assert(self@.store =~= old(self)@.store.push((cluster@, Seq::empty())));
                    assert forall|j: int| 0 <= j < old(self)@.store.len() implies (
                    #[trigger] self@.store[j]).0 != cluster@ by {
                        if old(self)@.store[j].0 == cluster@ {
                            lemma_occurs(old(self)@.store, cluster@, j);
                        }
                    }
                }
                self.store.len() - 1
            },
        }
    }

    /// Binds `key` of `cluster` to `entry`: in place where the key was bound,
    /// at the end of the cluster where it was not. A missing cluster is made.
    pub fn bind(&mut self, cluster: String, key: String, entry: Entry)
        ensures
            final(self)@ == old(self)@.bound(cluster@, key@, entry@),
    {
        let ci = self.ensure_cluster(cluster);
        let ghost mid = self@;
        proof {
            lemma_found(mid.store, cluster@, ci as int);
        }
        match find_slot(&self.store[ci].slots, key.as_str()) {
            Some(si) => {
                proof {
                    lemma_found(mid.store[ci as int].1, key@, si as int);
                }
                self.store[ci].slots[si].entry = entry;
                proof {
                    assert(slots_view(self.store[ci as int].slots@) =~= mid.store[ci as int].1.update(
                        si as int,
                        (key@, entry@),
                    ));
                }
            },
            None => {
                self.store[ci].slots.push(Slot { key, entry });
                proof {
                    assert(slots_view(self.store[ci as int].slots@) =~= mid.store[ci as int].1.push(
                        (key@, entry@),
                    ));
                }
            },
        }
        proof {
            let keys = keys_or_none(old(self)@.store, cluster@);
            assert(mid.store[ci as int].1 == keys);
            let target = put(keys, key@, entry@);
            assert(slots_view(self.store[ci as int].slots@) == target);
            lemma_bound_by_place(old(self)@.store, cluster@, target);
            assert(self@.store =~= mid.store.update(ci as int, (cluster@, target)));
        }
    }

    /// Hands over the log lines that wait to be written out, oldest first,
    /// and keeps none.
    pub fn take_pending(&mut self) -> (lines: Vec<String>)
        ensures
            lines_view(lines@) == old(self)@.journal,
            final(self)@ == (CacheModel { journal: Seq::empty(), ..old(self)@ }),
            old(self).wf() ==> final(self).wf(),
    {
        let mut lines: Vec<String> = Vec::new();
        std::mem::swap(&mut lines, &mut self.pending);
        assert(final(self)@.journal =~= Seq::empty());
        lines
    }
}

} // verus!
