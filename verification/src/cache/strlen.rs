//! Asking for the length of a text.

use crate::cache::cache::{Cache, CacheType};
use crate::cache::model::EntryModel;
use crate::cache::text::{decode_text, spelled};
use vstd::prelude::*;

verus! {

/// The number of bytes of the text that a text entry stands for, cut to 32
/// bits; zero where there is no entry, where it is of another kind, or
/// where it stands for no text.
pub open spec fn length_of_entry(entry: Option<EntryModel>) -> int {
    match entry {
        Some(e) => if e.kind == CacheType::Str {
            match spelled(e.value) {
                Some(pair) => pair.0.len() as int % 0x1_0000_0000,
                None => 0,
            }
        } else {
            0
        },
        None => 0,
    }
}

/// Asking for the length of a text.
pub trait Strlen {
    /// The number of bytes of the text that `key` of `cluster` stands for.
    fn strlen(&mut self, cluster: &str, key: &str) -> u32;
}

impl Cache {
    /// The length of a text at the moment `now`: the expired entries of
    /// `cluster` are swept out first, as by a read.
    pub fn strlen_at(&mut self, cluster: &str, key: &str, now: u64) -> (length: u32)
        ensures
            final(self)@ == old(self)@.purge(cluster@, now as int),
            length == length_of_entry(final(self)@.read(cluster@, key@)),
            old(self).wf() ==> final(self).wf(),
    {
        let result = self.get_at(cluster, key, now);
        match (result.value, result.value_type) {
            (Some(bytes), Some(CacheType::Str)) => match decode_text(&bytes) {
                Some((length, _)) => (length as u64 % 0x1_0000_0000) as u32,
                None => 0,
            },
            _ => 0,
        }
    }
}

impl Strlen for Cache {
    /// The length of a text at the moment the engine's clock shows.
    fn strlen(&mut self, cluster: &str, key: &str) -> (length: u32)
        ensures
            exists|now: u64|
                {
                    &&& old(self)@.seen <= now
                    &&& final(self)@ == old(self)@.at(now as int).purge(cluster@, now as int)
                    &&& length == length_of_entry(final(self)@.read(cluster@, key@))
                },
            old(self).wf() ==> final(self).wf(),
    {
        let now = self.tick();
        self.strlen_at(cluster, key, now)
    }
}

} // verus!
