//! Reading a part of a text.

use crate::cache::cache::{Cache, CacheType};
use crate::cache::model::EntryModel;
use crate::cache::text::{decode_text, range_of, substring, text_of_entry};
use crate::results::string_result::StringResult;
use vstd::prelude::*;

verus! {

/// The characters from place `start` to place `end` of the text that an
/// entry stands for.
pub open spec fn range_of_entry(entry: Option<EntryModel>, start: int, end: int) -> Option<
    Seq<char>,
> {
    match text_of_entry(entry) {
        Some(text) => range_of(text, start, end),
        None => None,
    }
}

/// Reading a part of a text.
pub trait GetRange {
    /// The characters from place `start` to place `end`, both included, of
    /// the text that `key` of `cluster` stands for.
    fn get_range(&mut self, cluster: &str, key: &str, start: u32, end: u32) -> StringResult;
}

impl Cache {
    /// A part of a text at the moment `now`: the expired entries of `cluster`
    /// are swept out first, as by a read. There is no text where the key is
    /// not bound, where its entry is a counter, where its bytes stand for no
    /// text, or where `start` lies past the text or past `end`.
    pub fn get_range_at(&mut self, cluster: &str, key: &str, start: u32, end: u32, now: u64) -> (result:
        StringResult)
        ensures
            final(self)@ == old(self)@.purge(cluster@, now as int),
            result.shows(
                range_of_entry(final(self)@.read(cluster@, key@), start as int, end as int),
            ),
            old(self).wf() ==> final(self).wf(),
    {
        let found = self.get_at(cluster, key, now);
        match (found.value, found.value_type) {
            (Some(bytes), Some(CacheType::Str)) => match decode_text(&bytes) {
                Some((_, text)) => StringResult::new(substring(text.as_str(), start, end)),
                None => StringResult::new(None),
            },
            _ => StringResult::new(None),
        }
    }
}

impl GetRange for Cache {
    /// A part of a text at the moment the engine's clock shows.
    fn get_range(&mut self, cluster: &str, key: &str, start: u32, end: u32) -> (result: StringResult)
        ensures
            exists|now: u64|
                {
                    &&& old(self)@.seen <= now
                    &&& final(self)@ == old(self)@.at(now as int).purge(cluster@, now as int)
                    &&& result.shows(
                        range_of_entry(
                            final(self)@.read(cluster@, key@),
                            start as int,
                            end as int,
                        ),
                    )
                },
            old(self).wf() ==> final(self).wf(),
    {
        let now = self.tick();
        self.get_range_at(cluster, key, start, end, now)
    }
}

} // verus!
