//! The result of a read that hands back text.

use crate::cache::cache::CacheType;
use vstd::prelude::*;

verus! {

/// A piece of text, or none, with the kind it came from.
#[derive(Clone, Debug)]
pub struct StringResult {
    pub value: Option<String>,
    pub value_type: CacheType,
}

impl StringResult {
    /// The result shows the text `text`, or none.
    pub open spec fn shows(&self, text: Option<Seq<char>>) -> bool {
        &&& self.value_type == CacheType::Str
        &&& match text {
            Some(chars) => self.value matches Some(held) && held@ == chars,
            None => self.value is None,
        }
    }

    /// A result of the text kind.
    pub fn new(value: Option<String>) -> (result: Self)
        ensures
            result.value == value,
            result.value_type == CacheType::Str,
    {
        StringResult { value, value_type: CacheType::Str }
    }
}

} // verus!
