//! The memory accountant: an approximate count of the payload bytes that the
//! engine holds, and the ceiling it is held against.

use vstd::prelude::*;

verus! {

/// Counts payload bytes against a limit.
///
/// The accountant knows nothing of what the store holds: whoever changes the
/// store reports every insertion and every removal.
#[derive(Debug)]
pub struct MemoryHandler {
    current_memory: u128,
    memory_size_limit: u128,
}

/// The number of bytes in `mb` mebibytes.
pub open spec fn spec_megabytes_to_bytes(mb: nat) -> nat {
    mb * 1_048_576
}

/// What is left of `usage` once `freed` bytes are given back: never less
/// than nothing.
pub open spec fn saturating_difference(usage: nat, freed: nat) -> nat {
    if freed <= usage {
        (usage - freed) as nat
    } else {
        0
    }
}

impl MemoryHandler {
    /// The bytes accounted for.
    pub closed spec fn usage(&self) -> nat {
        self.current_memory as nat
    }

    /// The ceiling, in bytes.
    pub closed spec fn limit(&self) -> nat {
        self.memory_size_limit as nat
    }

    /// Whether more is accounted for than the ceiling allows.
    pub open spec fn over_limit(&self) -> bool {
        self.usage() > self.limit()
    }

    /// An accountant that holds nothing, with a ceiling of
    /// `memory_size_limit` mebibytes.
    pub fn new(memory_size_limit: usize) -> (handler: Self)
        ensures
            handler.usage() == 0,
            handler.limit() == spec_megabytes_to_bytes(memory_size_limit as nat),
    {
        MemoryHandler { current_memory: 0, memory_size_limit: megabytes_to_bytes(memory_size_limit) }
    }

    /// Accounts for `additional_memory` more bytes.
    pub fn add_memory(&mut self, additional_memory: usize)
        requires
            old(self).usage() + additional_memory <= u128::MAX,
        ensures
            final(self).usage() == old(self).usage() + additional_memory,
            final(self).limit() == old(self).limit(),
    {
        proof {
            use_type_invariant(&*self);
        }
        self.current_memory = self.current_memory + additional_memory as u128;
    }

    /// Gives back `memory_to_free` bytes; the count stops at zero.
    pub fn delete_memory(&mut self, memory_to_free: usize)
        ensures
            final(self).usage() == saturating_difference(
                old(self).usage(),
                memory_to_free as nat,
            ),
            final(self).limit() == old(self).limit(),
    {
        proof {
            use_type_invariant(&*self);
        }
        let freed: u128 = memory_to_free as u128;
        if freed <= self.current_memory {
            self.current_memory = self.current_memory - freed;
        } else {
            self.current_memory = 0;
        }
    }

    /// Whether more is accounted for than the ceiling allows.
    pub fn is_memory_limit_finished(&self) -> (finished: bool)
        ensures
            finished == self.over_limit(),
    {
        self.current_memory > self.memory_size_limit
    }

    /// The bytes accounted for.
    pub fn current_memory(&self) -> (bytes: u128)
        ensures
            bytes == self.usage(),
    {
        self.current_memory
    }

    /// The ceiling, in bytes.
    pub fn memory_size_limit(&self) -> (bytes: u128)
        ensures
            bytes == self.limit(),
            bytes <= usize::MAX * 1_048_576,
    {
        proof {
            use_type_invariant(self);
        }
        self.memory_size_limit
    }

    #[verifier::type_invariant]
    spec fn bounded(self) -> bool {
        self.memory_size_limit <= usize::MAX * 1_048_576
    }
}

/// The number of bytes in `mb` mebibytes.
pub fn megabytes_to_bytes(mb: usize) -> (bytes: u128)
    ensures
        bytes == spec_megabytes_to_bytes(mb as nat),
{
    assert(mb * 1_048_576 <= u128::MAX) by (nonlinear_arith)
        requires
            mb <= u64::MAX,
    ;
    mb as u128 * 1_048_576
}

} // verus!
