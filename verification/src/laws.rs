//! What holds of the engine across its operations.
//!
//! Each law is stated over the engine as plain values, with the functions
//! that the contracts of the operations use, and is proved from them.

pub mod accounting;
pub mod counting;
pub mod journal;
pub mod moving;
pub mod reading;
