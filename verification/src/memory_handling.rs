//! Accounting of the bytes the engine holds.

pub mod memory_handling;
