//! What text reads hand back.

pub mod string_result;
