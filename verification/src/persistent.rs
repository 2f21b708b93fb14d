//! The command log: every persisted mutation as one line of text.

pub mod chars;
pub mod command;
pub mod file;
pub mod parse;
pub mod replay;
