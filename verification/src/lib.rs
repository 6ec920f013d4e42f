//! An in-memory to-do list: an ordered collection of tasks with stable
//! identifiers, a parser for a small line-oriented command grammar, a
//! dispatcher that applies commands to the store, and a textual storage
//! format that round-trips every well-formed list.

pub mod list;
pub mod num;
pub mod parse;
pub mod repl;
pub mod storage;
