//! A symbolic Turing machine: a tape that grows in both directions, a
//! transition table, and a parser for the textual form of such a table.

pub mod atom;
pub mod automata;
pub mod error;
pub mod grammar;
pub mod parser;
pub mod tape;
