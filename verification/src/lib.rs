//! Front end for a small imperative language: a hand-written lexical DFA
//! that turns source text into classified tokens backed by a symbol table,
//! and a table-driven SLR(1) shift/reduce parser with numbered error-recovery
//! policies. All table and source input arrives as plain values; file reading
//! and message formatting live outside this crate.
#![verifier::loop_isolation(false)]

pub mod text;
pub mod class;
pub mod token_type;
pub mod token;
pub mod symbol_table;
pub mod lexical_afd;
pub mod scanner;
pub mod grammar;
pub mod slr_table;
pub mod parser;
