//! A tokenizer for single-line log text (syslog, auditd, kernel and daemon
//! logs). One grammar recognizes common substructures (IP and MAC addresses,
//! hex strings, numbers, quoted strings, `key=value` pairs, bracketed groups,
//! `program[pid]` markers and `audit(timestamp:id)`) and leaves everything
//! else as literal text.
//!
//! `grammar` states the grammar as spec functions over the characters of a
//! line; `tokenize` is proved to return exactly the tokens that it defines.
use vstd::prelude::*;

mod atoms;
pub mod grammar;
pub mod laws;
pub mod shift;
pub mod suffix;
pub mod lemmas;
mod line;
mod parser;
pub mod token;

pub use parser::tokenize;
pub use token::{ParseError, SpecToken, Token};

verus! {

} // verus!
