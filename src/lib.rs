//! A compiler for a small C-like language to ARM64 assembly: a lexer, a
//! recursive-descent parser with a shunting-yard expression parser, a
//! translator to a three-address intermediate form with scoped symbols, and
//! an assembler that allocates registers by liveness and lays out the stack
//! frame and the data section.
use vstd::prelude::*;

pub mod arm;
pub mod assembly;
pub mod error;
pub mod expression;
pub mod ieee;
pub mod ir;
pub mod lexer;
pub mod parser;
pub mod program;
pub mod text;
pub mod translator;
pub mod types;

verus! {

} // verus!
