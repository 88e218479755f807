//! Reading StableHLO text: a lexer and a parser for single operation lines,
//! the attributes of convolutions, tensor shapes and function arguments, and
//! the decision of which tensor-graph step each operation stands for.
use vstd::prelude::*;

pub mod text;
pub mod lexer;
pub mod ast;
pub mod parser;
pub mod conv;
pub mod shape;
pub mod lower;
pub mod hlo;

verus! {

} // verus!
