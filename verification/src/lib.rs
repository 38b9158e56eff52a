//! The front end and evaluator of a small expression-oriented functional
//! language: source text in, either a structured diagnostic or a computed
//! result out. A span-tracking scanner feeds a precedence-climbing
//! recursive-descent parser, whose declaration list a call-by-value
//! tree-walking evaluator reduces; three thin backends translate the same
//! declarations to other languages.

pub mod ast;
pub mod display;
pub mod eval;
pub mod haskell;
pub mod java;
pub mod js;
pub mod opcode;
pub mod parser;
pub mod scanner;
pub mod settings;
pub mod span;
pub mod token;

use vstd::prelude::*;

verus! {

} // verus!
