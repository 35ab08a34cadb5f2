//! A compiler front end and LLVM IR generator for the Ionic language.
use vstd::prelude::*;

pub mod text;
pub mod ast;
pub mod lexer;
pub mod table;
pub mod semantic;
pub mod codegen;
pub mod parser;
pub mod imports;
pub mod driver;

verus! {
} // verus!
