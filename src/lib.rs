use vstd::prelude::*;

pub mod ast;
pub mod checker;
pub mod codegen;
pub mod config;
pub mod docgen;
pub mod lexer;
pub mod mdir;
pub mod parser;
pub mod resolver;
pub mod text;

verus! {

} // verus!
