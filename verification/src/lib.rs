use vstd::prelude::*;

pub mod text;
pub mod error;
pub mod ast;
pub mod token;
pub mod token_text;
pub mod v2;
pub mod lexer;
pub mod parser;
pub mod bytecode;
pub mod compiler;
pub mod values;
pub mod assoc;
pub mod vm;
pub mod interpreter;
pub mod document;
pub mod names;
pub mod ostools;

verus! {
} // verus!
