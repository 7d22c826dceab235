//! A small scripting language: tokenizer, parser, tree-walking interpreter,
//! bytecode compiler and stack-based virtual machine.

pub mod ast;
pub mod bytecode;
pub mod compiler;
pub mod error;
pub mod interpreter;
pub mod jumps;
pub mod lexer;
pub mod parser;
pub mod pools;
pub mod text;
pub mod token;
pub mod vm;
