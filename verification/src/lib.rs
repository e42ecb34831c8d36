//! A bytecode compiler and stack-based virtual machine for a small
//! dynamically-typed expression language: a scanner producing tokens, a
//! recursive-descent parser, a code generator lowering an expression tree
//! into a chunk of bytecode, and a fetch-decode-execute loop running it.

pub mod chunk;
pub mod compiler;
pub mod double;
pub mod error;
pub mod expr;
pub mod laws;
pub mod object;
pub mod opcode;
pub mod parse_error;
pub mod parser;
pub mod scan_error;
pub mod scanner;
pub mod stmt;
pub mod text;
pub mod token;
pub mod token_type;
pub mod value;
pub mod vm;
