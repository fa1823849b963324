//! A tiny arithmetic language: a lexer, a single-pass compiler to bytecode and a
//! stack machine that runs it.

pub mod get;
pub mod lexer;
pub mod opcode;
pub mod push;
pub mod token;
pub mod compiler;
pub mod value;
pub mod state;
pub mod vm;
pub mod pipeline;
pub mod impls;
pub mod line;
