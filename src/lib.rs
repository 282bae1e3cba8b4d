//! Core of the Flare toolchain: a semantic compiler from the syntax tree to a
//! stack-machine instruction stream, a peephole optimizer with jump relocation,
//! a binary codec for the stream, the state machine of the virtual machine,
//! and the tokenizer that feeds the front end.
pub mod errors;
pub mod instructions;
pub mod tokens;
pub mod lexer;
pub mod values;
pub mod context;
pub mod ast;
pub mod macros;
pub mod compiler;
pub mod optimizer;
pub mod codec;
pub mod vm;
pub mod text;
