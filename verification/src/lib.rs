//! A bytecode compiler and stack-based virtual machine for a small,
//! dynamically typed scripting language with integers, booleans, strings,
//! arrays, hashes, `if`/`else` expressions, `let` bindings, first-class
//! functions and indexing.
//!
//! The pipeline is: AST -> `compiler::Compiler` -> `compiler::ByteCode`
//! -> `vm::VM` -> result value.

pub mod ast;
pub mod code;
pub mod compiler;
pub mod frame;
pub mod object;
pub mod symbol_table;
pub mod vm;
