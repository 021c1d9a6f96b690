//! A single-pass bytecode compiler and stack-based virtual machine for a
//! small expression language: numeric literals, grouping, unary negation
//! and the binary operators `+`, `-`, `*`, `/`.
//!
//! Source text flows through the [`scanner::Scanner`] into the
//! [`parser::Parser`], which emits bytecode directly into a
//! [`chunk::Chunk`]; a [`vm::VirtualMachine`] then executes the chunk on an
//! operand stack. Runtime values are exact decimal fractions held in
//! [`value::Value`].

pub mod chunk;
pub mod line_count;
pub mod parser;
pub mod scanner;
pub mod token;
pub mod vm;
pub mod value;
