//! A small bilingual (Spanish/English keyword) scripting language, compiled
//! to a compact bytecode and executed on a verified stack-based virtual
//! machine.
//!
//! The pipeline: source text -> lexer -> parser -> AST -> code generator ->
//! {bytecode, constant pool} -> structural verifier (at VM construction) ->
//! VM execution loop.

pub mod ast;
pub mod checker;
pub mod codegen;
pub mod compiler;
pub mod constant_pool;
pub mod decoder;
pub mod instructions;
pub mod keywords;
pub mod lexer;
pub mod parser;
pub mod value;
pub mod vm;
