//! CRS: a small scripting language — lexer, parser, bytecode compiler and
//! register-based virtual machine, with their contracts.
pub mod strtext;
pub mod text;
pub mod arith;
pub mod ast;
pub mod builtins;
pub mod bytecode;
pub mod codegen;
pub mod compiler;
pub mod fmt;
pub mod graph;
pub mod heap;
pub mod lexer;
pub mod namemap;
pub mod natives;
pub mod grammar;
pub mod parser;
pub mod show;
pub mod disasm;
pub mod laws;
pub mod reach;
pub mod oplaws;
pub mod wf;
pub mod value;
pub mod vm;
