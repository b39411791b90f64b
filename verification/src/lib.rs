//! A small programming language: a scanner, a single-pass bytecode compiler
//! and a stack-based virtual machine.

pub mod chunk;
pub mod compiler;
pub mod disassembler;
pub mod error;
pub mod globals;
pub mod grammar;
pub mod parser;
pub mod parserule;
pub mod playground;
pub mod precedence;
pub mod instruction;
pub mod output;
pub mod scanner;
pub mod text;
pub mod token;
pub mod value;
pub mod vm;
