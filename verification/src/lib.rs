//! A Lox toolchain: a character-level scanner, a bytecode chunk format with
//! run-length line tables, an expression compiler, a step-at-a-time virtual
//! machine, an interning object heap backed by an open-addressing hash table,
//! a disassembler, and the syntax layer of the tree-walking interpreter
//! (scanner, parser, printer, resolver and the callable values).

pub mod bytecode;
pub mod compiler;
pub mod debug;
pub mod obj_heap;
pub mod scanner;
pub mod table;
pub mod value;
pub mod vm;
pub mod walker;
