//! Runtime core of a small bytecode toolchain: the instruction encoding,
//! the chunk that holds an encoded program, and the machine that runs it.

pub mod chunk;
pub mod compiler;
pub mod error;
pub mod history;
pub mod lines;
pub mod listing;
pub mod opcode;
pub mod scanner;
pub mod value;
pub mod vm;
