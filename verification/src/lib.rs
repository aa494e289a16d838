//! An assembler and virtual machine for a small fixed-width instruction set.
//!
//! The pipeline runs in four stages, each a module of its own:
//! source text is lexed into tokens (`scanner`), parsed into statements and
//! a label table (`parser`), encoded into a stream of 4-byte instructions
//! (`backend`), and finally executed by a register machine (`vm`).
//! The shared contract between the stages is the binary instruction format,
//! described once in `isa` and used by both the encoder and the machine.

pub mod backend;
pub mod errors;
pub mod isa;
pub mod parser;
pub mod scanner;
pub mod vm;
