//! Error taxonomy of the toolchain.
//!
//! Assembly-time failures (`AsmError`) are detected before any instruction
//! runs and abort assembly entirely; no partial binary is produced.
//! Runtime failures (`VmError`) stop execution: divide-by-zero is the one
//! recoverable case, leaving registers and memory at their last valid
//! state, while bounds and stack-discipline faults are fatal.

use vstd::prelude::*;

use crate::scanner::TokenType;

verus! {

/// A fixed region of the machine's flat address space.
#[derive(Debug, Clone, Copy, PartialEq, Eq, Structural)]
pub enum Region {
    Code,
    Data,
    Bss,
    Heap,
    Stack,
}

/// What the parser was prepared to consume when it found something else.
#[derive(Debug, Clone, Copy, PartialEq, Eq, Structural)]
pub enum Expected {
    Register,
    Comma,
    RegisterOrImmediate,
    LabelName,
    Statement,
}

/// A failure while turning source text into a binary program.
#[derive(Debug, Clone, PartialEq, Eq)]
pub enum AsmError {
    /// A character the lexer has no rule for, with its line.
    LexError { ch: u8, line: usize },
    /// The parser met `found` on `line` where `expected` was required.
    ParseError { expected: Expected, found: TokenType, line: usize },
    /// A jump or call names a label that no statement defines.
    UndefinedLabel { name: Vec<u8> },
    /// An integer literal (or a resolved label index) outside the
    /// inclusive range `lo ..= hi` that its operand field can hold.
    ImmediateOutOfRange { lit: Vec<u8>, lo: i64, hi: i64 },
}

/// The ghost value of an `AsmError`, with text as byte sequences.
pub ghost enum AsmErrorV {
    LexError { ch: u8, line: int },
    ParseError { expected: Expected, found: TokenType, line: int },
    UndefinedLabel { name: Seq<u8> },
    ImmediateOutOfRange { lit: Seq<u8>, lo: int, hi: int },
}

impl View for AsmError {
    type V = AsmErrorV;

    open spec fn view(&self) -> AsmErrorV {
        match self {
            AsmError::LexError { ch, line } => AsmErrorV::LexError {
                ch: *ch,
                line: *line as int,
            },
            AsmError::ParseError { expected, found, line } => AsmErrorV::ParseError {
                expected: *expected,
                found: *found,
                line: *line as int,
            },
            AsmError::UndefinedLabel { name } => AsmErrorV::UndefinedLabel { name: name@ },
            AsmError::ImmediateOutOfRange { lit, lo, hi } => AsmErrorV::ImmediateOutOfRange {
                lit: lit@,
                lo: *lo as int,
                hi: *hi as int,
            },
        }
    }
}

/// A failure while executing a loaded program.
#[derive(Debug, Clone, Copy, PartialEq, Eq, Structural)]
pub enum VmError {
    /// A div or mod instruction met a zero divisor; recoverable.
    DivideByZero,
    /// An access left the region it belongs to, at the given byte offset;
    /// also reported when the program counter leaves the code region.
    MemoryOutOfBounds { region: Region, offset: usize },
    /// A push would move the stack pointer below the stack region.
    StackOverflow,
    /// A pop or ret found the stack empty.
    StackUnderflow,
    /// An opcode byte outside the instruction set, or an operand byte
    /// naming a register outside r0..r7.
    IllegalInstruction { opcode: u8 },
}

} // verus!
