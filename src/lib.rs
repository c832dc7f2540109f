//! A tiny word-addressed virtual CPU: its instruction encoding, its
//! execution engine with a breakpoint debugger, and a two-pass assembler
//! for its line-oriented text format.

pub mod assembler;
pub mod codec;
pub mod debugger;
pub mod machine;

pub use assembler::{assemble, assemble_bytes, AsmError};
pub use codec::{
    decode, Address, Inst, Instruction, MachineError, Opcodes, Program, ZeroPageAdd, ZeroPageAnd,
    ZeroPageImmediateLoad, ZeroPageLoad, ZeroPageLoadIfPos, ZeroPageNegate, ZeroPageOr,
    ZeroPageStore, ZeroPageXor, DATA, LOAD_ADDRESS, PC, WRITING,
};
pub use debugger::{binary_text, DebugReply};
pub use machine::{Machine, Stop, MEMORY_WORDS};
