//! Core interpreter of a stack-based virtual machine with EVM instruction
//! semantics: 256-bit words, operand stack, linear memory, jump map and
//! per-instruction evaluation.

pub mod word;
pub mod control;
pub mod stack;
pub mod memory;
pub mod code;
pub mod machine;
pub mod eval;
pub mod laws;
pub mod profile;

pub use control::{Control, ExitError, ExitReason, ExitSucceed, Opcode};
pub use eval::eval;
pub use machine::Machine;
pub use profile::{NoProfiler, Profiler};
pub use word::Word;
