use vstd::prelude::*;

verus! {

/// An instruction byte.
#[derive(Clone, Copy, Debug, PartialEq, Eq, Structural)]
pub struct Opcode(pub u8);

/// Successful ways for execution to end.
#[derive(Clone, Copy, Debug, PartialEq, Eq, Structural)]
pub enum ExitSucceed {
    Stopped,
    Returned,
}

/// Ways for execution to fail.
#[derive(Clone, Copy, Debug, PartialEq, Eq, Structural)]
pub enum ExitError {
    StackUnderflow,
    StackOverflow,
    InvalidJump,
    InvalidRange,
    DesignatedInvalid,
    OutOfOffset,
    PCUnderflow,
    OpcodeNotFound,
    CallTooDeep,
    CreateCollision,
}

/// Why execution ended. A revert is neither a success nor an error: it ends
/// execution with return data, and callers tell it apart from both.
#[derive(Clone, Copy, Debug, PartialEq, Eq, Structural)]
pub enum ExitReason {
    Succeed(ExitSucceed),
    Error(ExitError),
    Revert,
}

/// What the driver does after one instruction.
#[derive(Clone, Copy, Debug, PartialEq, Eq, Structural)]
pub enum Control {
    /// Advance the position by this many bytes.
    Continue(usize),
    /// Terminate.
    Exit(ExitReason),
    /// Set the position to this already validated target.
    Jump(usize),
    /// Hand the instruction to the host.
    Trap(Opcode),
}

} // verus!
