use vstd::prelude::*;

verus! {

/// Hooks that bracket every instruction, for timing it. They are handed the
/// opcode only and cannot touch the machine.
pub trait Profiler {
    /// Called just before an instruction runs.
    fn begin(&mut self);

    /// Called just after, with the instruction's opcode.
    fn end(&mut self, opcode: u32);
}

/// Hooks that do nothing.
pub struct NoProfiler;

impl Profiler for NoProfiler {
    fn begin(&mut self) {
    }

    fn end(&mut self, opcode: u32) {
    }
}

} // verus!
