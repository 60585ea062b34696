use crate::code::{is_jump_target, Code};
use crate::control::{Control, Opcode};
use crate::eval::{eval, eval_post};
use crate::memory::Memory;
use crate::profile::Profiler;
use crate::stack::Stack;
use crate::word::Word;
use vstd::prelude::*;

verus! {

/// The execution context: program, call data, operand stack, memory and the
/// data of the last return or revert. The position is kept by the driver.
pub struct Machine {
    pub code: Code,
    pub data: Vec<u8>,
    pub stack: Stack,
    pub memory: Memory,
    pub return_data: Vec<u8>,
}

impl Machine {
    pub open spec fn wf(&self) -> bool {
        &&& self.code.wf()
        &&& self.stack.wf()
        &&& self.memory.wf()
    }

    pub fn new(code: Vec<u8>, data: Vec<u8>, stack_limit: usize, memory_limit: usize) -> (r:
        Machine)
        ensures
            r.wf(),
            r.code@ == code@,
            r.data@ == data@,
            r.stack@ == Seq::<Word>::empty(),
            r.stack.spec_limit() == stack_limit,
            r.memory@ == Seq::<u8>::empty(),
            r.memory.spec_limit() == memory_limit,
            r.return_data@ == Seq::<u8>::empty(),
    {
        Machine {
            code: Code::new(code),
            data,
            stack: Stack::new(stack_limit),
            memory: Memory::new(memory_limit),
            return_data: Vec::new(),
        }
    }

    pub fn stack(&self) -> (r: &Stack)
        ensures
            r == self.stack,
    {
        &self.stack
    }

    pub fn memory(&self) -> (r: &Memory)
        ensures
            r == self.memory,
    {
        &self.memory
    }

    pub fn return_data(&self) -> (r: &Vec<u8>)
        ensures
            r@ == self.return_data@,
    {
        &self.return_data
    }

    pub fn is_valid_jump(&self, p: usize) -> (r: bool)
        requires
            self.wf(),
        ensures
            r == is_jump_target(self.code@, p as nat),
    {
        self.code.is_valid(p)
    }

    /// Executes the instruction at `position`; past the end of the code
    /// this is STOP.
    pub fn step(&mut self, position: usize) -> (r: Control)
        requires
            old(self).wf(),
        ensures
            final(self).wf(),
            eval_post(
                if position < old(self).code@.len() {
                    old(self).code@[position as int]
                } else {
                    0x00u8
                },
                position as nat,
                *old(self),
                *final(self),
                r,
            ),
    {
        let op = if position < self.code.len() {
            self.code.bytes()[position]
        } else {
            0x00
        };
        eval(self, Opcode(op), position)
    }

    /// `step`, with `profiler`'s hooks called around the instruction.
    pub fn step_profiled<P: Profiler>(&mut self, position: usize, profiler: &mut P) -> (r: Control)
        requires
            old(self).wf(),
        ensures
            final(self).wf(),
            eval_post(
                if position < old(self).code@.len() {
                    old(self).code@[position as int]
                } else {
                    0x00u8
                },
                position as nat,
                *old(self),
                *final(self),
                r,
            ),
    {
        let op = if position < self.code.len() {
            self.code.bytes()[position]
        } else {
            0x00
        };
        profiler.begin();
        let r = eval(self, Opcode(op), position);
        profiler.end(op as u32);
        r
    }
}

} // verus!
