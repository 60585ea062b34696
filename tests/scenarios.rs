use evm_core::{Control, ExitError, ExitReason, ExitSucceed, Machine, Word};

fn run_with(code: Vec<u8>, data: Vec<u8>, stack_limit: usize) -> (Machine, ExitReason) {
    let mut m = Machine::new(code, data, stack_limit, 1 << 20);
    let mut pos: usize = 0;
    loop {
        match m.step(pos) {
            Control::Continue(n) => pos += n,
            Control::Jump(p) => pos = p,
            Control::Exit(reason) => return (m, reason),
            Control::Trap(op) => panic!("unexpected trap {:?}", op),
        }
    }
}

fn run(code: Vec<u8>) -> (Machine, ExitReason) {
    run_with(code, Vec::new(), 1024)
}

fn top(m: &Machine) -> Word {
    *m.stack().data().last().unwrap()
}

#[test]
fn add_then_stop() {
    let (m, reason) = run(vec![0x60, 0x01, 0x60, 0x02, 0x01, 0x00]);
    assert_eq!(reason, ExitReason::Succeed(ExitSucceed::Stopped));
    assert_eq!(top(&m), Word::from_u64(3));
}

#[test]
fn return_empty() {
    let (m, reason) = run(vec![0x60, 0x00, 0x60, 0x00, 0xf3]);
    assert_eq!(reason, ExitReason::Succeed(ExitSucceed::Returned));
    assert!(m.return_data().is_empty());
}

#[test]
fn store_then_return_word() {
    let (m, reason) = run(vec![0x60, 0x0a, 0x60, 0x00, 0x52, 0x60, 0x20, 0x60, 0x00, 0xf3]);
    assert_eq!(reason, ExitReason::Succeed(ExitSucceed::Returned));
    let mut expected = vec![0u8; 32];
    expected[31] = 0x0a;
    assert_eq!(m.return_data(), &expected);
}

#[test]
fn jump_past_code_end_is_invalid() {
    let (_, reason) = run(vec![0x60, 0x05, 0x56, 0x5b, 0x00]);
    assert_eq!(reason, ExitReason::Error(ExitError::InvalidJump));
}

#[test]
fn jump_to_jumpdest_then_stop() {
    let (m, reason) = run(vec![0x60, 0x03, 0x56, 0x5b, 0x00]);
    assert_eq!(reason, ExitReason::Succeed(ExitSucceed::Stopped));
    assert_eq!(m.stack().len(), 0);
}

#[test]
fn sub_wraps_below_zero() {
    let (m, reason) = run(vec![0x60, 0x01, 0x60, 0x00, 0x03, 0x00]);
    assert_eq!(reason, ExitReason::Succeed(ExitSucceed::Stopped));
    assert_eq!(top(&m), Word::max_value());
}

#[test]
fn designated_invalid() {
    let (_, reason) = run(vec![0xfe]);
    assert_eq!(reason, ExitReason::Error(ExitError::DesignatedInvalid));
}

#[test]
fn stack_overflow_on_push_past_limit() {
    let mut code = Vec::new();
    for _ in 0..1025 {
        code.push(0x60);
        code.push(0x07);
    }
    let (m, reason) = run(code);
    assert_eq!(reason, ExitReason::Error(ExitError::StackOverflow));
    assert_eq!(m.stack().len(), 1024);
}

#[test]
fn stack_full_then_stop() {
    let mut code = Vec::new();
    for _ in 0..1024 {
        code.push(0x58);
    }
    code.push(0x00);
    let (m, reason) = run(code);
    assert_eq!(reason, ExitReason::Succeed(ExitSucceed::Stopped));
    assert_eq!(m.stack().len(), 1024);
    assert_eq!(top(&m), Word::from_u64(1023));
}

#[test]
fn pop_on_empty_underflows() {
    let (_, reason) = run(vec![0x50]);
    assert_eq!(reason, ExitReason::Error(ExitError::StackUnderflow));
}

#[test]
fn add_with_one_operand_underflows() {
    let (m, reason) = run(vec![0x60, 0x01, 0x01]);
    assert_eq!(reason, ExitReason::Error(ExitError::StackUnderflow));
    assert_eq!(m.stack().len(), 1);
}

#[test]
fn dup_then_pop_restores_stack() {
    let (m, reason) = run(vec![0x60, 0x01, 0x60, 0x02, 0x81, 0x50, 0x00]);
    assert_eq!(reason, ExitReason::Succeed(ExitSucceed::Stopped));
    assert_eq!(m.stack().data(), &vec![Word::from_u64(1), Word::from_u64(2)]);
}

#[test]
fn dup_copies_deeper_element() {
    let (m, _) = run(vec![0x60, 0x01, 0x60, 0x02, 0x81, 0x00]);
    assert_eq!(top(&m), Word::from_u64(1));
    assert_eq!(m.stack().len(), 3);
}

#[test]
fn swap_twice_is_identity() {
    let (m, _) = run(vec![0x60, 0x01, 0x60, 0x02, 0x60, 0x03, 0x91, 0x91, 0x00]);
    assert_eq!(
        m.stack().data(),
        &vec![Word::from_u64(1), Word::from_u64(2), Word::from_u64(3)]
    );
}

#[test]
fn swap_exchanges_top_and_depth() {
    let (m, _) = run(vec![0x60, 0x01, 0x60, 0x02, 0x60, 0x03, 0x91, 0x00]);
    assert_eq!(
        m.stack().data(),
        &vec![Word::from_u64(3), Word::from_u64(2), Word::from_u64(1)]
    );
}

#[test]
fn swap_without_depth_underflows() {
    let (_, reason) = run(vec![0x60, 0x01, 0x90]);
    assert_eq!(reason, ExitReason::Error(ExitError::StackUnderflow));
}

#[test]
fn mstore_then_mload_reads_word() {
    // PUSH32 word; PUSH1 0x40; MSTORE; PUSH1 0x40; MLOAD; STOP
    let mut code = vec![0x7f];
    for i in 0..32u8 {
        code.push(i + 1);
    }
    code.extend_from_slice(&[0x60, 0x40, 0x52, 0x60, 0x40, 0x51, 0x00]);
    let (m, _) = run(code);
    let expected = Word {
        w0: 0x191a1b1c1d1e1f20,
        w1: 0x1112131415161718,
        w2: 0x090a0b0c0d0e0f10,
        w3: 0x0102030405060708,
    };
    assert_eq!(top(&m), expected);
    assert_eq!(m.memory().len(), 0x60);
}

#[test]
fn mstore8_then_mload_low_byte() {
    // PUSH2 0x12ab; PUSH1 40; MSTORE8; PUSH1 9; MLOAD; STOP
    let (m, _) = run(vec![0x61, 0x12, 0xab, 0x60, 40, 0x53, 0x60, 9, 0x51, 0x00]);
    assert_eq!(top(&m), Word::from_u64(0xab));
}

#[test]
fn msize_grows_in_words() {
    // PUSH1 1; PUSH1 33; MSTORE8; MSIZE; STOP
    let (m, _) = run(vec![0x60, 0x01, 0x60, 33, 0x53, 0x59, 0x00]);
    assert_eq!(top(&m), Word::from_u64(64));
    // MSIZE on untouched memory
    let (m, _) = run(vec![0x59, 0x00]);
    assert_eq!(top(&m), Word::from_u64(0));
}

#[test]
fn msize_never_shrinks() {
    // PUSH1 0x80; MLOAD; POP; PUSH1 0; MLOAD; POP; MSIZE; STOP
    let (m, _) = run(vec![0x60, 0x80, 0x51, 0x50, 0x60, 0x00, 0x51, 0x50, 0x59, 0x00]);
    assert_eq!(top(&m), Word::from_u64(0xa0));
}

#[test]
fn unwritten_memory_reads_zero() {
    let (m, _) = run(vec![0x60, 0x10, 0x51, 0x00]);
    assert_eq!(top(&m), Word::zero());
    assert_eq!(m.memory().len(), 64);
    assert!(m.memory().data().iter().all(|b| *b == 0));
}

#[test]
fn memory_past_limit_is_invalid_range() {
    let mut m = Machine::new(vec![0x60, 0x40, 0x51, 0x00], Vec::new(), 1024, 64);
    assert_eq!(m.step(0), Control::Continue(2));
    assert_eq!(
        m.step(2),
        Control::Exit(ExitReason::Error(ExitError::InvalidRange))
    );
    assert_eq!(m.stack().len(), 1);
    assert_eq!(m.memory().len(), 0);
}

#[test]
fn huge_offset_is_invalid_range() {
    // PUSH1 1 (len); PUSH32 2^255 (offset); RETURN
    let mut code = vec![0x60, 0x01, 0x7f, 0x80];
    code.extend_from_slice(&[0u8; 31]);
    code.push(0xf3);
    let (_, reason) = run(code);
    assert_eq!(reason, ExitReason::Error(ExitError::InvalidRange));
}

#[test]
fn zero_length_return_ignores_offset() {
    // PUSH1 0 (len); PUSH32 2^255 (offset); RETURN
    let mut code = vec![0x60, 0x00, 0x7f, 0x80];
    code.extend_from_slice(&[0u8; 31]);
    code.push(0xf3);
    let (m, reason) = run(code);
    assert_eq!(reason, ExitReason::Succeed(ExitSucceed::Returned));
    assert!(m.return_data().is_empty());
    assert_eq!(m.memory().len(), 0);
}

#[test]
fn revert_keeps_data() {
    // PUSH1 0xff; PUSH1 0; MSTORE8; PUSH1 2; PUSH1 0; REVERT
    let (m, reason) = run(vec![0x60, 0xff, 0x60, 0x00, 0x53, 0x60, 0x02, 0x60, 0x00, 0xfd]);
    assert_eq!(reason, ExitReason::Revert);
    assert_eq!(m.return_data(), &vec![0xff, 0x00]);
}

#[test]
fn jump_into_push_data_is_invalid() {
    // PUSH1 4; JUMP; PUSH1 0x5b (data byte at 4 looks like JUMPDEST); STOP
    let (_, reason) = run(vec![0x60, 0x04, 0x56, 0x60, 0x5b, 0x00]);
    assert_eq!(reason, ExitReason::Error(ExitError::InvalidJump));
}

#[test]
fn jump_map_marks_only_instruction_jumpdests() {
    let m = Machine::new(vec![0x5b, 0x61, 0x5b, 0x5b, 0x5b, 0x00], Vec::new(), 1024, 1024);
    assert!(m.is_valid_jump(0));
    assert!(!m.is_valid_jump(1));
    assert!(!m.is_valid_jump(2));
    assert!(!m.is_valid_jump(3));
    assert!(m.is_valid_jump(4));
    assert!(!m.is_valid_jump(5));
    assert!(!m.is_valid_jump(6));
}

#[test]
fn jumpi_zero_condition_advances() {
    // PUSH1 0 (cond); PUSH1 0x63 (bogus target); JUMPI; STOP
    let mut m = Machine::new(vec![0x60, 0x00, 0x60, 0x63, 0x57, 0x00], Vec::new(), 1024, 1024);
    assert_eq!(m.step(0), Control::Continue(2));
    assert_eq!(m.step(2), Control::Continue(2));
    assert_eq!(m.step(4), Control::Continue(1));
    assert_eq!(m.stack().len(), 0);
}

#[test]
fn jumpi_taken_to_valid_target() {
    // PUSH1 1; PUSH1 6; JUMPI; INVALID; JUMPDEST; STOP
    let (_, reason) = run(vec![0x60, 0x01, 0x60, 0x06, 0x57, 0xfe, 0x5b, 0x00]);
    assert_eq!(reason, ExitReason::Succeed(ExitSucceed::Stopped));
}

#[test]
fn push_pads_past_code_end() {
    let (m, reason) = run(vec![0x62, 0x01, 0x02]);
    assert_eq!(reason, ExitReason::Succeed(ExitSucceed::Stopped));
    assert_eq!(top(&m), Word::from_u64(0x010200));
}

#[test]
fn pc_and_codesize() {
    let (m, _) = run(vec![0x5b, 0x58, 0x38, 0x00]);
    assert_eq!(m.stack().data(), &vec![Word::from_u64(1), Word::from_u64(4)]);
}

#[test]
fn calldata_load_size_and_copy() {
    let data = vec![0xaa, 0xbb, 0xcc];
    // CALLDATASIZE; PUSH1 1; CALLDATALOAD; PUSH1 4 (len); PUSH1 1 (src); PUSH1 0 (dst); CALLDATACOPY; STOP
    let code = vec![0x36, 0x60, 0x01, 0x35, 0x60, 0x04, 0x60, 0x01, 0x60, 0x00, 0x37, 0x00];
    let (m, reason) = run_with(code, data, 1024);
    assert_eq!(reason, ExitReason::Succeed(ExitSucceed::Stopped));
    let loaded = Word { w0: 0, w1: 0, w2: 0, w3: 0xbbcc_0000_0000_0000 };
    assert_eq!(m.stack().data(), &vec![Word::from_u64(3), loaded]);
    assert_eq!(&m.memory().data()[0..5], &[0xbb, 0xcc, 0x00, 0x00, 0x00]);
    assert_eq!(m.memory().len(), 32);
}

#[test]
fn codecopy_pads_with_zero() {
    // PUSH1 8 (len); PUSH1 0 (src); PUSH1 0 (dst); CODECOPY; STOP
    let code = vec![0x60, 0x08, 0x60, 0x00, 0x60, 0x00, 0x39, 0x00];
    let (m, _) = run(code.clone());
    assert_eq!(&m.memory().data()[0..8], &code[..]);
    let (m, _) = run(vec![0x60, 0x04, 0x60, 0x05, 0x60, 0x00, 0x39, 0x00]);
    assert_eq!(&m.memory().data()[0..4], &[0x00, 0x39, 0x00, 0x00]);
}

#[test]
fn external_opcode_traps() {
    let mut m = Machine::new(vec![0x60, 0x01, 0x54], Vec::new(), 1024, 1024);
    assert_eq!(m.step(0), Control::Continue(2));
    assert_eq!(m.step(2), Control::Trap(evm_core::Opcode(0x54)));
    assert_eq!(m.stack().len(), 1);
}

#[test]
fn step_past_end_is_stop() {
    let mut m = Machine::new(vec![0x5b], Vec::new(), 1024, 1024);
    assert_eq!(m.step(1), Control::Exit(ExitReason::Succeed(ExitSucceed::Stopped)));
    assert_eq!(m.step(100), Control::Exit(ExitReason::Succeed(ExitSucceed::Stopped)));
}

struct Recorder {
    begun: usize,
    ended: Vec<u32>,
}

impl evm_core::Profiler for Recorder {
    fn begin(&mut self) {
        self.begun += 1;
    }

    fn end(&mut self, opcode: u32) {
        assert_eq!(self.begun, self.ended.len() + 1);
        self.ended.push(opcode);
    }
}

#[test]
fn profiler_brackets_each_instruction() {
    let mut m = Machine::new(vec![0x60, 0x01, 0x50, 0xfe], Vec::new(), 1024, 1024);
    let mut rec = Recorder { begun: 0, ended: Vec::new() };
    assert_eq!(m.step_profiled(0, &mut rec), Control::Continue(2));
    assert_eq!(m.step_profiled(2, &mut rec), Control::Continue(1));
    assert_eq!(
        m.step_profiled(3, &mut rec),
        Control::Exit(ExitReason::Error(ExitError::DesignatedInvalid))
    );
    assert_eq!(rec.begun, 3);
    assert_eq!(rec.ended, vec![0x60, 0x50, 0xfe]);
    let mut quiet = evm_core::NoProfiler;
    assert_eq!(m.step_profiled(4, &mut quiet), Control::Exit(ExitReason::Succeed(ExitSucceed::Stopped)));
}

#[test]
fn eval_runs_a_given_opcode() {
    let mut m = Machine::new(Vec::new(), Vec::new(), 1024, 1024);
    assert_eq!(evm_core::eval(&mut m, evm_core::Opcode(0x58), 7), Control::Continue(1));
    assert_eq!(top(&m), Word::from_u64(7));
    assert_eq!(evm_core::eval(&mut m, evm_core::Opcode(0x19), 0), Control::Continue(1));
    assert_eq!(top(&m), Word::from_u64(7).not());
}
