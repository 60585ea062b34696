use crate::code::is_jump_target;
use crate::control::{Control, ExitError, ExitReason, ExitSucceed, Opcode};
use crate::machine::Machine;
use crate::memory::{ceil32, grown, overwrite, padded_slice, range_fits};
use crate::stack::swapped;
use crate::word::{
    addmod_value, and_words, be_bytes, be_value, bool_value, byte_value,
    lemma_word_of, mulmod_value, not_word, or_words, sar_value, sdiv_value,
    shl_value, shr_value, signextend_value, srem_value, to_signed, u256_from_big_endian,
    u256_to_big_endian, word_of, wrap, xor_words, Word, lemma_be_bytes_len, lemma_low_byte,
};
use vstd::arithmetic::power::pow;
use vstd::prelude::*;

verus! {

// ---- What each instruction does, stated over the machine before and after ----

/// What no instruction changes.
pub open spec fn frame(m: Machine, n: Machine) -> bool {
    &&& n.code == m.code
    &&& n.data@ == m.data@
    &&& n.stack.spec_limit() == m.stack.spec_limit()
    &&& n.memory.spec_limit() == m.memory.spec_limit()
}

pub open spec fn unchanged(m: Machine, n: Machine) -> bool {
    &&& n.stack@ == m.stack@
    &&& n.memory@ == m.memory@
    &&& n.return_data@ == m.return_data@
}

pub open spec fn fails(m: Machine, n: Machine, r: Control, e: ExitError) -> bool {
    r == Control::Exit(ExitReason::Error(e)) && unchanged(m, n)
}

/// The stack lost its top `k` elements and gained `pushed`; memory and
/// return data stayed.
pub open spec fn replaced(m: Machine, n: Machine, k: int, pushed: Seq<Word>) -> bool {
    &&& n.stack@ == m.stack@.subrange(0, m.stack@.len() - k) + pushed
    &&& n.memory@ == m.memory@
    &&& n.return_data@ == m.return_data@
}

pub open spec fn is_binary(op: u8) -> bool {
    (0x01 <= op <= 0x07) || op == 0x0a || op == 0x0b || (0x10 <= op <= 0x14) || (0x16 <= op
        <= 0x18) || (0x1a <= op <= 0x1d)
}

/// The result of a two-operand instruction on `a` (the top) and `b`.
pub open spec fn binary_result(op: u8, a: Word, b: Word) -> Word {
    let x = a.val();
    let y = b.val();
    if op == 0x01 {
        word_of(wrap((x + y) as int))
    } else if op == 0x02 {
        word_of(wrap((x * y) as int))
    } else if op == 0x03 {
        word_of(wrap(x - y))
    } else if op == 0x04 {
        word_of(if y == 0 { 0 } else { x / y })
    } else if op == 0x05 {
        word_of(sdiv_value(x, y))
    } else if op == 0x06 {
        word_of(if y == 0 { 0 } else { x % y })
    } else if op == 0x07 {
        word_of(srem_value(x, y))
    } else if op == 0x0a {
        word_of(wrap(pow(x as int, y)))
    } else if op == 0x0b {
        word_of(signextend_value(x, y))
    } else if op == 0x10 {
        word_of(bool_value(x < y))
    } else if op == 0x11 {
        word_of(bool_value(x > y))
    } else if op == 0x12 {
        word_of(bool_value(to_signed(x) < to_signed(y)))
    } else if op == 0x13 {
        word_of(bool_value(to_signed(x) > to_signed(y)))
    } else if op == 0x14 {
        word_of(bool_value(a == b))
    } else if op == 0x16 {
        and_words(a, b)
    } else if op == 0x17 {
        or_words(a, b)
    } else if op == 0x18 {
        xor_words(a, b)
    } else if op == 0x1a {
        word_of(byte_value(x, y))
    } else if op == 0x1b {
        word_of(shl_value(x, y))
    } else if op == 0x1c {
        word_of(shr_value(x, y))
    } else {
        word_of(sar_value(x, y))
    }
}

/// Pops `arity` operands and pushes one result.
pub open spec fn operator_post(m: Machine, n: Machine, r: Control, arity: int, w: Word) -> bool {
    if m.stack@.len() < arity {
        fails(m, n, r, ExitError::StackUnderflow)
    } else {
        r == Control::Continue(1) && replaced(m, n, arity, seq![w])
    }
}

/// Pushes `w` and advances by `advance`.
pub open spec fn push_post(m: Machine, n: Machine, r: Control, w: Word, advance: nat) -> bool {
    if m.stack@.len() >= m.stack.spec_limit() {
        fails(m, n, r, ExitError::StackOverflow)
    } else {
        r == Control::Continue(advance as usize) && replaced(m, n, 0, seq![w])
    }
}

/// The value of a push with `len` immediate bytes at `pos`.
pub open spec fn push_value(code: Seq<u8>, pos: nat, len: nat) -> Word {
    word_of(be_value(padded_slice(code, pos + 1, len)))
}

pub open spec fn mload_post(m: Machine, n: Machine, r: Control) -> bool {
    if m.stack@.len() < 1 {
        fails(m, n, r, ExitError::StackUnderflow)
    } else {
        let o = m.stack.at_depth(0).val();
        if !range_fits(m.memory.spec_limit(), o, 32) {
            fails(m, n, r, ExitError::InvalidRange)
        } else {
            let mem = grown(m.memory@, o, 32);
            &&& r == Control::Continue(1)
            &&& n.memory@ == mem
            &&& n.stack@ == m.stack@.drop_last().push(
                word_of(be_value(mem.subrange(o as int, (o + 32) as int))),
            )
            &&& n.return_data@ == m.return_data@
        }
    }
}

/// Stores `bytes` at the offset on top of the stack, popping the offset and
/// the value below it.
pub open spec fn store_post(m: Machine, n: Machine, r: Control, bytes: Seq<u8>) -> bool {
    let o = m.stack.at_depth(0).val();
    if !range_fits(m.memory.spec_limit(), o, bytes.len()) {
        fails(m, n, r, ExitError::InvalidRange)
    } else {
        &&& r == Control::Continue(1)
        &&& n.memory@ == overwrite(grown(m.memory@, o, bytes.len()), o as int, bytes)
        &&& n.stack@ == m.stack@.drop_last().drop_last()
        &&& n.return_data@ == m.return_data@
    }
}

pub open spec fn mstore_post(m: Machine, n: Machine, r: Control) -> bool {
    if m.stack@.len() < 2 {
        fails(m, n, r, ExitError::StackUnderflow)
    } else {
        store_post(m, n, r, be_bytes(m.stack.at_depth(1).val(), 32))
    }
}

pub open spec fn mstore8_post(m: Machine, n: Machine, r: Control) -> bool {
    if m.stack@.len() < 2 {
        fails(m, n, r, ExitError::StackUnderflow)
    } else {
        store_post(m, n, r, seq![(m.stack.at_depth(1).val() % 256) as u8])
    }
}

/// Copies from `src` into memory: the operands are the memory offset, the
/// source offset and the length.
pub open spec fn copy_post(m: Machine, n: Machine, r: Control, src: Seq<u8>) -> bool {
    if m.stack@.len() < 3 {
        fails(m, n, r, ExitError::StackUnderflow)
    } else {
        let mo = m.stack.at_depth(0).val();
        let so = m.stack.at_depth(1).val();
        let len = m.stack.at_depth(2).val();
        if !range_fits(m.memory.spec_limit(), mo, len) {
            fails(m, n, r, ExitError::InvalidRange)
        } else {
            &&& r == Control::Continue(1)
            &&& n.memory@ == if len == 0 {
                m.memory@
            } else {
                overwrite(grown(m.memory@, mo, len), mo as int, padded_slice(src, so, len))
            }
            &&& n.stack@ == m.stack@.subrange(0, m.stack@.len() - 3)
            &&& n.return_data@ == m.return_data@
        }
    }
}

/// Ends execution with `reason`, keeping the memory range given by the
/// offset and length on the stack as return data.
pub open spec fn return_post(m: Machine, n: Machine, r: Control, reason: ExitReason) -> bool {
    if m.stack@.len() < 2 {
        fails(m, n, r, ExitError::StackUnderflow)
    } else {
        let o = m.stack.at_depth(0).val();
        let len = m.stack.at_depth(1).val();
        if !range_fits(m.memory.spec_limit(), o, len) {
            fails(m, n, r, ExitError::InvalidRange)
        } else {
            let mem = grown(m.memory@, o, len);
            &&& r == Control::Exit(reason)
            &&& n.memory@ == mem
            &&& n.return_data@ == if len == 0 {
                Seq::<u8>::empty()
            } else {
                mem.subrange(o as int, (o + len) as int)
            }
            &&& n.stack@ == m.stack@.drop_last().drop_last()
        }
    }
}

pub open spec fn jump_post(m: Machine, n: Machine, r: Control) -> bool {
    if m.stack@.len() < 1 {
        fails(m, n, r, ExitError::StackUnderflow)
    } else {
        let d = m.stack.at_depth(0).val();
        if is_jump_target(m.code@, d) {
            r == Control::Jump(d as usize) && replaced(m, n, 1, seq![])
        } else {
            fails(m, n, r, ExitError::InvalidJump)
        }
    }
}

pub open spec fn jumpi_post(m: Machine, n: Machine, r: Control) -> bool {
    if m.stack@.len() < 2 {
        fails(m, n, r, ExitError::StackUnderflow)
    } else {
        let d = m.stack.at_depth(0).val();
        let c = m.stack.at_depth(1).val();
        if c == 0 {
            r == Control::Continue(1) && replaced(m, n, 2, seq![])
        } else if is_jump_target(m.code@, d) {
            r == Control::Jump(d as usize) && replaced(m, n, 2, seq![])
        } else {
            fails(m, n, r, ExitError::InvalidJump)
        }
    }
}

pub open spec fn dup_post(m: Machine, n: Machine, r: Control, k: int) -> bool {
    if k > m.stack@.len() {
        fails(m, n, r, ExitError::StackUnderflow)
    } else {
        push_post(m, n, r, m.stack.at_depth(k - 1), 1)
    }
}

pub open spec fn swap_post(m: Machine, n: Machine, r: Control, k: int) -> bool {
    if k >= m.stack@.len() {
        fails(m, n, r, ExitError::StackUnderflow)
    } else {
        &&& r == Control::Continue(1)
        &&& n.stack@ == swapped(m.stack@, k)
        &&& n.memory@ == m.memory@
        &&& n.return_data@ == m.return_data@
    }
}

/// The effect of executing `op` at `pos` on machine `m`, giving machine `n`
/// and control `r`.
pub open spec fn eval_post(op: u8, pos: nat, m: Machine, n: Machine, r: Control) -> bool {
    &&& frame(m, n)
    &&& if op == 0x00 {
        r == Control::Exit(ExitReason::Succeed(ExitSucceed::Stopped)) && unchanged(m, n)
    } else if is_binary(op) {
        operator_post(
            m,
            n,
            r,
            2,
            binary_result(op, m.stack.at_depth(0), m.stack.at_depth(1)),
        )
    } else if op == 0x08 {
        operator_post(
            m,
            n,
            r,
            3,
            word_of(
                addmod_value(
                    m.stack.at_depth(0).val(),
                    m.stack.at_depth(1).val(),
                    m.stack.at_depth(2).val(),
                ),
            ),
        )
    } else if op == 0x09 {
        operator_post(
            m,
            n,
            r,
            3,
            word_of(
                mulmod_value(
                    m.stack.at_depth(0).val(),
                    m.stack.at_depth(1).val(),
                    m.stack.at_depth(2).val(),
                ),
            ),
        )
    } else if op == 0x15 {
        operator_post(m, n, r, 1, word_of(bool_value(m.stack.at_depth(0).val() == 0)))
    } else if op == 0x19 {
        operator_post(m, n, r, 1, not_word(m.stack.at_depth(0)))
    } else if op == 0x35 {
        operator_post(
            m,
            n,
            r,
            1,
            word_of(be_value(padded_slice(m.data@, m.stack.at_depth(0).val(), 32))),
        )
    } else if op == 0x36 {
        push_post(m, n, r, word_of(m.data@.len()), 1)
    } else if op == 0x37 {
        copy_post(m, n, r, m.data@)
    } else if op == 0x38 {
        push_post(m, n, r, word_of(m.code@.len()), 1)
    } else if op == 0x39 {
        copy_post(m, n, r, m.code@)
    } else if op == 0x50 {
        if m.stack@.len() < 1 {
            fails(m, n, r, ExitError::StackUnderflow)
        } else {
            r == Control::Continue(1) && replaced(m, n, 1, seq![])
        }
    } else if op == 0x51 {
        mload_post(m, n, r)
    } else if op == 0x52 {
        mstore_post(m, n, r)
    } else if op == 0x53 {
        mstore8_post(m, n, r)
    } else if op == 0x56 {
        jump_post(m, n, r)
    } else if op == 0x57 {
        jumpi_post(m, n, r)
    } else if op == 0x58 {
        push_post(m, n, r, word_of(pos), 1)
    } else if op == 0x59 {
        push_post(m, n, r, word_of(m.memory@.len()), 1)
    } else if op == 0x5b {
        r == Control::Continue(1) && unchanged(m, n)
    } else if 0x60 <= op <= 0x7f {
        push_post(
            m,
            n,
            r,
            push_value(m.code@, pos, (op - 0x5f) as nat),
            (op - 0x5f + 1) as nat,
        )
    } else if 0x80 <= op <= 0x8f {
        dup_post(m, n, r, op - 0x7f)
    } else if 0x90 <= op <= 0x9f {
        swap_post(m, n, r, op - 0x8f)
    } else if op == 0xf3 {
        return_post(m, n, r, ExitReason::Succeed(ExitSucceed::Returned))
    } else if op == 0xfd {
        return_post(m, n, r, ExitReason::Revert)
    } else if op == 0xfe {
        fails(m, n, r, ExitError::DesignatedInvalid)
    } else {
        r == Control::Trap(Opcode(op)) && unchanged(m, n)
    }
}


// ---- Handlers ----

fn underflow() -> (r: Control)
    ensures
        r == Control::Exit(ExitReason::Error(ExitError::StackUnderflow)),
{
    Control::Exit(ExitReason::Error(ExitError::StackUnderflow))
}

fn error(e: ExitError) -> (r: Control)
    ensures
        r == Control::Exit(ExitReason::Error(e)),
{
    Control::Exit(ExitReason::Error(e))
}

/// The result of a two-operand instruction.
fn apply_binary(op: u8, a: Word, b: Word) -> (r: Word)
    requires
        is_binary(op),
    ensures
        r == binary_result(op, a, b),
{
    let r = if op == 0x01 {
        a.add(b)
    } else if op == 0x02 {
        a.mul(b)
    } else if op == 0x03 {
        a.sub(b)
    } else if op == 0x04 {
        a.div(b)
    } else if op == 0x05 {
        a.sdiv(b)
    } else if op == 0x06 {
        a.rem(b)
    } else if op == 0x07 {
        a.srem(b)
    } else if op == 0x0a {
        a.exp(b)
    } else if op == 0x0b {
        Word::signextend(a, b)
    } else if op == 0x10 {
        from_bool(a.lt(b))
    } else if op == 0x11 {
        from_bool(a.gt(b))
    } else if op == 0x12 {
        from_bool(a.slt(b))
    } else if op == 0x13 {
        from_bool(a.sgt(b))
    } else if op == 0x14 {
        from_bool(a == b)
    } else if op == 0x16 {
        a.bitand(b)
    } else if op == 0x17 {
        a.bitor(b)
    } else if op == 0x18 {
        a.bitxor(b)
    } else if op == 0x1a {
        Word::byte(a, b)
    } else if op == 0x1b {
        Word::shl(a, b)
    } else if op == 0x1c {
        Word::shr(a, b)
    } else {
        Word::sar(a, b)
    };
    proof {
        lemma_word_of(r);
    }
    r
}

fn from_bool(b: bool) -> (r: Word)
    ensures
        r.val() == bool_value(b),
{
    if b {
        Word::one()
    } else {
        Word::zero()
    }
}

fn eval_binary(state: &mut Machine, op: u8) -> (r: Control)
    requires
        old(state).wf(),
        is_binary(op),
    ensures
        final(state).wf(),
        frame(*old(state), *final(state)),
        operator_post(
            *old(state),
            *final(state),
            r,
            2,
            binary_result(op, old(state).stack.at_depth(0), old(state).stack.at_depth(1)),
        ),
{
    if state.stack.len() < 2 {
        return underflow();
    }
    let ghost s = state.stack@;
    let a = state.stack.take_top();
    let b = state.stack.take_top();
    state.stack.put_top(apply_binary(op, a, b));
    assert(state.stack@ =~= s.subrange(0, s.len() - 2) + seq![binary_result(op, a, b)]);
    Control::Continue(1)
}

fn eval_ternary(state: &mut Machine, op: u8) -> (r: Control)
    requires
        old(state).wf(),
        op == 0x08 || op == 0x09,
    ensures
        final(state).wf(),
        frame(*old(state), *final(state)),
        operator_post(
            *old(state),
            *final(state),
            r,
            3,
            word_of(
                if op == 0x08 {
                    addmod_value(
                        old(state).stack.at_depth(0).val(),
                        old(state).stack.at_depth(1).val(),
                        old(state).stack.at_depth(2).val(),
                    )
                } else {
                    mulmod_value(
                        old(state).stack.at_depth(0).val(),
                        old(state).stack.at_depth(1).val(),
                        old(state).stack.at_depth(2).val(),
                    )
                },
            ),
        ),
{
    if state.stack.len() < 3 {
        return underflow();
    }
    let ghost s = state.stack@;
    let a = state.stack.take_top();
    let b = state.stack.take_top();
    let c = state.stack.take_top();
    let v = if op == 0x08 {
        a.addmod(b, c)
    } else {
        a.mulmod(b, c)
    };
    proof {
        lemma_word_of(v);
    }
    state.stack.put_top(v);
    assert(state.stack@ =~= s.subrange(0, s.len() - 3) + seq![v]);
    Control::Continue(1)
}

fn eval_unary(state: &mut Machine, op: u8) -> (r: Control)
    requires
        old(state).wf(),
        op == 0x15 || op == 0x19,
    ensures
        final(state).wf(),
        frame(*old(state), *final(state)),
        operator_post(
            *old(state),
            *final(state),
            r,
            1,
            if op == 0x15 {
                word_of(bool_value(old(state).stack.at_depth(0).val() == 0))
            } else {
                not_word(old(state).stack.at_depth(0))
            },
        ),
{
    if state.stack.len() < 1 {
        return underflow();
    }
    let ghost s = state.stack@;
    let a = state.stack.take_top();
    let v = if op == 0x15 {
        let z = from_bool(a.is_zero());
        proof {
            lemma_word_of(z);
        }
        z
    } else {
        a.not()
    };
    state.stack.put_top(v);
    assert(state.stack@ =~= s.subrange(0, s.len() - 1) + seq![v]);
    Control::Continue(1)
}

/// Pushes `w`, advancing by `advance`.
fn push_word(state: &mut Machine, w: Word, advance: usize) -> (r: Control)
    requires
        old(state).wf(),
    ensures
        final(state).wf(),
        frame(*old(state), *final(state)),
        push_post(*old(state), *final(state), r, w, advance as nat),
{
    if state.stack.len() >= state.stack.limit() {
        return error(ExitError::StackOverflow);
    }
    let ghost s = state.stack@;
    state.stack.put_top(w);
    assert(state.stack@ =~= s.subrange(0, s.len() - 0) + seq![w]);
    Control::Continue(advance)
}

/// `len` bytes of `src` from `off`, with zeros past its end.
fn read_padded(src: &Vec<u8>, off: usize, len: usize) -> (r: Vec<u8>)
    ensures
        r@ == padded_slice(src@, off as nat, len as nat),
{
    let mut out: Vec<u8> = Vec::new();
    let mut i: usize = 0;
    while i < len
        invariant
            i <= len,
            out@ == padded_slice(src@, off as nat, i as nat),
        decreases len - i,
    {
        let b: u8 = if off < src.len() && i < src.len() - off {
            src[off + i]
        } else {
            0
        };
        out.push(b);
        i += 1;
        assert(out@ =~= padded_slice(src@, off as nat, i as nat));
    }
    out
}

proof fn lemma_padded_past_end(src: Seq<u8>, a: nat, b: nat, len: nat)
    requires
        a >= src.len(),
        b >= src.len(),
    ensures
        padded_slice(src, a, len) == padded_slice(src, b, len),
{
    assert(padded_slice(src, a, len) =~= padded_slice(src, b, len));
}

/// An offset into `src` that reads the same bytes as the value of `w`.
fn source_offset(w: Word, src_len: usize) -> (r: usize)
    ensures
        r == w.val() || (r >= src_len && w.val() >= src_len),
{
    match w.to_usize() {
        Some(o) => o,
        None => src_len,
    }
}

/// Grows memory to cover `[off, off + len)`; gives the range as `usize`s.
fn touch(state: &mut Machine, off: Word, len: Word) -> (r: Result<(usize, usize), ExitError>)
    requires
        old(state).wf(),
    ensures
        final(state).wf(),
        frame(*old(state), *final(state)),
        final(state).stack@ == old(state).stack@,
        final(state).return_data@ == old(state).return_data@,
        r is Ok <==> range_fits(old(state).memory.spec_limit(), off.val(), len.val()),
        r is Err ==> r == Err::<(usize, usize), ExitError>(ExitError::InvalidRange)
            && final(state).memory@ == old(state).memory@,
        r is Ok ==> final(state).memory@ == grown(old(state).memory@, off.val(), len.val())
            && r->Ok_0.1 == len.val() && (len.val() != 0 ==> r->Ok_0.0 == off.val()),
{
    if len.is_zero() {
        assert(state.memory@ =~= grown(state.memory@, off.val(), 0));
        return Ok((0, 0));
    }
    // The limit is a usize, so an offset or length that is not exceeds it.
    let _limit = state.memory.limit();
    assert(ceil32(off.val() + len.val()) >= off.val() + len.val());
    let o = match off.to_usize() {
        Some(o) => o,
        None => return error_range(),
    };
    let l = match len.to_usize() {
        Some(l) => l,
        None => return error_range(),
    };
    match state.memory.resize_offset(o, l) {
        Ok(()) => Ok((o, l)),
        Err(e) => Err(e),
    }
}

fn error_range() -> (r: Result<(usize, usize), ExitError>)
    ensures
        r == Err::<(usize, usize), ExitError>(ExitError::InvalidRange),
{
    Err(ExitError::InvalidRange)
}

fn eval_mload(state: &mut Machine) -> (r: Control)
    requires
        old(state).wf(),
    ensures
        final(state).wf(),
        frame(*old(state), *final(state)),
        mload_post(*old(state), *final(state), r),
{
    let ow = match state.stack.peek(0) {
        Ok(w) => w,
        Err(e) => return error(e),
    };
    let o = match touch(state, ow, Word::from_u64(32)) {
        Ok(p) => p.0,
        Err(e) => return error(e),
    };
    let w = state.memory.load_word(o);
    proof {
        lemma_word_of(w);
    }
    state.stack.take_top();
    state.stack.put_top(w);
    Control::Continue(1)
}

fn eval_mstore(state: &mut Machine, single: bool) -> (r: Control)
    requires
        old(state).wf(),
    ensures
        final(state).wf(),
        frame(*old(state), *final(state)),
        single ==> mstore8_post(*old(state), *final(state), r),
        !single ==> mstore_post(*old(state), *final(state), r),
{
    if state.stack.len() < 2 {
        return underflow();
    }
    let ow = match state.stack.peek(0) {
        Ok(w) => w,
        Err(e) => return error(e),
    };
    let v = match state.stack.peek(1) {
        Ok(w) => w,
        Err(e) => return error(e),
    };
    let bytes: Vec<u8> = if single {
        proof {
            lemma_low_byte(v);
        }
        let mut b: Vec<u8> = Vec::new();
        b.push((v.w0 % 256) as u8);
        assert(b@ =~= seq![(v.val() % 256) as u8]);
        b
    } else {
        proof {
            lemma_be_bytes_len(v.val(), 32);
        }
        u256_to_big_endian(v)
    };
    let o = match touch(state, ow, Word::from_usize(bytes.len())) {
        Ok(p) => p.0,
        Err(e) => return error(e),
    };
    state.memory.set(o, &bytes);
    state.stack.take_top();
    state.stack.take_top();
    Control::Continue(1)
}

/// Copies call data (`from_code` false) or code into memory.
fn eval_copy(state: &mut Machine, from_code: bool) -> (r: Control)
    requires
        old(state).wf(),
    ensures
        final(state).wf(),
        frame(*old(state), *final(state)),
        from_code ==> copy_post(*old(state), *final(state), r, old(state).code@),
        !from_code ==> copy_post(*old(state), *final(state), r, old(state).data@),
{
    if state.stack.len() < 3 {
        return underflow();
    }
    let mo = match state.stack.peek(0) {
        Ok(w) => w,
        Err(e) => return error(e),
    };
    let so = match state.stack.peek(1) {
        Ok(w) => w,
        Err(e) => return error(e),
    };
    let lw = match state.stack.peek(2) {
        Ok(w) => w,
        Err(e) => return error(e),
    };
    let ghost s = state.stack@;
    let (o, len) = match touch(state, mo, lw) {
        Ok(p) => p,
        Err(e) => return error(e),
    };
    if len > 0 {
        if from_code {
            let src_off = source_offset(so, state.code.len());
            proof {
                if src_off != so.val() {
                    lemma_padded_past_end(state.code@, src_off as nat, so.val(), len as nat);
                }
            }
            state.memory.copy_padded(o, state.code.bytes().as_slice(), src_off, len);
        } else {
            let src_off = source_offset(so, state.data.len());
            proof {
                if src_off != so.val() {
                    lemma_padded_past_end(state.data@, src_off as nat, so.val(), len as nat);
                }
            }
            state.memory.copy_padded(o, state.data.as_slice(), src_off, len);
        }
    }
    state.stack.take_top();
    state.stack.take_top();
    state.stack.take_top();
    assert(state.stack@ =~= s.subrange(0, s.len() - 3));
    Control::Continue(1)
}

fn eval_calldataload(state: &mut Machine) -> (r: Control)
    requires
        old(state).wf(),
    ensures
        final(state).wf(),
        frame(*old(state), *final(state)),
        operator_post(
            *old(state),
            *final(state),
            r,
            1,
            word_of(be_value(padded_slice(old(state).data@, old(state).stack.at_depth(0).val(), 32))),
        ),
{
    let ow = match state.stack.peek(0) {
        Ok(w) => w,
        Err(e) => return error(e),
    };
    let off = source_offset(ow, state.data.len());
    let bytes = read_padded(&state.data, off, 32);
    proof {
        if off != ow.val() {
            lemma_padded_past_end(state.data@, off as nat, ow.val(), 32);
        }
    }
    let w = u256_from_big_endian(bytes.as_slice());
    proof {
        lemma_word_of(w);
    }
    let ghost s = state.stack@;
    state.stack.take_top();
    state.stack.put_top(w);
    assert(state.stack@ =~= s.subrange(0, s.len() - 1) + seq![w]);
    Control::Continue(1)
}

/// RETURN (`revert` false) or REVERT.
fn eval_return(state: &mut Machine, revert: bool) -> (r: Control)
    requires
        old(state).wf(),
    ensures
        final(state).wf(),
        frame(*old(state), *final(state)),
        revert ==> return_post(*old(state), *final(state), r, ExitReason::Revert),
        !revert ==> return_post(
            *old(state),
            *final(state),
            r,
            ExitReason::Succeed(ExitSucceed::Returned),
        ),
{
    if state.stack.len() < 2 {
        return underflow();
    }
    let ow = match state.stack.peek(0) {
        Ok(w) => w,
        Err(e) => return error(e),
    };
    let lw = match state.stack.peek(1) {
        Ok(w) => w,
        Err(e) => return error(e),
    };
    let (o, len) = match touch(state, ow, lw) {
        Ok(p) => p,
        Err(e) => return error(e),
    };
    state.return_data = if len == 0 {
        Vec::new()
    } else {
        assert(ceil32((o + len) as nat) >= o + len);
        state.memory.get(o, len)
    };
    state.stack.take_top();
    state.stack.take_top();
    if revert {
        Control::Exit(ExitReason::Revert)
    } else {
        Control::Exit(ExitReason::Succeed(ExitSucceed::Returned))
    }
}

/// JUMP (`conditional` false) or JUMPI.
fn eval_jump(state: &mut Machine, conditional: bool) -> (r: Control)
    requires
        old(state).wf(),
    ensures
        final(state).wf(),
        frame(*old(state), *final(state)),
        conditional ==> jumpi_post(*old(state), *final(state), r),
        !conditional ==> jump_post(*old(state), *final(state), r),
{
    let arity: usize = if conditional {
        2
    } else {
        1
    };
    if state.stack.len() < arity {
        return underflow();
    }
    let ghost s = state.stack@;
    let dw = match state.stack.peek(0) {
        Ok(w) => w,
        Err(e) => return error(e),
    };
    if conditional {
        let c = match state.stack.peek(1) {
            Ok(w) => w,
            Err(e) => return error(e),
        };
        if c.is_zero() {
            state.stack.take_top();
            state.stack.take_top();
            assert(state.stack@ =~= s.subrange(0, s.len() - 2) + seq![]);
            return Control::Continue(1);
        }
    }
    // A target that is not a usize lies past the end of the code.
    let _code_len = state.code.len();
    let dest = match dw.to_usize() {
        Some(p) => p,
        None => return error(ExitError::InvalidJump),
    };
    if !state.code.is_valid(dest) {
        return error(ExitError::InvalidJump);
    }
    state.stack.take_top();
    if conditional {
        state.stack.take_top();
    }
    assert(state.stack@ =~= s.subrange(0, s.len() - arity) + seq![]);
    Control::Jump(dest)
}

fn eval_push(state: &mut Machine, len: usize, position: usize) -> (r: Control)
    requires
        old(state).wf(),
        1 <= len <= 32,
    ensures
        final(state).wf(),
        frame(*old(state), *final(state)),
        push_post(
            *old(state),
            *final(state),
            r,
            push_value(old(state).code@, position as nat, len as nat),
            (len + 1) as nat,
        ),
{
    let code_len = state.code.len();
    let off = if position < code_len {
        position + 1
    } else {
        code_len
    };
    let bytes = read_padded(state.code.bytes(), off, len);
    proof {
        if position >= code_len {
            lemma_padded_past_end(state.code@, off as nat, (position + 1) as nat, len as nat);
        }
    }
    let w = u256_from_big_endian(bytes.as_slice());
    proof {
        lemma_word_of(w);
    }
    push_word(state, w, len + 1)
}

fn eval_dup(state: &mut Machine, k: usize) -> (r: Control)
    requires
        old(state).wf(),
        1 <= k,
    ensures
        final(state).wf(),
        frame(*old(state), *final(state)),
        dup_post(*old(state), *final(state), r, k as int),
{
    let ghost s = state.stack@;
    match state.stack.dup(k) {
        Ok(()) => {
            assert(state.stack@ =~= s.subrange(0, s.len() - 0) + seq![s[s.len() - k]]);
            Control::Continue(1)
        },
        Err(e) => error(e),
    }
}

fn eval_swap(state: &mut Machine, k: usize) -> (r: Control)
    requires
        old(state).wf(),
        1 <= k,
    ensures
        final(state).wf(),
        frame(*old(state), *final(state)),
        swap_post(*old(state), *final(state), r, k as int),
{
    match state.stack.swap(k) {
        Ok(()) => Control::Continue(1),
        Err(e) => error(e),
    }
}

fn eval_pop(state: &mut Machine) -> (r: Control)
    requires
        old(state).wf(),
    ensures
        final(state).wf(),
        frame(*old(state), *final(state)),
        old(state).stack@.len() < 1 ==> fails(*old(state), *final(state), r, ExitError::StackUnderflow),
        old(state).stack@.len() >= 1 ==> r == Control::Continue(1) && replaced(*old(state), *final(state), 1, seq![]),
{
    let ghost s = state.stack@;
    match state.stack.pop() {
        Ok(_) => {
            assert(state.stack@ =~= s.subrange(0, s.len() - 1) + seq![]);
            Control::Continue(1)
        },
        Err(e) => error(e),
    }
}

/// Executes one instruction `opcode` found at `position`.
pub fn eval(state: &mut Machine, opcode: Opcode, position: usize) -> (r: Control)
    requires
        old(state).wf(),
    ensures
        final(state).wf(),
        eval_post(opcode.0, position as nat, *old(state), *final(state), r),
{
    let op = opcode.0;
    if op == 0x00 {
        Control::Exit(ExitReason::Succeed(ExitSucceed::Stopped))
    } else if (0x01 <= op && op <= 0x07) || op == 0x0a || op == 0x0b || (0x10 <= op && op <= 0x14)
        || (0x16 <= op && op <= 0x18) || (0x1a <= op && op <= 0x1d) {
        eval_binary(state, op)
    } else if op == 0x08 || op == 0x09 {
        eval_ternary(state, op)
    } else if op == 0x15 || op == 0x19 {
        eval_unary(state, op)
    } else if op == 0x35 {
        eval_calldataload(state)
    } else if op == 0x36 {
        let w = Word::from_usize(state.data.len());
        proof {
            lemma_word_of(w);
        }
        push_word(state, w, 1)
    } else if op == 0x37 {
        eval_copy(state, false)
    } else if op == 0x38 {
        let w = Word::from_usize(state.code.len());
        proof {
            lemma_word_of(w);
        }
        push_word(state, w, 1)
    } else if op == 0x39 {
        eval_copy(state, true)
    } else if op == 0x50 {
        eval_pop(state)
    } else if op == 0x51 {
        eval_mload(state)
    } else if op == 0x52 {
        eval_mstore(state, false)
    } else if op == 0x53 {
        eval_mstore(state, true)
    } else if op == 0x56 {
        eval_jump(state, false)
    } else if op == 0x57 {
        eval_jump(state, true)
    } else if op == 0x58 {
        let w = Word::from_usize(position);
        proof {
            lemma_word_of(w);
        }
        push_word(state, w, 1)
    } else if op == 0x59 {
        let w = Word::from_usize(state.memory.len());
        proof {
            lemma_word_of(w);
        }
        push_word(state, w, 1)
    } else if op == 0x5b {
        Control::Continue(1)
    } else if 0x60 <= op && op <= 0x7f {
        eval_push(state, (op - 0x5f) as usize, position)
    } else if 0x80 <= op && op <= 0x8f {
        eval_dup(state, (op - 0x7f) as usize)
    } else if 0x90 <= op && op <= 0x9f {
        eval_swap(state, (op - 0x8f) as usize)
    } else if op == 0xf3 {
        eval_return(state, false)
    } else if op == 0xfd {
        eval_return(state, true)
    } else if op == 0xfe {
        Control::Exit(ExitReason::Error(ExitError::DesignatedInvalid))
    } else {
        Control::Trap(opcode)
    }
}

} // verus!
