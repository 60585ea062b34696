use crate::code::{decodes_to, is_push, next_instruction, Code};
use crate::control::{Control, ExitError, ExitReason};
use crate::eval::{binary_result, eval_post};
use crate::memory::{ceil32, grown, overwrite, padded_slice, range_fits};
use crate::machine::Machine;
use crate::word::{
    addmod_value, be_value, byte_value, modulus, mulmod_value, sar_value, sdiv_value,
    shl_value, shr_value, sign_weight, signextend_value, srem_value, to_signed, word_of, wrap,
    Word, be_bytes, lemma_be_bytes_len, lemma_be_round_trip, lemma_pow2_256, lemma_word_of,
};
use vstd::arithmetic::div_mod::*;
use vstd::prelude::*;

verus! {

/// Adding the negation of a word gives zero.
pub proof fn law_add_negation(a: Word)
    ensures
        wrap((a.val() + wrap(0 - a.val())) as int) == 0,
{
    let m = modulus() as int;
    let x = a.val() as int;
    if x == 0 {
        assert(wrap(0) == 0);
    } else {
        lemma_fundamental_div_mod_converse(-x, m, -1, m - x);
        lemma_fundamental_div_mod_converse(m, m, 1, 0);
    }
}

/// Wrapping addition and multiplication are commutative.
pub proof fn law_commutative(a: Word, b: Word)
    ensures
        wrap((a.val() * b.val()) as int) == wrap((b.val() * a.val()) as int),
        wrap((a.val() + b.val()) as int) == wrap((b.val() + a.val()) as int),
        binary_result(0x01, a, b) == binary_result(0x01, b, a),
        binary_result(0x02, a, b) == binary_result(0x02, b, a),
{
    assert(a.val() * b.val() == b.val() * a.val()) by (nonlinear_arith);
}

/// Division and remainder by zero, signed or not, give zero.
pub proof fn law_division_by_zero(a: Word, z: Word)
    requires
        z.val() == 0,
    ensures
        binary_result(0x04, a, z) == word_of(0),
        binary_result(0x06, a, z) == word_of(0),
        binary_result(0x05, a, z) == word_of(0),
        binary_result(0x07, a, z) == word_of(0),
        sdiv_value(a.val(), 0) == 0,
        srem_value(a.val(), 0) == 0,
{
}

/// The most negative word divided by minus one is itself: no trap.
pub proof fn law_sdiv_min_by_minus_one()
    ensures
        sdiv_value(sign_weight(), (modulus() - 1) as nat) == sign_weight(),
{
    let q = sign_weight() / 1nat;
    assert(q == sign_weight());
    lemma_small_mod(sign_weight(), modulus());
}

/// With a non-zero modulus, ADDMOD and MULMOD reduce the exact sum and
/// product, which fit in 512 bits.
pub proof fn law_modular_wide(a: Word, b: Word, n: Word)
    requires
        n.val() != 0,
    ensures
        addmod_value(a.val(), b.val(), n.val()) == ((a.val() + b.val()) % (modulus()
            * modulus())) % n.val(),
        mulmod_value(a.val(), b.val(), n.val()) == ((a.val() * b.val()) % (modulus()
            * modulus())) % n.val(),
{
    let m = modulus();
    let x = a.val();
    let y = b.val();
    assert(x * y < m * m) by (nonlinear_arith)
        requires
            x < m,
            y < m,
    ;
    assert(x + y < m * m) by (nonlinear_arith)
        requires
            x < m,
            y < m,
            m > 2,
    ;
    lemma_small_mod((x + y) as nat, m * m);
    lemma_small_mod(x * y, m * m);
}

/// Shifting by 256 or more clears the word, or fills it with the sign.
pub proof fn law_wide_shifts(s: Word, x: Word)
    requires
        s.val() >= 256,
    ensures
        shl_value(s.val(), x.val()) == 0,
        shr_value(s.val(), x.val()) == 0,
        to_signed(x.val()) < 0 ==> sar_value(s.val(), x.val()) == modulus() - 1,
        to_signed(x.val()) >= 0 ==> sar_value(s.val(), x.val()) == 0,
{
}

/// BYTE past index 31 is zero.
pub proof fn law_byte_out_of_range(i: Word, x: Word)
    requires
        i.val() >= 32,
    ensures
        byte_value(i.val(), x.val()) == 0,
        binary_result(0x1a, i, x) == word_of(0),
{
}

/// SIGNEXTEND from 32 or more bytes leaves the word as it is.
pub proof fn law_signextend_wide(b: Word, x: Word)
    requires
        b.val() >= 32,
    ensures
        signextend_value(b.val(), x.val()) == x.val(),
        binary_result(0x0b, b, x) == x,
{
    crate::word::lemma_word_of(x);
}

proof fn lemma_grown(mem: Seq<u8>, o: nat, len: nat)
    requires
        mem.len() % 32 == 0,
    ensures
        grown(mem, o, len).len() >= mem.len(),
        grown(mem, o, len).len() % 32 == 0,
        len > 0 ==> grown(mem, o, len).len() >= o + len,
{
    assert(ceil32(o + len) >= o + len);
    assert(ceil32(o + len) % 32 == 0);
}

proof fn lemma_overwrite_len(mem: Seq<u8>, o: int, bytes: Seq<u8>)
    requires
        0 <= o,
        o + bytes.len() <= mem.len(),
    ensures
        overwrite(mem, o, bytes).len() == mem.len(),
{
}

/// After any instruction on a well-formed machine the stack is within its
/// limit, and memory has not shrunk and is a whole number of 32-byte words.
#[verifier::rlimit(50)]
pub proof fn law_step_bounds(op: u8, pos: nat, m: Machine, n: Machine, r: Control)
    requires
        m.wf(),
        eval_post(op, pos, m, n, r),
    ensures
        n.stack@.len() <= n.stack.spec_limit(),
        n.memory@.len() >= m.memory@.len(),
        n.memory@.len() % 32 == 0,
{
    let mem = m.memory@;
    if m.stack@.len() >= 1 {
        let o = m.stack.at_depth(0).val();
        lemma_grown(mem, o, 32);
        lemma_grown(mem, o, 1);
        if m.stack@.len() >= 2 {
            let len = m.stack.at_depth(1).val();
            lemma_grown(mem, o, len);
            lemma_be_bytes_len(m.stack.at_depth(1).val(), 32);
            if op == 0x52 && range_fits(m.memory.spec_limit(), o, 32) {
                lemma_overwrite_len(grown(mem, o, 32), o as int, be_bytes(len, 32));
            }
            if op == 0x53 && range_fits(m.memory.spec_limit(), o, 1) {
                lemma_overwrite_len(grown(mem, o, 1), o as int, seq![(len % 256) as u8]);
            }
            if m.stack@.len() >= 3 {
                let cl = m.stack.at_depth(2).val();
                lemma_grown(mem, o, cl);
                if cl > 0 {
                    let so = m.stack.at_depth(1).val();
                    lemma_overwrite_len(grown(mem, o, cl), o as int, padded_slice(m.code@, so, cl));
                    lemma_overwrite_len(grown(mem, o, cl), o as int, padded_slice(m.data@, so, cl));
                }
            }
        }
    }
}

/// A push onto a full stack fails with a stack overflow.
pub proof fn law_push_on_full_stack(op: u8, pos: nat, m: Machine, n: Machine, r: Control)
    requires
        0x60 <= op <= 0x7f,
        m.stack@.len() == m.stack.spec_limit(),
        eval_post(op, pos, m, n, r),
    ensures
        r == Control::Exit(ExitReason::Error(ExitError::StackOverflow)),
        n.stack@ == m.stack@,
{
}

/// DUP followed by POP leaves the stack as it was.
pub proof fn law_dup_then_pop(
    op: u8,
    p: nat,
    q: nat,
    m1: Machine,
    m2: Machine,
    m3: Machine,
    r1: Control,
    r2: Control,
)
    requires
        0x80 <= op <= 0x8f,
        eval_post(op, p, m1, m2, r1),
        r1 == Control::Continue(1),
        eval_post(0x50, q, m2, m3, r2),
    ensures
        r2 == Control::Continue(1),
        m3.stack@ == m1.stack@,
{
    assert(m3.stack@ =~= m1.stack@);
}

/// The same SWAP done twice leaves the stack as it was.
pub proof fn law_swap_twice(
    op: u8,
    p: nat,
    q: nat,
    m1: Machine,
    m2: Machine,
    m3: Machine,
    r1: Control,
    r2: Control,
)
    requires
        0x90 <= op <= 0x9f,
        eval_post(op, p, m1, m2, r1),
        r1 == Control::Continue(1),
        eval_post(op, q, m2, m3, r2),
    ensures
        r2 == Control::Continue(1),
        m3.stack@ == m1.stack@,
{
    assert(m3.stack@ =~= m1.stack@);
}

proof fn lemma_be_value_zeros(s: Seq<u8>)
    requires
        forall|i: int| 0 <= i < s.len() ==> s[i] == 0u8,
    ensures
        be_value(s) == 0,
    decreases s.len(),
{
    if s.len() > 0 {
        lemma_be_value_zeros(s.drop_last());
    }
}

/// MLOAD at the offset of an MSTORE reads back the stored word.
pub proof fn law_mstore_then_mload(
    p: nat,
    q: nat,
    m1: Machine,
    m2: Machine,
    m3: Machine,
    m4: Machine,
    r1: Control,
    r2: Control,
)
    requires
        m1.wf(),
        eval_post(0x52, p, m1, m2, r1),
        r1 == Control::Continue(1),
        m3.memory@ == m2.memory@,
        m3.memory.spec_limit() == m2.memory.spec_limit(),
        m3.stack@.len() >= 1,
        m3.stack.at_depth(0) == m1.stack.at_depth(0),
        eval_post(0x51, q, m3, m4, r2),
    ensures
        r2 == Control::Continue(1),
        m4.stack@.last() == m1.stack.at_depth(1),
{
    let o = m1.stack.at_depth(0).val();
    let v = m1.stack.at_depth(1).val();
    let g = grown(m1.memory@, o, 32);
    lemma_grown(m1.memory@, o, 32);
    lemma_be_bytes_len(v, 32);
    lemma_overwrite_len(g, o as int, be_bytes(v, 32));
    assert(grown(m3.memory@, o, 32) =~= m3.memory@);
    assert(m3.memory@.subrange(o as int, (o + 32) as int) =~= be_bytes(v, 32));
    lemma_be_round_trip(v, 32);
    lemma_pow2_256();
    crate::word::lemma_val_bound(m1.stack.at_depth(1));
    lemma_small_mod(v, modulus());
    lemma_word_of(m1.stack.at_depth(1));
}

/// MLOAD 31 bytes before an MSTORE8, over memory that was zero there, reads
/// the stored low byte as a word's least significant byte.
pub proof fn law_mstore8_then_mload(
    p: nat,
    q: nat,
    m1: Machine,
    m2: Machine,
    m3: Machine,
    m4: Machine,
    r1: Control,
    r2: Control,
)
    requires
        m1.wf(),
        eval_post(0x53, p, m1, m2, r1),
        r1 == Control::Continue(1),
        m1.stack.at_depth(0).val() >= 31,
        forall|i: int|
            m1.stack.at_depth(0).val() - 31 <= i < m1.stack.at_depth(0).val() ==> #[trigger] grown(
                m1.memory@,
                m1.stack.at_depth(0).val(),
                1,
            )[i] == 0u8,
        m3.memory@ == m2.memory@,
        m3.memory.spec_limit() == m2.memory.spec_limit(),
        m3.stack@.len() >= 1,
        m3.stack.at_depth(0).val() == m1.stack.at_depth(0).val() - 31,
        eval_post(0x51, q, m3, m4, r2),
    ensures
        r2 == Control::Continue(1),
        m4.stack@.last() == word_of(m1.stack.at_depth(1).val() % 256),
{
    let o = m1.stack.at_depth(0).val();
    let v = m1.stack.at_depth(1).val();
    let g = grown(m1.memory@, o, 1);
    let b = seq![(v % 256) as u8];
    lemma_grown(m1.memory@, o, 1);
    lemma_overwrite_len(g, o as int, b);
    assert(ceil32(o + 1) == ceil32(((o - 31) + 32) as nat));
    assert(grown(m3.memory@, (o - 31) as nat, 32) =~= m3.memory@);
    let s = m3.memory@.subrange(o - 31, (o + 1) as int);
    assert(s.drop_last() =~= g.subrange(o - 31, o as int));
    lemma_be_value_zeros(s.drop_last());
    assert(s.last() == (v % 256) as u8);
}

/// MLOAD from past the end of memory reads zero.
pub proof fn law_fresh_memory_reads_zero(p: nat, m: Machine, n: Machine, r: Control)
    requires
        m.wf(),
        eval_post(0x51, p, m, n, r),
        r == Control::Continue(1),
        m.stack.at_depth(0).val() >= m.memory@.len(),
    ensures
        n.stack@.last() == word_of(0),
{
    let o = m.stack.at_depth(0).val();
    lemma_grown(m.memory@, o, 32);
    lemma_be_value_zeros(grown(m.memory@, o, 32).subrange(o as int, (o + 32) as int));
}

/// A position is a valid jump target exactly when decoding from the start
/// reaches it, so it is no push data, and it holds JUMPDEST.
pub proof fn law_jump_map(c: Code, p: nat)
    requires
        c.wf(),
        p < c@.len(),
    ensures
        c.valids()[p as int] == (c@[p as int] == 0x5b && decodes_to(c@, 0, p)),
{
}

/// Decoding from `a` through `i` reaches the same positions past `i` as
/// decoding from `i`.
proof fn lemma_decode_through(code: Seq<u8>, a: nat, i: nat, q: nat)
    requires
        decodes_to(code, a, i),
        i <= q,
    ensures
        decodes_to(code, a, q) == decodes_to(code, i, q),
    decreases i - a,
{
    if a < i {
        lemma_decode_through(code, next_instruction(code, a), i, q);
    }
}

/// JUMP to a byte of a push's immediate data fails.
pub proof fn law_jump_into_push_data(i: nat, pos: nat, m: Machine, n: Machine, r: Control)
    requires
        decodes_to(m.code@, 0, i),
        i < m.code@.len(),
        is_push(m.code@[i as int]),
        i < m.stack.at_depth(0).val() < next_instruction(m.code@, i),
        m.stack@.len() >= 1,
        eval_post(0x56, pos, m, n, r),
    ensures
        r == Control::Exit(ExitReason::Error(ExitError::InvalidJump)),
{
    lemma_decode_through(m.code@, 0, i, m.stack.at_depth(0).val());
}

/// JUMPI with a zero condition advances by one, whatever the target and the
/// jump map.
pub proof fn law_jumpi_not_taken(pos: nat, m: Machine, n: Machine, r: Control)
    requires
        m.stack@.len() >= 2,
        m.stack.at_depth(1).val() == 0,
        eval_post(0x57, pos, m, n, r),
    ensures
        r == Control::Continue(1),
        n.stack@ == m.stack@.drop_last().drop_last(),
{
    assert(n.stack@ =~= m.stack@.drop_last().drop_last());
}

} // verus!
