use primitive_types::{U256, U512};
use vstd::arithmetic::div_mod::*;
use vstd::arithmetic::power::pow;
use vstd::arithmetic::power2::*;
use vstd::prelude::*;

verus! {

/// 2^64, the base of one limb.
pub open spec fn limb_base() -> nat {
    0x1_0000_0000_0000_0000
}

/// 2^256, the number of distinct words.
pub open spec fn modulus() -> nat {
    0x1_0000_0000_0000_0000 * 0x1_0000_0000_0000_0000 * 0x1_0000_0000_0000_0000 * 0x1_0000_0000_0000_0000
}

/// 2^255, the weight of the sign bit.
pub open spec fn sign_weight() -> nat {
    0x8000_0000_0000_0000 * 0x1_0000_0000_0000_0000 * 0x1_0000_0000_0000_0000 * 0x1_0000_0000_0000_0000
}

/// Reduces an integer to the word with the same residue modulo 2^256.
pub open spec fn wrap(i: int) -> nat {
    (i % (modulus() as int)) as nat
}

/// Two's-complement reading of a word value.
pub open spec fn to_signed(v: nat) -> int {
    if v < sign_weight() {
        v as int
    } else {
        v - modulus()
    }
}

pub open spec fn abs(i: int) -> nat {
    if i < 0 {
        (-i) as nat
    } else {
        i as nat
    }
}

/// Big-endian value of a byte string.
pub open spec fn be_value(s: Seq<u8>) -> nat
    decreases s.len(),
{
    if s.len() == 0 {
        0
    } else {
        be_value(s.drop_last()) * 256 + s.last() as nat
    }
}

/// An unsigned 256-bit integer held as four 64-bit limbs, least significant first.
#[derive(Clone, Copy, Debug, PartialEq, Eq, Structural)]
pub struct Word {
    pub w0: u64,
    pub w1: u64,
    pub w2: u64,
    pub w3: u64,
}

impl Word {
    pub open spec fn val(self) -> nat {
        self.w0 as nat + limb_base() * (self.w1 as nat + limb_base() * (self.w2 as nat
            + limb_base() * self.w3 as nat))
    }
}

/// The word whose value is `v` reduced to 256 bits.
pub open spec fn word_of(v: nat) -> Word {
    Word {
        w0: (v % limb_base()) as u64,
        w1: ((v / limb_base()) % limb_base()) as u64,
        w2: ((v / limb_base() / limb_base()) % limb_base()) as u64,
        w3: ((v / limb_base() / limb_base() / limb_base()) % limb_base()) as u64,
    }
}

/// `len` bytes holding `v` big-endian, higher bytes dropped.
pub open spec fn be_bytes(v: nat, len: nat) -> Seq<u8>
    decreases len,
{
    if len == 0 {
        Seq::empty()
    } else {
        be_bytes(v / 256, (len - 1) as nat).push((v % 256) as u8)
    }
}

pub open spec fn and_words(a: Word, b: Word) -> Word {
    Word { w0: a.w0 & b.w0, w1: a.w1 & b.w1, w2: a.w2 & b.w2, w3: a.w3 & b.w3 }
}

pub open spec fn or_words(a: Word, b: Word) -> Word {
    Word { w0: a.w0 | b.w0, w1: a.w1 | b.w1, w2: a.w2 | b.w2, w3: a.w3 | b.w3 }
}

pub open spec fn xor_words(a: Word, b: Word) -> Word {
    Word { w0: a.w0 ^ b.w0, w1: a.w1 ^ b.w1, w2: a.w2 ^ b.w2, w3: a.w3 ^ b.w3 }
}

pub open spec fn not_word(a: Word) -> Word {
    Word { w0: !a.w0, w1: !a.w1, w2: !a.w2, w3: !a.w3 }
}

/// A word is determined by its value.
pub proof fn lemma_word_of(w: Word)
    ensures
        word_of(w.val()) == w,
{
    let l = limb_base() as int;
    let r2 = w.w2 + l * w.w3;
    let r1 = w.w1 + l * r2;
    lemma_fundamental_div_mod_converse(w.val() as int, l, r1, w.w0 as int);
    lemma_fundamental_div_mod_converse(r1, l, r2, w.w1 as int);
    lemma_fundamental_div_mod_converse(r2, l, w.w3 as int, w.w2 as int);
    lemma_small_mod(w.w3 as nat, l as nat);
}

/// Reading back `len` big-endian bytes of `v` gives `v` modulo 2^(8 len).
pub proof fn lemma_be_round_trip(v: nat, len: nat)
    ensures
        be_value(be_bytes(v, len)) == v % pow2(8 * len),
    decreases len,
{
    lemma2_to64();
    if len == 0 {
        assert(v % 1 == 0);
    } else {
        let p = pow2((8 * len - 8) as nat);
        lemma_be_round_trip(v / 256, (len - 1) as nat);
        let s = be_bytes(v, len);
        assert(s.drop_last() == be_bytes(v / 256, (len - 1) as nat));
        lemma_pow2_adds(8, (8 * len - 8) as nat);
        lemma_pow2_pos((8 * len - 8) as nat);
        lemma_mod_breakdown(v as int, 256, p as int);
        assert(pow2(8 * len) == 256 * p);
    }
}

pub proof fn lemma_be_bytes_len(v: nat, len: nat)
    ensures
        be_bytes(v, len).len() == len,
    decreases len,
{
    if len > 0 {
        lemma_be_bytes_len(v / 256, (len - 1) as nat);
    }
}

/// The low byte of a word's value is the low byte of its lowest limb.
pub proof fn lemma_low_byte(a: Word)
    ensures
        a.val() % 256 == a.w0 % 256,
{
    let rest = a.w1 + limb_base() * (a.w2 + limb_base() * a.w3);
    assert(limb_base() * rest == 256 * (0x100_0000_0000_0000 * rest)) by (nonlinear_arith);
    lemma_mod_multiples_vanish(0x100_0000_0000_0000 * rest, a.w0 as int, 256);
}

pub proof fn lemma_val_bound(a: Word)
    ensures
        a.val() < modulus(),
{
}

pub proof fn lemma_pow2_256()
    ensures
        pow2(64) == limb_base(),
        pow2(256) == modulus(),
        pow2(255) == sign_weight(),
{
    lemma2_to64();
    lemma2_to64_rest();
    lemma_pow2_adds(64, 64);
    lemma_pow2_adds(128, 64);
    lemma_pow2_adds(192, 64);
    lemma_pow2_adds(63, 64);
    lemma_pow2_adds(127, 64);
    lemma_pow2_adds(191, 64);
    assert(pow2(128) == limb_base() * limb_base());
    assert(pow2(192) == limb_base() * limb_base() * limb_base());
    assert(pow2(127) == 0x8000_0000_0000_0000 * limb_base());
    assert(pow2(191) == 0x8000_0000_0000_0000 * limb_base() * limb_base());
}

/// Relies on U256::overflowing_add: the sum wrapped to 256 bits, and whether it wrapped.
#[verifier::external_body]
fn u256_overflowing_add(a: Word, b: Word) -> (r: (Word, bool))
    ensures
        r.0.val() == wrap((a.val() + b.val()) as int),
        r.1 == (a.val() + b.val() >= modulus()),
{
    let (r, c) = U256([a.w0, a.w1, a.w2, a.w3]).overflowing_add(U256([b.w0, b.w1, b.w2, b.w3]));
    (Word { w0: r.0[0], w1: r.0[1], w2: r.0[2], w3: r.0[3] }, c)
}

/// Relies on U256::overflowing_sub: the difference wrapped to 256 bits.
#[verifier::external_body]
fn u256_overflowing_sub(a: Word, b: Word) -> (r: Word)
    ensures
        r.val() == wrap(a.val() - b.val()),
{
    let (r, _) = U256([a.w0, a.w1, a.w2, a.w3]).overflowing_sub(U256([b.w0, b.w1, b.w2, b.w3]));
    Word { w0: r.0[0], w1: r.0[1], w2: r.0[2], w3: r.0[3] }
}

/// Relies on U256::overflowing_mul: the product wrapped to 256 bits.
#[verifier::external_body]
fn u256_overflowing_mul(a: Word, b: Word) -> (r: Word)
    ensures
        r.val() == wrap((a.val() * b.val()) as int),
{
    let (r, _) = U256([a.w0, a.w1, a.w2, a.w3]).overflowing_mul(U256([b.w0, b.w1, b.w2, b.w3]));
    Word { w0: r.0[0], w1: r.0[1], w2: r.0[2], w3: r.0[3] }
}

/// Relies on U256::div_mod: quotient and remainder; it panics on a zero divisor.
#[verifier::external_body]
fn u256_div_mod(a: Word, b: Word) -> (r: (Word, Word))
    requires
        b.val() != 0,
    ensures
        r.0.val() == a.val() / b.val(),
        r.1.val() == a.val() % b.val(),
{
    let (q, m) = U256([a.w0, a.w1, a.w2, a.w3]).div_mod(U256([b.w0, b.w1, b.w2, b.w3]));
    (
        Word { w0: q.0[0], w1: q.0[1], w2: q.0[2], w3: q.0[3] },
        Word { w0: m.0[0], w1: m.0[1], w2: m.0[2], w3: m.0[3] },
    )
}

/// Relies on U256::overflowing_pow: the power wrapped to 256 bits.
#[verifier::external_body]
fn u256_overflowing_pow(a: Word, e: Word) -> (r: Word)
    ensures
        r.val() == wrap(pow(a.val() as int, e.val())),
{
    let (r, _) = U256([a.w0, a.w1, a.w2, a.w3]).overflowing_pow(U256([e.w0, e.w1, e.w2, e.w3]));
    Word { w0: r.0[0], w1: r.0[1], w2: r.0[2], w3: r.0[3] }
}

/// Relies on U256::full_mul: the exact 512-bit product as low and high halves.
#[verifier::external_body]
fn u256_full_mul(a: Word, b: Word) -> (r: (Word, Word))
    ensures
        r.0.val() + r.1.val() * modulus() == a.val() * b.val(),
{
    let p = U256([a.w0, a.w1, a.w2, a.w3]).full_mul(U256([b.w0, b.w1, b.w2, b.w3]));
    (
        Word { w0: p.0[0], w1: p.0[1], w2: p.0[2], w3: p.0[3] },
        Word { w0: p.0[4], w1: p.0[5], w2: p.0[6], w3: p.0[7] },
    )
}

/// Relies on U512's `%`: the remainder of a 512-bit number given as two halves;
/// it panics on a zero divisor.
#[verifier::external_body]
fn u512_rem(lo: Word, hi: Word, n: Word) -> (r: Word)
    requires
        n.val() != 0,
    ensures
        r.val() == (lo.val() + hi.val() * modulus()) % n.val(),
{
    let x = U512([lo.w0, lo.w1, lo.w2, lo.w3, hi.w0, hi.w1, hi.w2, hi.w3]);
    let m = x % U512([n.w0, n.w1, n.w2, n.w3, 0, 0, 0, 0]);
    Word { w0: m.0[0], w1: m.0[1], w2: m.0[2], w3: m.0[3] }
}

/// Relies on U256's `<<`: the value shifted left, bits past 256 dropped.
#[verifier::external_body]
fn u256_shl(x: Word, s: usize) -> (r: Word)
    requires
        s < 256,
    ensures
        r.val() == wrap((x.val() * pow2(s as nat)) as int),
{
    let r = U256([x.w0, x.w1, x.w2, x.w3]) << s;
    Word { w0: r.0[0], w1: r.0[1], w2: r.0[2], w3: r.0[3] }
}

/// Relies on U256's `>>`: the value shifted right, low bits dropped.
#[verifier::external_body]
fn u256_shr(x: Word, s: usize) -> (r: Word)
    requires
        s < 256,
    ensures
        r.val() == x.val() / pow2(s as nat),
{
    let r = U256([x.w0, x.w1, x.w2, x.w3]) >> s;
    Word { w0: r.0[0], w1: r.0[1], w2: r.0[2], w3: r.0[3] }
}

/// Relies on U256::byte: the byte at a little-endian index; it panics past index 31.
#[verifier::external_body]
fn u256_byte(x: Word, index: usize) -> (r: u8)
    requires
        index < 32,
    ensures
        r as nat == (x.val() / pow2(8 * index as nat)) % 256,
{
    U256([x.w0, x.w1, x.w2, x.w3]).byte(index)
}

/// Relies on U256's `<` (its `Ord`): the numeric order of two words.
#[verifier::external_body]
fn u256_lt(a: Word, b: Word) -> (r: bool)
    ensures
        r == (a.val() < b.val()),
{
    U256([a.w0, a.w1, a.w2, a.w3]) < U256([b.w0, b.w1, b.w2, b.w3])
}

/// Relies on U256::from_big_endian: the big-endian value of at most 32 bytes;
/// it panics on a longer slice.
#[verifier::external_body]
pub(crate) fn u256_from_big_endian(bytes: &[u8]) -> (r: Word)
    requires
        bytes@.len() <= 32,
    ensures
        r.val() == be_value(bytes@),
{
    let r = U256::from_big_endian(bytes);
    Word { w0: r.0[0], w1: r.0[1], w2: r.0[2], w3: r.0[3] }
}

/// The 32 bytes of `bytes` from `offset` read as a big-endian word.
pub fn word_from_bytes(bytes: &[u8], offset: usize) -> (r: Word)
    requires
        offset + 32 <= bytes@.len(),
    ensures
        r.val() == be_value(bytes@.subrange(offset as int, offset + 32)),
{
    let n = bytes.len();
    u256_from_big_endian(vstd::slice::slice_subrange(bytes, offset, offset + 32))
}

/// Relies on U256::to_big_endian: the 32 big-endian bytes of a word.
#[verifier::external_body]
pub(crate) fn u256_to_big_endian(x: Word) -> (r: Vec<u8>)
    ensures
        r@ == be_bytes(x.val(), 32),
{
    let mut bytes = vec![0u8; 32];
    U256([x.w0, x.w1, x.w2, x.w3]).to_big_endian(&mut bytes);
    bytes
}


pub open spec fn sdiv_value(a: nat, b: nat) -> nat {
    if b == 0 {
        0
    } else {
        let q = abs(to_signed(a)) / abs(to_signed(b));
        if (to_signed(a) < 0) != (to_signed(b) < 0) {
            wrap(-q)
        } else {
            wrap(q as int)
        }
    }
}

pub open spec fn srem_value(a: nat, b: nat) -> nat {
    if b == 0 {
        0
    } else {
        let r = abs(to_signed(a)) % abs(to_signed(b));
        if to_signed(a) < 0 {
            wrap(-r)
        } else {
            r
        }
    }
}

pub open spec fn addmod_value(a: nat, b: nat, n: nat) -> nat {
    if n == 0 {
        0
    } else {
        (a + b) % n
    }
}

pub open spec fn mulmod_value(a: nat, b: nat, n: nat) -> nat {
    if n == 0 {
        0
    } else {
        (a * b) % n
    }
}

/// Sign extension of the low `b + 1` bytes of `x`.
pub open spec fn signextend_value(b: nat, x: nat) -> nat {
    if b >= 32 {
        x
    } else {
        let low = x % pow2(8 * b + 8);
        if low >= pow2(8 * b + 7) {
            (low + modulus() - pow2(8 * b + 8)) as nat
        } else {
            low
        }
    }
}

/// The `i`-th byte of `x`, counting from the most significant.
pub open spec fn byte_value(i: nat, x: nat) -> nat {
    if i >= 32 {
        0
    } else {
        (x / pow2((8 * (31 - i)) as nat)) % 256
    }
}

pub open spec fn shl_value(s: nat, x: nat) -> nat {
    if s >= 256 {
        0
    } else {
        wrap((x * pow2(s)) as int)
    }
}

pub open spec fn shr_value(s: nat, x: nat) -> nat {
    if s >= 256 {
        0
    } else {
        x / pow2(s)
    }
}

/// Arithmetic right shift: the signed value divided by 2^s, rounded down.
pub open spec fn sar_value(s: nat, x: nat) -> nat {
    if s >= 256 {
        if to_signed(x) < 0 {
            (modulus() - 1) as nat
        } else {
            0
        }
    } else {
        wrap(to_signed(x) / (pow2(s) as int))
    }
}

pub open spec fn bool_value(b: bool) -> nat {
    if b {
        1
    } else {
        0
    }
}

proof fn lemma_div_le(x: nat, d: nat)
    requires
        d >= 1,
    ensures
        x / d <= x,
{
    assert(x / d <= x) by (nonlinear_arith)
        requires
            d >= 1,
    ;
}

impl Word {
    pub fn zero() -> (r: Word)
        ensures
            r.val() == 0,
    {
        Word { w0: 0, w1: 0, w2: 0, w3: 0 }
    }

    pub fn one() -> (r: Word)
        ensures
            r.val() == 1,
    {
        Word { w0: 1, w1: 0, w2: 0, w3: 0 }
    }

    /// The word with every bit set.
    pub fn max_value() -> (r: Word)
        ensures
            r.val() == modulus() - 1,
    {
        Word { w0: u64::MAX, w1: u64::MAX, w2: u64::MAX, w3: u64::MAX }
    }

    pub fn from_u64(v: u64) -> (r: Word)
        ensures
            r.val() == v,
    {
        Word { w0: v, w1: 0, w2: 0, w3: 0 }
    }

    pub fn from_usize(v: usize) -> (r: Word)
        ensures
            r.val() == v,
    {
        Word { w0: v as u64, w1: 0, w2: 0, w3: 0 }
    }

    /// The value as a `usize`, when it fits.
    pub fn to_usize(self) -> (r: Option<usize>)
        ensures
            self.val() <= usize::MAX ==> r == Some(self.val() as usize),
            self.val() > usize::MAX ==> r.is_none(),
    {
        if self.w1 == 0 && self.w2 == 0 && self.w3 == 0 && self.w0 <= usize::MAX as u64 {
            Some(self.w0 as usize)
        } else {
            None
        }
    }

    pub fn is_zero(self) -> (r: bool)
        ensures
            r == (self.val() == 0),
    {
        self.w0 == 0 && self.w1 == 0 && self.w2 == 0 && self.w3 == 0
    }

    /// Whether the sign bit is set.
    pub fn is_negative(self) -> (r: bool)
        ensures
            r == (self.val() >= sign_weight()),
            r == (to_signed(self.val()) < 0),
    {
        proof {
            lemma_val_bound(self);
        }
        self.w3 >= 0x8000_0000_0000_0000
    }

    pub fn add(self, other: Word) -> (r: Word)
        ensures
            r.val() == wrap((self.val() + other.val()) as int),
    {
        u256_overflowing_add(self, other).0
    }

    pub fn sub(self, other: Word) -> (r: Word)
        ensures
            r.val() == wrap(self.val() - other.val()),
    {
        u256_overflowing_sub(self, other)
    }

    pub fn mul(self, other: Word) -> (r: Word)
        ensures
            r.val() == wrap((self.val() * other.val()) as int),
    {
        u256_overflowing_mul(self, other)
    }

    /// Two's-complement negation.
    pub fn neg(self) -> (r: Word)
        ensures
            r.val() == wrap(-self.val()),
    {
        u256_overflowing_sub(Word::zero(), self)
    }

    /// Unsigned division; zero when the divisor is zero.
    pub fn div(self, other: Word) -> (r: Word)
        ensures
            r.val() == if other.val() == 0 { 0 } else { self.val() / other.val() },
    {
        if other.is_zero() {
            Word::zero()
        } else {
            u256_div_mod(self, other).0
        }
    }

    /// Unsigned remainder; zero when the divisor is zero.
    pub fn rem(self, other: Word) -> (r: Word)
        ensures
            r.val() == if other.val() == 0 { 0 } else { self.val() % other.val() },
    {
        if other.is_zero() {
            Word::zero()
        } else {
            u256_div_mod(self, other).1
        }
    }

    /// The magnitude of the signed reading.
    fn magnitude(self) -> (r: Word)
        ensures
            r.val() == abs(to_signed(self.val())),
    {
        if self.is_negative() {
            proof {
                let v = self.val() as int;
                lemma_fundamental_div_mod_converse(-v, modulus() as int, -1, modulus() - v);
            }
            self.neg()
        } else {
            self
        }
    }

    /// Signed division, truncating toward zero; zero when the divisor is zero.
    pub fn sdiv(self, other: Word) -> (r: Word)
        ensures
            r.val() == sdiv_value(self.val(), other.val()),
    {
        if other.is_zero() {
            return Word::zero();
        }
        let ua = self.magnitude();
        let ub = other.magnitude();
        let q = u256_div_mod(ua, ub).0;
        proof {
            lemma_div_le(ua.val(), ub.val());
            lemma_val_bound(ua);
            lemma_small_mod(q.val(), modulus());
        }
        if self.is_negative() != other.is_negative() {
            q.neg()
        } else {
            q
        }
    }

    /// Signed remainder, with the sign of the dividend; zero when the divisor is zero.
    pub fn srem(self, other: Word) -> (r: Word)
        ensures
            r.val() == srem_value(self.val(), other.val()),
    {
        if other.is_zero() {
            return Word::zero();
        }
        let ua = self.magnitude();
        let ub = other.magnitude();
        let m = u256_div_mod(ua, ub).1;
        if self.is_negative() {
            m.neg()
        } else {
            m
        }
    }

    /// `(self + other) mod n` computed without loss; zero when `n` is zero.
    pub fn addmod(self, other: Word, n: Word) -> (r: Word)
        ensures
            r.val() == addmod_value(self.val(), other.val(), n.val()),
    {
        if n.is_zero() {
            return Word::zero();
        }
        let (s, carry) = u256_overflowing_add(self, other);
        let hi = if carry {
            Word::one()
        } else {
            Word::zero()
        };
        proof {
            let t = (self.val() + other.val()) as int;
            if carry {
                lemma_fundamental_div_mod_converse(t, modulus() as int, 1, t - modulus());
            } else {
                lemma_small_mod(t as nat, modulus());
            }
        }
        u512_rem(s, hi, n)
    }

    /// `(self * other) mod n` computed without loss; zero when `n` is zero.
    pub fn mulmod(self, other: Word, n: Word) -> (r: Word)
        ensures
            r.val() == mulmod_value(self.val(), other.val(), n.val()),
    {
        if n.is_zero() {
            return Word::zero();
        }
        let (lo, hi) = u256_full_mul(self, other);
        u512_rem(lo, hi, n)
    }

    /// `self` to the power `e`, wrapped to 256 bits.
    pub fn exp(self, e: Word) -> (r: Word)
        ensures
            r.val() == wrap(pow(self.val() as int, e.val())),
    {
        u256_overflowing_pow(self, e)
    }

    pub fn lt(self, other: Word) -> (r: bool)
        ensures
            r == (self.val() < other.val()),
    {
        u256_lt(self, other)
    }

    pub fn gt(self, other: Word) -> (r: bool)
        ensures
            r == (self.val() > other.val()),
    {
        u256_lt(other, self)
    }

    /// Signed less-than on the two's-complement readings.
    pub fn slt(self, other: Word) -> (r: bool)
        ensures
            r == (to_signed(self.val()) < to_signed(other.val())),
    {
        let an = self.is_negative();
        let bn = other.is_negative();
        if an != bn {
            an
        } else {
            u256_lt(self, other)
        }
    }

    /// Signed greater-than on the two's-complement readings.
    pub fn sgt(self, other: Word) -> (r: bool)
        ensures
            r == (to_signed(self.val()) > to_signed(other.val())),
    {
        other.slt(self)
    }

    pub fn bitand(self, other: Word) -> (r: Word)
        ensures
            r == and_words(self, other),
    {
        Word {
            w0: self.w0 & other.w0,
            w1: self.w1 & other.w1,
            w2: self.w2 & other.w2,
            w3: self.w3 & other.w3,
        }
    }

    pub fn bitor(self, other: Word) -> (r: Word)
        ensures
            r == or_words(self, other),
    {
        Word {
            w0: self.w0 | other.w0,
            w1: self.w1 | other.w1,
            w2: self.w2 | other.w2,
            w3: self.w3 | other.w3,
        }
    }

    pub fn bitxor(self, other: Word) -> (r: Word)
        ensures
            r == xor_words(self, other),
    {
        Word {
            w0: self.w0 ^ other.w0,
            w1: self.w1 ^ other.w1,
            w2: self.w2 ^ other.w2,
            w3: self.w3 ^ other.w3,
        }
    }

    /// Bitwise complement.
    pub fn not(self) -> (r: Word)
        ensures
            r == not_word(self),
            r.val() == modulus() - 1 - self.val(),
    {
        let r = Word { w0: !self.w0, w1: !self.w1, w2: !self.w2, w3: !self.w3 };
        proof {
            lemma_not_limb(self.w0);
            lemma_not_limb(self.w1);
            lemma_not_limb(self.w2);
            lemma_not_limb(self.w3);
        }
        r
    }

    /// The `i`-th byte of `x` counted from the most significant, as a word.
    pub fn byte(i: Word, x: Word) -> (r: Word)
        ensures
            r.val() == byte_value(i.val(), x.val()),
    {
        if !u256_lt(i, Word::from_u64(32)) {
            return Word::zero();
        }
        let index = 31 - i.w0 as usize;
        Word::from_u64(u256_byte(x, index) as u64)
    }

    /// Left shift of `x` by `shift` bits.
    pub fn shl(shift: Word, x: Word) -> (r: Word)
        ensures
            r.val() == shl_value(shift.val(), x.val()),
    {
        if !u256_lt(shift, Word::from_u64(256)) {
            return Word::zero();
        }
        u256_shl(x, shift.w0 as usize)
    }

    /// Logical right shift of `x` by `shift` bits.
    pub fn shr(shift: Word, x: Word) -> (r: Word)
        ensures
            r.val() == shr_value(shift.val(), x.val()),
    {
        if !u256_lt(shift, Word::from_u64(256)) {
            return Word::zero();
        }
        u256_shr(x, shift.w0 as usize)
    }

    /// Arithmetic right shift of `x` by `shift` bits.
    pub fn sar(shift: Word, x: Word) -> (r: Word)
        ensures
            r.val() == sar_value(shift.val(), x.val()),
    {
        let neg = x.is_negative();
        if !u256_lt(shift, Word::from_u64(256)) {
            return if neg {
                Word::max_value()
            } else {
                Word::zero()
            };
        }
        let s = shift.w0 as usize;
        if !neg {
            proof {
                lemma_pow2_pos(s as nat);
                lemma_div_le(x.val(), pow2(s as nat));
                lemma_small_mod(x.val() / pow2(s as nat), modulus());
            }
            return u256_shr(x, s);
        }
        let n = x.not();
        let q = u256_shr(n, s);
        proof {
            let d = pow2(s as nat) as int;
            lemma_pow2_pos(s as nat);
            lemma_div_le(n.val(), pow2(s as nat));
            lemma_fundamental_div_mod(n.val() as int, d);
            let k = n.val() as int / d;
            let m = n.val() as int % d;
            assert((-k - 1) * d == -(k * d) - d) by (nonlinear_arith);
            lemma_fundamental_div_mod_converse(-(n.val() + 1), d, -k - 1, d - m - 1);
            let t = -k - 1;
            lemma_fundamental_div_mod_converse(t, modulus() as int, -1, modulus() + t);
        }
        q.not()
    }

    /// Sign-extends `x` from its low `b + 1` bytes; `x` itself when `b >= 32`.
    pub fn signextend(b: Word, x: Word) -> (r: Word)
        ensures
            r.val() == signextend_value(b.val(), x.val()),
    {
        if !u256_lt(b, Word::from_u64(31)) {
            proof {
                if b.val() == 31 {
                    lemma_pow2_256();
                    lemma_small_mod(x.val(), modulus());
                }
            }
            return x;
        }
        let bits = 8 * (b.w0 as usize) + 8;
        let m = u256_shl(Word::one(), bits);
        let h = u256_shl(Word::one(), bits - 1);
        proof {
            lemma_pow2_256();
            lemma_pow2_strictly_increases(bits as nat, 256);
            lemma_pow2_strictly_increases((bits - 1) as nat, 256);
            lemma_small_mod(pow2(bits as nat), modulus());
            lemma_small_mod(pow2((bits - 1) as nat), modulus());
            lemma_pow2_pos(bits as nat);
            assert(m.val() == pow2(bits as nat));
            assert(h.val() == pow2((bits - 1) as nat));
        }
        let low = u256_div_mod(x, m).1;
        if u256_lt(low, h) {
            low
        } else {
            proof {
                lemma_pow2_pos(bits as nat);
                let t = low.val() - m.val();
                lemma_fundamental_div_mod_converse(t, modulus() as int, -1, modulus() + t);
            }
            low.sub(m)
        }
    }
}

proof fn lemma_not_limb(w: u64)
    ensures
        !w == 0xffff_ffff_ffff_ffff - w,
{
    assert(!w == 0xffff_ffff_ffff_ffff - w) by (bit_vector);
}

} // verus!
