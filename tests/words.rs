use evm_core::Word;

fn w(v: u64) -> Word {
    Word::from_u64(v)
}

fn min_signed() -> Word {
    Word { w0: 0, w1: 0, w2: 0, w3: 0x8000_0000_0000_0000 }
}

fn minus(v: u64) -> Word {
    w(v).neg()
}

#[test]
fn add_negation_is_zero() {
    for a in [w(0), w(1), w(12345), Word::max_value(), min_signed()] {
        assert_eq!(a.add(Word::zero().sub(a)), Word::zero());
    }
}

#[test]
fn add_and_mul_commute() {
    let a = Word { w0: 7, w1: 3, w2: 0, w3: 9 };
    let b = Word { w0: u64::MAX, w1: 1, w2: 2, w3: 3 };
    assert_eq!(a.add(b), b.add(a));
    assert_eq!(a.mul(b), b.mul(a));
}

#[test]
fn add_carries_across_limbs() {
    let a = Word { w0: u64::MAX, w1: 0, w2: 0, w3: 0 };
    assert_eq!(a.add(w(1)), Word { w0: 0, w1: 1, w2: 0, w3: 0 });
    assert_eq!(Word::max_value().add(w(1)), Word::zero());
}

#[test]
fn mul_wraps() {
    let two_128 = Word { w0: 0, w1: 0, w2: 1, w3: 0 };
    assert_eq!(two_128.mul(two_128), Word::zero());
    assert_eq!(w(6).mul(w(7)), w(42));
}

#[test]
fn division_by_zero_is_zero() {
    let a = w(99);
    assert_eq!(a.div(Word::zero()), Word::zero());
    assert_eq!(a.rem(Word::zero()), Word::zero());
    assert_eq!(a.sdiv(Word::zero()), Word::zero());
    assert_eq!(a.srem(Word::zero()), Word::zero());
}

#[test]
fn unsigned_division() {
    assert_eq!(w(100).div(w(7)), w(14));
    assert_eq!(w(100).rem(w(7)), w(2));
}

#[test]
fn signed_division_truncates() {
    assert_eq!(minus(7).sdiv(w(2)), minus(3));
    assert_eq!(w(7).sdiv(minus(2)), minus(3));
    assert_eq!(minus(7).sdiv(minus(2)), w(3));
    assert_eq!(minus(7).srem(w(2)), minus(1));
    assert_eq!(w(7).srem(minus(2)), w(1));
}

#[test]
fn sdiv_min_by_minus_one() {
    assert_eq!(min_signed().sdiv(Word::max_value()), min_signed());
}

#[test]
fn addmod_and_mulmod_are_wide() {
    let max = Word::max_value();
    // (2^256 - 1) * 2 mod 7, computed without wrapping: 2^257 - 2 mod 7 = 2^257 mod 7 - 2 = 4 - 2
    assert_eq!(max.addmod(max, w(7)), w(2));
    // (2^256 - 1)^2 mod 7 = (2^256 mod 7 - 1)^2 = (2 - 1)^2
    assert_eq!(max.mulmod(max, w(7)), w(1));
    assert_eq!(w(5).addmod(w(6), w(4)), w(3));
    assert_eq!(w(5).mulmod(w(6), w(4)), w(2));
    assert_eq!(w(5).addmod(w(6), Word::zero()), Word::zero());
    assert_eq!(w(5).mulmod(w(6), Word::zero()), Word::zero());
}

#[test]
fn exp_wraps() {
    assert_eq!(w(3).exp(w(4)), w(81));
    assert_eq!(w(2).exp(w(255)), min_signed());
    assert_eq!(w(2).exp(w(256)), Word::zero());
    assert_eq!(w(0).exp(w(0)), w(1));
}

#[test]
fn comparisons() {
    assert!(w(1).lt(w(2)));
    assert!(!w(2).lt(w(2)));
    assert!(w(3).gt(w(2)));
    let big = Word { w0: 0, w1: 0, w2: 0, w3: 1 };
    assert!(w(u64::MAX).lt(big));
    assert!(minus(1).slt(w(0)));
    assert!(w(0).sgt(minus(1)));
    assert!(min_signed().slt(minus(1)));
    assert!(!w(5).slt(w(5)));
    assert!(w(0).is_zero());
    assert!(!w(1).is_zero());
}

#[test]
fn bitwise() {
    let a = Word { w0: 0b1100, w1: 1, w2: 0, w3: u64::MAX };
    let b = Word { w0: 0b1010, w1: 3, w2: 5, w3: 0 };
    assert_eq!(a.bitand(b), Word { w0: 0b1000, w1: 1, w2: 0, w3: 0 });
    assert_eq!(a.bitor(b), Word { w0: 0b1110, w1: 3, w2: 5, w3: u64::MAX });
    assert_eq!(a.bitxor(b), Word { w0: 0b0110, w1: 2, w2: 5, w3: u64::MAX });
    assert_eq!(Word::zero().not(), Word::max_value());
}

#[test]
fn byte_counts_from_most_significant() {
    let x = Word { w0: 0x11, w1: 0, w2: 0, w3: 0xab00_0000_0000_0000 };
    assert_eq!(Word::byte(w(0), x), w(0xab));
    assert_eq!(Word::byte(w(31), x), w(0x11));
    assert_eq!(Word::byte(w(30), x), w(0));
    assert_eq!(Word::byte(w(32), x), w(0));
}

#[test]
fn shifts() {
    assert_eq!(Word::shl(w(4), w(1)), w(16));
    assert_eq!(Word::shl(w(255), w(1)), min_signed());
    assert_eq!(Word::shl(w(256), w(1)), Word::zero());
    assert_eq!(Word::shr(w(4), w(256)), w(16));
    assert_eq!(Word::shr(w(255), min_signed()), w(1));
    assert_eq!(Word::shr(w(256), Word::max_value()), Word::zero());
}

#[test]
fn arithmetic_shift_keeps_sign() {
    assert_eq!(Word::sar(w(1), minus(4)), minus(2));
    assert_eq!(Word::sar(w(2), minus(1)), minus(1));
    assert_eq!(Word::sar(w(1), minus(3)), minus(2));
    assert_eq!(Word::sar(w(1), w(5)), w(2));
    assert_eq!(Word::sar(w(256), minus(5)), Word::max_value());
    assert_eq!(Word::sar(w(300), w(5)), Word::zero());
}

#[test]
fn signextend_from_low_bytes() {
    assert_eq!(Word::signextend(w(0), w(0xff)), Word::max_value());
    assert_eq!(Word::signextend(w(0), w(0x7f)), w(0x7f));
    assert_eq!(Word::signextend(w(1), w(0x1_80ff)), minus(0x7f01));
    assert_eq!(Word::signextend(w(31), min_signed()), min_signed());
    let x = w(0x80);
    assert_eq!(Word::signextend(w(32), x), x);
}

#[test]
fn usize_conversion() {
    assert_eq!(w(5).to_usize(), Some(5));
    assert_eq!(Word { w0: 0, w1: 1, w2: 0, w3: 0 }.to_usize(), None);
}
