//! The 256-bit fee arithmetic: carries, overflow detection, signed
//! ranges and comparisons.

use bridge_pool_relayer::num256::{I256, U256};

fn uint(v: u64) -> U256 {
    U256 { l0: v, l1: 0, l2: 0, l3: 0 }
}

#[test]
fn test_add_carries_across_limbs() {
    let a = U256 { l0: u64::MAX, l1: 0, l2: 0, l3: 0 };
    let sum = a.checked_add(&uint(1)).unwrap();
    assert_eq!(sum, U256 { l0: 0, l1: 1, l2: 0, l3: 0 });
}

#[test]
fn test_add_overflow_detected() {
    let max = U256 { l0: u64::MAX, l1: u64::MAX, l2: u64::MAX, l3: u64::MAX };
    assert!(max.checked_add(&uint(1)).is_none());
    assert!(max.checked_add(&uint(0)).is_some());
}

#[test]
fn test_mul_u64() {
    assert_eq!(uint(100_000).mul_u64(37_500).unwrap(), uint(3_750_000_000));
    let a = U256 { l0: u64::MAX, l1: 0, l2: 0, l3: 0 };
    let p = a.mul_u64(u64::MAX).unwrap();
    // (2^64 - 1)^2 = 2^128 - 2^65 + 1
    assert_eq!(p, U256 { l0: 1, l1: 0xffff_ffff_ffff_fffe, l2: 0, l3: 0 });
}

#[test]
fn test_mul_overflow_detected() {
    let max = U256 { l0: u64::MAX, l1: u64::MAX, l2: u64::MAX, l3: u64::MAX };
    assert!(max.mul_u64(2).is_none());
    assert!(max.mul_u64(1).is_some());
}

#[test]
fn test_unsigned_comparison() {
    let big = U256 { l0: 0, l1: 0, l2: 0, l3: 1 };
    assert!(uint(5).lt(&uint(6)));
    assert!(!uint(6).lt(&uint(6)));
    assert!(uint(u64::MAX).lt(&big));
    assert!(uint(6).le(&uint(6)));
}

#[test]
fn test_signed_conversion_boundary() {
    let just_in = U256 {
        l0: u64::MAX,
        l1: u64::MAX,
        l2: u64::MAX,
        l3: 0x7fff_ffff_ffff_ffff,
    };
    let just_out = U256 { l0: 0, l1: 0, l2: 0, l3: 0x8000_0000_0000_0000 };
    assert!(I256::try_from_u256(&just_in).is_some());
    assert!(I256::try_from_u256(&just_out).is_none());
}

#[test]
fn test_signed_sub_and_compare() {
    let five = I256::from_u64(5);
    let nine = I256::from_u64(9);
    let minus_four = five.checked_sub(&nine).unwrap();
    assert!(minus_four.is_negative());
    assert!(minus_four.le(&I256::zero()));
    assert!(minus_four.le(&five));
    assert!(!five.le(&minus_four));
    // adding back returns to the original value
    let five_again = minus_four.checked_add(&nine).unwrap();
    assert_eq!(five_again, five);
    assert!(!five_again.is_negative());
}

#[test]
fn test_signed_overflow_detected() {
    let max_signed = I256 {
        rep: U256 {
            l0: u64::MAX,
            l1: u64::MAX,
            l2: u64::MAX,
            l3: 0x7fff_ffff_ffff_ffff,
        },
    };
    assert!(max_signed.checked_add(&I256::from_u64(1)).is_none());
    assert!(max_signed.checked_sub(&I256::from_u64(1)).is_some());
    let min_signed = I256 { rep: U256 { l0: 0, l1: 0, l2: 0, l3: 0x8000_0000_0000_0000 } };
    assert!(min_signed.checked_sub(&I256::from_u64(1)).is_none());
    assert!(min_signed.checked_add(&I256::from_u64(1)).is_some());
    assert!(min_signed.is_negative());
    assert!(min_signed.le(&max_signed));
}
