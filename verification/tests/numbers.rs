use aave_liquidator::numbers::{I256, U256};

const MAX: U256 = U256 { words: [u64::MAX; 4] };

#[test]
fn sums_carry_over_words() {
    let a = U256 { words: [u64::MAX, u64::MAX, 0, 0] };
    assert_eq!(a.add(U256::from_u64(1)), U256 { words: [0, 0, 1, 0] });
    assert_eq!(U256::from_u64(2).add(U256::from_u64(3)), U256::from_u64(5));
}

#[test]
fn products_carry_over_words() {
    let a = U256::from_u64(u64::MAX);
    assert_eq!(a.mul(a), U256 { words: [1, u64::MAX - 1, 0, 0] });
    assert_eq!(U256::from_u64(6).mul(U256::from_u64(7)), U256::from_u64(42));
}

#[test]
fn quotients_round_down() {
    assert_eq!(U256::from_u64(20).div(U256::from_u64(6)), U256::from_u64(3));
    assert_eq!(
        U256 { words: [0, 0, 0, 8] }.div(U256 { words: [0, 0, 2, 0] }),
        U256 { words: [0, 4, 0, 0] },
    );
}

#[test]
fn powers_of_ten() {
    assert_eq!(U256::from_u64(10).pow(U256::from_u64(0)), U256::from_u64(1));
    assert_eq!(U256::from_u64(10).pow(U256::from_u64(18)), U256::from_u64(1_000_000_000_000_000_000));
    let high = U256::from_u64(10).pow(U256::from_u64(77));
    assert_eq!(high.div(U256::from_u64(10).pow(U256::from_u64(60))), U256::from_u64(100_000_000_000_000_000));
}

#[test]
fn unsigned_order() {
    assert!(U256::from_u64(1).less_than(&U256::from_u64(2)));
    assert!(!U256::from_u64(2).less_than(&U256::from_u64(2)));
    assert!(U256 { words: [9, 9, 9, 0] }.less_than(&U256 { words: [0, 0, 0, 1] }));
    assert!(!MAX.less_than(&U256::from_u64(1)));
    assert_ne!(U256 { words: [0, 1, 0, 0] }, U256 { words: [0, 0, 1, 0] });
}

#[test]
fn low_word_cuts() {
    assert_eq!(U256 { words: [7, 1, 1, 1] }.low_u64(), 7);
}

#[test]
fn signed_order() {
    let minus_one = I256 { words: [u64::MAX; 4] };
    let zero = I256::from_u64(0);
    assert!(minus_one.is_negative());
    assert!(!zero.is_negative());
    assert!(minus_one.less_than(&zero));
    assert!(!zero.less_than(&minus_one));
    assert!(I256::min_value().less_than(&minus_one));
    assert!(zero.less_than(&I256::from_u64(1)));
    assert_ne!(minus_one, zero);
}

#[test]
fn unsigned_becomes_signed() {
    assert_eq!(I256::from_u256(U256::from_u64(0)), Some(I256::from_u64(0)));
    assert_eq!(I256::from_u256(U256::from_u64(1_234_567_890)), Some(I256::from_u64(1_234_567_890)));
    let largest = [u64::MAX, u64::MAX, u64::MAX, u64::MAX / 2];
    assert_eq!(I256::from_u256(U256 { words: largest }), Some(I256 { words: largest }));
    assert_eq!(I256::from_u256(U256 { words: [0, 0, 0, 1 << 63] }), None);
    assert_eq!(I256::from_u256(MAX), None);
}
