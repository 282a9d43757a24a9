use confidential_tx::field::{reduce, MODULUS};

#[test]
fn modulus_is_the_mersenne_prime_below_two_to_the_61() {
    assert_eq!(MODULUS, (1i64 << 61) - 1);
    assert_eq!(MODULUS, 2305843009213693951);
}

#[test]
fn reduce_keeps_scalars() {
    assert_eq!(reduce(0), 0);
    assert_eq!(reduce(1), 1);
    assert_eq!(reduce(86445), 86445);
    assert_eq!(reduce(MODULUS as i128 - 1), MODULUS - 1);
}

#[test]
fn reduce_wraps_at_the_modulus() {
    assert_eq!(reduce(MODULUS as i128), 0);
    assert_eq!(reduce(MODULUS as i128 + 5), 5);
    assert_eq!(reduce(3 * (MODULUS as i128) + 17), 17);
}

#[test]
fn reduce_of_negative_is_not_negative() {
    assert_eq!(reduce(-1), MODULUS - 1);
    assert_eq!(reduce(-15), 2305843009213693936);
    assert_eq!(reduce(-(MODULUS as i128)), 0);
    assert_eq!(reduce(-(MODULUS as i128) - 1), MODULUS - 1);
}

#[test]
fn reduce_takes_the_whole_working_width() {
    assert_eq!(reduce(i128::MAX), 31);
    assert_eq!(reduce(i128::MIN), 2305843009213693919);
}

#[test]
fn reduce_is_idempotent() {
    for x in [-1_000_000_007i128, -1, 0, 1, 1 << 70, -(1 << 100)] {
        let once = reduce(x);
        assert!(0 <= once && once < MODULUS);
        assert_eq!(reduce(once as i128), once);
    }
}
