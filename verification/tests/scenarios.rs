use confidential_tx::balance::verify_balance;
use confidential_tx::commitment::{aggregate, pedersen_commit};
use confidential_tx::range_proof::{toy_range_proof_create, toy_range_proof_verify};

#[test]
fn honest_transaction_is_accepted() {
    let value_input = 10i64;
    let r_input = 12345i64;
    let value_to_bob = 5i64;
    let r_bob = 11111i64;
    let value_change = 5i64;
    let r_change = r_input - r_bob;
    assert_eq!(r_change, 1234);

    let c_input = pedersen_commit(value_input, r_input);
    let c_bob = pedersen_commit(value_to_bob, r_bob);
    let c_change = pedersen_commit(value_change, r_change);
    assert_eq!(c_input, 86445);
    assert_eq!(c_bob, 77792);
    assert_eq!(c_change, 8653);

    let pi_input = toy_range_proof_create(value_input, c_input);
    let pi_bob = toy_range_proof_create(value_to_bob, c_bob);
    let pi_change = toy_range_proof_create(value_change, c_change);
    assert_eq!(pi_input, 172891);
    assert_eq!(pi_bob, 155585);
    assert_eq!(pi_change, 17307);

    assert_eq!(aggregate(&[c_bob, c_change]), c_input);
    assert!(verify_balance(c_input, &[c_bob, c_change]));
    assert!(toy_range_proof_verify(c_input, pi_input));
    assert!(toy_range_proof_verify(c_bob, pi_bob));
    assert!(toy_range_proof_verify(c_change, pi_change));
}

#[test]
fn negative_change_passes_the_balance_and_fails_the_range_proof() {
    let value_input = 10i64;
    let r_input = 99999i64;
    let value_to_bob = 15i64;
    let r_bob = 11111i64;
    let value_change = -5i64;
    let r_change = r_input - r_bob;
    assert_eq!(r_change, 88888);

    let c_input = pedersen_commit(value_input, r_input);
    let c_bob = pedersen_commit(value_to_bob, r_bob);
    let c_change = pedersen_commit(value_change, r_change);
    assert_eq!(c_input, 700023);
    assert_eq!(c_bob, 77822);
    assert_eq!(c_change, 622201);

    assert!(verify_balance(c_input, &[c_bob, c_change]));

    let pi_bob = toy_range_proof_create(value_to_bob, c_bob);
    let pi_change = toy_range_proof_create(value_change, c_change);
    assert_eq!(pi_change, 1244402);
    assert!(toy_range_proof_verify(c_bob, pi_bob));
    assert!(!toy_range_proof_verify(c_change, pi_change));

    let accepted = verify_balance(c_input, &[c_bob, c_change])
        && toy_range_proof_verify(c_bob, pi_bob)
        && toy_range_proof_verify(c_change, pi_change);
    assert!(!accepted);
}
