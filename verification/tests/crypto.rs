use poa_ledger::keypair::KeyPair;

#[test]
fn test_sign_verify_success() {
    let keypair = KeyPair::new(0);
    let msg = b"hello".to_vec();

    let sig = keypair.sign(&msg);
    assert_eq!(sig.verify(&keypair.public_key_bytes(), &msg), true);
}

#[test]
fn test_sign_verify_failure() {
    let keypair = KeyPair::new(1);
    let msg = b"hello".to_vec();

    let sig = keypair.sign(&msg);
    assert_eq!(sig.verify(&keypair.public_key_bytes(), &b"hi".to_vec()), false);

    let other_keypair = KeyPair::new(2);
    assert_eq!(
        sig.verify(&other_keypair.public_key_bytes(), &b"hello".to_vec()),
        false
    );
}

#[test]
fn keypair_generation_is_deterministic() {
    let a = KeyPair::new(42);
    let b = KeyPair::new(42);
    assert_eq!(a.public_key_bytes(), b.public_key_bytes());
    let c = KeyPair::new(43);
    assert_ne!(a.public_key_bytes(), c.public_key_bytes());
}
